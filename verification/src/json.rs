//! The document model: an owned JSON value type and its mathematical view.

use vstd::prelude::*;

verus! {

/// A JSON document. Numbers are kept as their literal text: the merge
/// never computes with them, it only passes them through unchanged.
#[derive(Debug)]
pub enum Json {
    Null,
    Bool(bool),
    Num(String),
    Str(String),
    Arr(Vec<Json>),
    Obj(Vec<(String, Json)>),
}

/// The mathematical model of a document: strings are character
/// sequences; arrays and objects are sequences, an object keeping its
/// fields in order.
#[verifier::ext_equal]
pub enum JVal {
    Null,
    Bool(bool),
    Num(Seq<char>),
    Str(Seq<char>),
    Arr(Seq<JVal>),
    Obj(Seq<(Seq<char>, JVal)>),
}

/// The models of the elements of a JSON array.
pub open spec fn arr_view(v: Seq<Json>) -> Seq<JVal> {
    Seq::new(
        v.len(),
        |i: int|
            if 0 <= i < v.len() {
                jval(v[i])
            } else {
                JVal::Null
            },
    )
}

/// The models of the fields of a JSON object, in order.
pub open spec fn obj_view(v: Seq<(String, Json)>) -> Seq<(Seq<char>, JVal)> {
    Seq::new(
        v.len(),
        |i: int|
            if 0 <= i < v.len() {
                (v[i].0@, jval(v[i].1))
            } else {
                (Seq::<char>::empty(), JVal::Null)
            },
    )
}

/// The model of a document.
pub open spec fn jval(j: Json) -> JVal
    decreases j,
{
    match j {
        Json::Null => JVal::Null,
        Json::Bool(b) => JVal::Bool(b),
        Json::Num(s) => JVal::Num(s@),
        Json::Str(s) => JVal::Str(s@),
        Json::Arr(v) => JVal::Arr(
            Seq::new(
                v@.len(),
                |i: int|
                    if 0 <= i < v@.len() {
                        jval(v@[i])
                    } else {
                        JVal::Null
                    },
            ),
        ),
        Json::Obj(v) => JVal::Obj(
            Seq::new(
                v@.len(),
                |i: int|
                    if 0 <= i < v@.len() {
                        (v@[i].0@, jval(v@[i].1))
                    } else {
                        (Seq::<char>::empty(), JVal::Null)
                    },
            ),
        ),
    }
}

impl View for Json {
    type V = JVal;

    open spec fn view(&self) -> JVal {
        jval(*self)
    }
}

impl DeepView for Json {
    type V = JVal;

    open spec fn deep_view(&self) -> JVal {
        jval(*self)
    }
}

/// The two composite views factor through `arr_view` and `obj_view`.
pub proof fn lemma_jval_composite(j: Json)
    ensures
        j matches Json::Arr(v) ==> jval(j) == JVal::Arr(arr_view(v@)),
        j matches Json::Obj(v) ==> jval(j) == JVal::Obj(obj_view(v@)),
{
    match j {
        Json::Arr(v) => {
            assert(jval(j)->Arr_0 =~= arr_view(v@));
        },
        Json::Obj(v) => {
            assert(jval(j)->Obj_0 =~= obj_view(v@));
        },
        _ => {},
    }
}

/// The value of the first field named `key`, if the object has one.
pub open spec fn lookup(fs: Seq<(Seq<char>, JVal)>, key: Seq<char>) -> Option<JVal>
    decreases fs.len(),
{
    if fs.len() == 0 {
        None
    } else if fs[0].0 == key {
        Some(fs[0].1)
    } else {
        lookup(fs.drop_first(), key)
    }
}

/// The fields with the first field named `key` replaced by `v`, or
/// with `(key, v)` appended when no field has that name.
pub open spec fn set_field(
    fs: Seq<(Seq<char>, JVal)>,
    key: Seq<char>,
    v: JVal,
) -> Seq<(Seq<char>, JVal)>
    decreases fs.len(),
{
    if fs.len() == 0 {
        seq![(key, v)]
    } else if fs[0].0 == key {
        seq![(key, v)] + fs.drop_first()
    } else {
        seq![fs[0]] + set_field(fs.drop_first(), key, v)
    }
}

/// The value of field `key` of `v`, when `v` is an object that has
/// such a field; anything else reads as "not found".
pub open spec fn obj_get(v: JVal, key: Seq<char>) -> Option<JVal> {
    match v {
        JVal::Obj(fs) => lookup(fs, key),
        _ => None,
    }
}

/// When the first `i` fields are not named `key` and field `i` is,
/// the lookup finds field `i`.
pub proof fn lemma_lookup_first_match(fs: Seq<(Seq<char>, JVal)>, key: Seq<char>, i: int)
    requires
        0 <= i < fs.len(),
        fs[i].0 == key,
        forall|j: int| 0 <= j < i ==> fs[j].0 != key,
    ensures
        lookup(fs, key) == Some(fs[i].1),
    decreases i,
{
    if i > 0 {
        assert(fs[0].0 != key);
        lemma_lookup_first_match(fs.drop_first(), key, i - 1);
    }
}

/// When no field is named `key`, the lookup finds nothing.
pub proof fn lemma_lookup_absent(fs: Seq<(Seq<char>, JVal)>, key: Seq<char>)
    requires
        forall|j: int| 0 <= j < fs.len() ==> fs[j].0 != key,
    ensures
        lookup(fs, key) is None,
    decreases fs.len(),
{
    if fs.len() > 0 {
        lemma_lookup_absent(fs.drop_first(), key);
    }
}

/// When the first `i` fields are not named `key` and field `i` is,
/// setting `key` updates field `i` in place.
pub proof fn lemma_set_field_first_match(
    fs: Seq<(Seq<char>, JVal)>,
    key: Seq<char>,
    v: JVal,
    i: int,
)
    requires
        0 <= i < fs.len(),
        fs[i].0 == key,
        forall|j: int| 0 <= j < i ==> fs[j].0 != key,
    ensures
        set_field(fs, key, v) == fs.update(i, (key, v)),
    decreases i,
{
    if i == 0 {
        assert(set_field(fs, key, v) =~= fs.update(0, (key, v)));
    } else {
        assert(fs[0].0 != key);
        lemma_set_field_first_match(fs.drop_first(), key, v, i - 1);
        assert(seq![fs[0]] + fs.drop_first().update(i - 1, (key, v)) =~= fs.update(i, (key, v)));
    }
}

/// When no field is named `key`, setting `key` appends a new field.
pub proof fn lemma_set_field_absent(fs: Seq<(Seq<char>, JVal)>, key: Seq<char>, v: JVal)
    requires
        forall|j: int| 0 <= j < fs.len() ==> fs[j].0 != key,
    ensures
        set_field(fs, key, v) == fs.push((key, v)),
    decreases fs.len(),
{
    if fs.len() == 0 {
        assert(set_field(fs, key, v) =~= fs.push((key, v)));
    } else {
        lemma_set_field_absent(fs.drop_first(), key, v);
        assert(seq![fs[0]] + fs.drop_first().push((key, v)) =~= fs.push((key, v)));
    }
}

/// Setting a field changes that field's value and no other field's.
pub proof fn lemma_lookup_set_field(fs: Seq<(Seq<char>, JVal)>, key: Seq<char>, v: JVal)
    ensures
        lookup(set_field(fs, key, v), key) == Some(v),
        forall|k2: Seq<char>|
            k2 != key ==> #[trigger] lookup(set_field(fs, key, v), k2) == lookup(fs, k2),
    decreases fs.len(),
{
    let out = set_field(fs, key, v);
    if fs.len() == 0 {
        assert(out =~= seq![(key, v)]);
        assert(out.drop_first() =~= Seq::<(Seq<char>, JVal)>::empty());
        assert forall|k2: Seq<char>| k2 != key implies #[trigger] lookup(out, k2) == lookup(
            fs,
            k2,
        ) by {
            assert(lookup(out, k2) == lookup(out.drop_first(), k2));
            assert(lookup(out.drop_first(), k2) is None);
        }
    } else if fs[0].0 == key {
        assert(out =~= seq![(key, v)] + fs.drop_first());
        assert(out.drop_first() =~= fs.drop_first());
        assert forall|k2: Seq<char>| k2 != key implies #[trigger] lookup(out, k2) == lookup(
            fs,
            k2,
        ) by {
            assert(lookup(out, k2) == lookup(out.drop_first(), k2));
            assert(lookup(fs, k2) == lookup(fs.drop_first(), k2));
        }
    } else {
        lemma_lookup_set_field(fs.drop_first(), key, v);
        assert(out =~= seq![fs[0]] + set_field(fs.drop_first(), key, v));
        assert(out.drop_first() =~= set_field(fs.drop_first(), key, v));
        assert(out[0] == fs[0]);
        assert forall|k2: Seq<char>| k2 != key implies #[trigger] lookup(out, k2) == lookup(
            fs,
            k2,
        ) by {
            if fs[0].0 != k2 {
                assert(lookup(out, k2) == lookup(out.drop_first(), k2));
                assert(lookup(fs, k2) == lookup(fs.drop_first(), k2));
            }
        }
    }
}

/// Setting a field keeps the length (when the field exists; one more
/// otherwise) and keeps every differently-named field at its position.
pub proof fn lemma_set_field_positions(fs: Seq<(Seq<char>, JVal)>, key: Seq<char>, v: JVal)
    ensures
        lookup(fs, key) is Some ==> set_field(fs, key, v).len() == fs.len(),
        lookup(fs, key) is None ==> set_field(fs, key, v).len() == fs.len() + 1,
        forall|p: int|
            0 <= p < fs.len() && fs[p].0 != key ==> #[trigger] set_field(fs, key, v)[p] == fs[p],
    decreases fs.len(),
{
    let out = set_field(fs, key, v);
    if fs.len() == 0 {
    } else if fs[0].0 == key {
    } else {
        lemma_set_field_positions(fs.drop_first(), key, v);
        let rec = set_field(fs.drop_first(), key, v);
        assert forall|p: int| 0 <= p < fs.len() && fs[p].0 != key implies #[trigger] out[p]
            == fs[p] by {
            if p > 0 {
                assert(fs.drop_first()[p - 1] == fs[p]);
                assert(out[p] == rec[p - 1]);
            }
        }
    }
}

/// Finds the index of the first field named `key`, if any.
pub fn obj_find(fields: &Vec<(String, Json)>, key: &String) -> (r: Option<usize>)
    ensures
        match r {
            Some(i) => 0 <= i < fields@.len() && fields@[i as int].0@ == key@ && (forall|j: int|
                0 <= j < i ==> fields@[j].0@ != key@),
            None => forall|j: int| 0 <= j < fields@.len() ==> fields@[j].0@ != key@,
        },
{
    let n = fields.len();
    let mut i: usize = 0;
    while i < n
        invariant
            n == fields@.len(),
            0 <= i <= n,
            forall|j: int| 0 <= j < i ==> fields@[j].0@ != key@,
        decreases n - i,
    {
        if fields[i].0 == *key {
            return Some(i);
        }
        i = i + 1;
    }
    None
}

/// The lookup in the model, phrased over the exec fields.
pub proof fn lemma_lookup_of_fields(fields: Seq<(String, Json)>, key: Seq<char>)
    ensures
        (forall|j: int| 0 <= j < fields.len() ==> fields[j].0@ != key) ==> lookup(
            obj_view(fields),
            key,
        ) is None,
        forall|i: int|
            0 <= i < fields.len() && fields[i].0@ == key && (forall|j: int|
                0 <= j < i ==> fields[j].0@ != key) ==> #[trigger] lookup(obj_view(fields), key)
                == Some(jval(fields[i].1)),
{
    let fs = obj_view(fields);
    if forall|j: int| 0 <= j < fields.len() ==> fields[j].0@ != key {
        assert(forall|j: int| 0 <= j < fs.len() ==> fs[j].0 != key);
        lemma_lookup_absent(fs, key);
    }
    assert forall|i: int|
        0 <= i < fields.len() && fields[i].0@ == key && (forall|j: int|
            0 <= j < i ==> fields[j].0@ != key) implies #[trigger] lookup(obj_view(fields), key)
        == Some(jval(fields[i].1)) by {
        assert(forall|j: int| 0 <= j < i ==> fs[j].0 != key);
        lemma_lookup_first_match(fs, key, i);
    }
}

/// Structural equality of two documents: equality of their models.
#[verifier::loop_isolation(false)]
pub fn deep_eq(a: &Json, b: &Json) -> (r: bool)
    ensures
        r == (a@ == b@),
    decreases *a,
{
    match (a, b) {
        (Json::Null, Json::Null) => true,
        (Json::Bool(x), Json::Bool(y)) => *x == *y,
        (Json::Num(x), Json::Num(y)) => *x == *y,
        (Json::Str(x), Json::Str(y)) => *x == *y,
        (Json::Arr(x), Json::Arr(y)) => {
            proof {
                lemma_jval_composite(*a);
                lemma_jval_composite(*b);
            }
            if x.len() != y.len() {
                proof {
                    assert(arr_view(x@).len() != arr_view(y@).len());
                }
                return false;
            }
            let n = x.len();
            let mut i: usize = 0;
            while i < n
                invariant
                    n == x@.len(),
                    n == y@.len(),
                    0 <= i <= n,
                    a@ == JVal::Arr(arr_view(x@)),
                    b@ == JVal::Arr(arr_view(y@)),
                    forall|j: int| 0 <= j < i ==> arr_view(x@)[j] == arr_view(y@)[j],
                decreases n - i,
            {
                proof {
                    assert(decreases_to!(*a => *x));
                    assert(decreases_to!(*x => x@));
                    assert(decreases_to!(x@ => x@[i as int]));
                    assert(decreases_to!(*a => x@[i as int]));
                }
                if !deep_eq(&x[i], &y[i]) {
                    proof {
                        assert(arr_view(x@)[i as int] != arr_view(y@)[i as int]);
                    }
                    return false;
                }
                i = i + 1;
            }
            proof {
                assert(arr_view(x@) =~= arr_view(y@));
            }
            true
        },
        (Json::Obj(x), Json::Obj(y)) => {
            proof {
                lemma_jval_composite(*a);
                lemma_jval_composite(*b);
            }
            if x.len() != y.len() {
                proof {
                    assert(obj_view(x@).len() != obj_view(y@).len());
                }
                return false;
            }
            let n = x.len();
            let mut i: usize = 0;
            while i < n
                invariant
                    n == x@.len(),
                    n == y@.len(),
                    0 <= i <= n,
                    a@ == JVal::Obj(obj_view(x@)),
                    b@ == JVal::Obj(obj_view(y@)),
                    forall|j: int| 0 <= j < i ==> obj_view(x@)[j] == obj_view(y@)[j],
                decreases n - i,
            {
                if !(x[i].0 == y[i].0) {
                    proof {
                        assert(obj_view(x@)[i as int].0 != obj_view(y@)[i as int].0);
                    }
                    return false;
                }
                proof {
                    assert(decreases_to!(*a => *x));
                    assert(decreases_to!(*x => x@));
                    assert(decreases_to!(x@ => x@[i as int]));
                    assert(decreases_to!(x@[i as int] => x@[i as int].1));
                    assert(decreases_to!(*a => x@[i as int].1));
                }
                if !deep_eq(&x[i].1, &y[i].1) {
                    proof {
                        assert(obj_view(x@)[i as int].1 != obj_view(y@)[i as int].1);
                    }
                    return false;
                }
                i = i + 1;
            }
            proof {
                assert(obj_view(x@) =~= obj_view(y@));
            }
            true
        },
        _ => {
            proof {
                assert(a@ != b@);
            }
            false
        },
    }
}

} // verus!
