//! The merge engine: splices node tags into the template's selector
//! groups and appends the node entries to its top-level outbound list.

use vstd::prelude::*;
use crate::json::{Json, JVal, jval, arr_view, obj_view, lookup, set_field, obj_get};
use crate::json::{obj_find, lemma_jval_composite, lemma_lookup_of_fields};
use crate::json::{lemma_set_field_first_match, lemma_set_field_absent};

verus! {

/// The one failure the merge itself can raise: the nodes document is
/// neither an object with an `outbounds` array nor itself an array.
#[derive(Debug, Clone, Copy, PartialEq, Eq, Structural)]
pub enum MergeError {
    NoNodeList,
}

/// The tags of the outbound groups that receive the node-tag list:
/// the "select a proxy" group and the "auto-select a proxy" group.
pub open spec fn is_selector_tag(t: Seq<char>) -> bool {
    t == "🚀 节点选择"@ || t == "🎈 自动选择"@
}

/// Whether a tag is in the selector set.
pub fn tag_is_selector(t: &String) -> (r: bool)
    ensures
        r == is_selector_tag(t@),
{
    let pick: String = "🚀 节点选择".to_owned();
    let auto: String = "🎈 自动选择".to_owned();
    *t == pick || *t == auto
}

/// The node entries a nodes document yields: the `outbounds` array of
/// an object, or the document itself when it is an array.
pub open spec fn extract_entries_spec(n: JVal) -> Option<Seq<JVal>> {
    match n {
        JVal::Obj(fs) => match lookup(fs, "outbounds"@) {
            Some(JVal::Arr(a)) => Some(a),
            _ => None,
        },
        JVal::Arr(a) => Some(a),
        _ => None,
    }
}

/// The tag of a node entry: its string `tag` field, if it has one.
pub open spec fn entry_tag(e: JVal) -> Option<Seq<char>> {
    match obj_get(e, "tag"@) {
        Some(JVal::Str(s)) => Some(s),
        _ => None,
    }
}

/// The node-tag list: the tags of the entries that have one, in entry
/// order, duplicates kept.
pub open spec fn tag_list(entries: Seq<JVal>) -> Seq<Seq<char>>
    decreases entries.len(),
{
    if entries.len() == 0 {
        Seq::empty()
    } else {
        let init = tag_list(entries.drop_last());
        match entry_tag(entries.last()) {
            Some(t) => init.push(t),
            None => init,
        }
    }
}

/// The tag a group is matched by: its string `tag` field, or the empty
/// string when the field is absent or not a string.
pub open spec fn group_tag(g: JVal) -> Seq<char> {
    match obj_get(g, "tag"@) {
        Some(JVal::Str(s)) => s,
        _ => ""@,
    }
}

/// A tag list as a JSON array of strings.
pub open spec fn tags_to_jvals(tags: Seq<Seq<char>>) -> Seq<JVal> {
    tags.map_values(|t: Seq<char>| JVal::Str(t))
}

/// One group after the selective splice: a selector group with its own
/// `outbounds` array gets the node-tag list appended to that array; any
/// other group is left exactly as it is.
pub open spec fn splice_spec(g: JVal, tags: Seq<Seq<char>>) -> JVal {
    if is_selector_tag(group_tag(g)) {
        match g {
            JVal::Obj(fs) => match lookup(fs, "outbounds"@) {
                Some(JVal::Arr(a)) => JVal::Obj(
                    set_field(fs, "outbounds"@, JVal::Arr(a + tags_to_jvals(tags))),
                ),
                _ => g,
            },
            _ => g,
        }
    } else {
        g
    }
}

/// The views of a list of strings.
pub open spec fn str_views(ss: Seq<String>) -> Seq<Seq<char>> {
    ss.map_values(|s: String| s@)
}

/// Every group after the selective splice, in order.
pub open spec fn splice_all(groups: Seq<JVal>, tags: Seq<Seq<char>>) -> Seq<JVal> {
    groups.map_values(|g: JVal| splice_spec(g, tags))
}

/// The merge of a template document with a nodes document: the node
/// tags are appended to every selector group of `t.outbounds` that has
/// its own `outbounds` array, the node entries are appended to
/// `t.outbounds` itself (the field is created when it is absent or not
/// an array), and every other field of `t` is kept as it is. `None` is
/// the shape error: the nodes document yields no node list.
pub open spec fn merge_spec(t: JVal, n: JVal) -> Option<JVal>
    recommends
        t is Obj,
{
    match extract_entries_spec(n) {
        None => None,
        Some(entries) => {
            let tags = tag_list(entries);
            let tf = match t {
                JVal::Obj(fs) => fs,
                _ => Seq::empty(),
            };
            let merged_out = match lookup(tf, "outbounds"@) {
                Some(JVal::Arr(groups)) => JVal::Arr(splice_all(groups, tags) + entries),
                _ => JVal::Arr(entries),
            };
            Some(JVal::Obj(set_field(tf, "outbounds"@, merged_out)))
        },
    }
}

/// The string `tag` field of an entry or group, if it has one.
pub fn get_tag(e: &Json) -> (r: Option<&String>)
    ensures
        match r {
            Some(s) => entry_tag(jval(*e)) == Some(s@),
            None => entry_tag(jval(*e)) is None,
        },
{
    match e {
        Json::Obj(fields) => {
            proof {
                lemma_jval_composite(*e);
            }
            let key: String = "tag".to_owned();
            match obj_find(fields, &key) {
                Some(j) => {
                    proof {
                        lemma_lookup_of_fields(fields@, "tag"@);
                    }
                    match &fields[j].1 {
                        Json::Str(s) => Some(s),
                        _ => None,
                    }
                },
                None => {
                    proof {
                        lemma_lookup_of_fields(fields@, "tag"@);
                    }
                    None
                },
            }
        },
        _ => None,
    }
}

/// Whether a group's tag is in the selector set; a group without a
/// string `tag` field counts as tagged with the empty string.
pub fn group_is_selector(g: &Json) -> (r: bool)
    ensures
        r == is_selector_tag(group_tag(jval(*g))),
{
    match get_tag(g) {
        Some(s) => tag_is_selector(s),
        None => {
            proof {
                reveal_strlit("");
                reveal_strlit("🚀 节点选择");
                reveal_strlit("🎈 自动选择");
                assert(""@.len() == 0);
                assert("🚀 节点选择"@.len() == 6);
                assert("🎈 自动选择"@.len() == 6);
                assert(!is_selector_tag(""@));
            }
            false
        },
    }
}

/// The node entries of a nodes document: the `outbounds` array of an
/// object, or the document itself when it is an array; anything else
/// is the shape error.
pub fn extract_node_entries(nodes: Json) -> (r: Result<Vec<Json>, MergeError>)
    ensures
        r is Ok <==> extract_entries_spec(jval(nodes)) is Some,
        r matches Ok(e) ==> arr_view(e@) == extract_entries_spec(jval(nodes)).unwrap(),
        r matches Err(err) ==> err == MergeError::NoNodeList,
{
    let ghost n0 = nodes;
    match nodes {
        Json::Obj(fields) => {
            proof {
                lemma_jval_composite(n0);
            }
            let key: String = "outbounds".to_owned();
            match obj_find(&fields, &key) {
                Some(j) => {
                    proof {
                        lemma_lookup_of_fields(fields@, "outbounds"@);
                    }
                    let mut fields = fields;
                    let (_, v) = fields.remove(j);
                    let ghost v0 = v;
                    match v {
                        Json::Arr(a) => {
                            proof {
                                lemma_jval_composite(v0);
                            }
                            Ok(a)
                        },
                        _ => Err(MergeError::NoNodeList),
                    }
                },
                None => {
                    proof {
                        lemma_lookup_of_fields(fields@, "outbounds"@);
                    }
                    Err(MergeError::NoNodeList)
                },
            }
        },
        Json::Arr(a) => {
            proof {
                lemma_jval_composite(n0);
            }
            Ok(a)
        },
        _ => Err(MergeError::NoNodeList),
    }
}

/// The node-tag list of a list of node entries.
#[verifier::loop_isolation(false)]
pub fn node_tags(entries: &Vec<Json>) -> (r: Vec<String>)
    ensures
        str_views(r@) == tag_list(arr_view(entries@)),
{
    let mut tags: Vec<String> = Vec::new();
    let n = entries.len();
    let mut i: usize = 0;
    while i < n
        invariant
            0 <= i <= n,
            str_views(tags@) == tag_list(arr_view(entries@).take(i as int)),
        decreases n - i,
    {
        proof {
            assert(arr_view(entries@).take(i + 1).drop_last() =~= arr_view(entries@).take(
                i as int,
            ));
        }
        match get_tag(&entries[i]) {
            Some(s) => {
                let ghost old_tags = tags@;
                let t = s.clone();
                tags.push(t);
                proof {
                    assert(str_views(tags@) =~= str_views(old_tags).push(s@));
                }
            },
            None => {},
        }
        i = i + 1;
    }
    proof {
        assert(arr_view(entries@).take(n as int) =~= arr_view(entries@));
    }
    tags
}

/// Applies the selective splice to one template group: a selector
/// group with its own `outbounds` array gets the node-tag list
/// appended to that array; any other group comes back unchanged.
#[verifier::loop_isolation(false)]
#[verifier::rlimit(60)]
pub fn splice_group(g: Json, tags: &Vec<String>) -> (r: Json)
    ensures
        jval(r) == splice_spec(jval(g), str_views(tags@)),
{
    let ghost g0 = g;
    let ghost stags = str_views(tags@);
    if !group_is_selector(&g) {
        return g;
    }
    match g {
        Json::Obj(mut fields) => {
            proof {
                lemma_jval_composite(g0);
            }
            let ghost fs0 = obj_view(fields@);
            let key: String = "outbounds".to_owned();
            match obj_find(&fields, &key) {
                Some(j) => {
                    proof {
                        lemma_lookup_of_fields(fields@, "outbounds"@);
                    }
                    let (k, v) = fields.remove(j);
                    let ghost v0 = v;
                    match v {
                        Json::Arr(mut a) => {
                            proof {
                                lemma_jval_composite(v0);
                            }
                            let ghost a0 = arr_view(a@);
                            let m = tags.len();
                            let mut ti: usize = 0;
                            while ti < m
                                invariant
                                    0 <= ti <= m,
                                    arr_view(a@) == a0 + tags_to_jvals(stags.take(ti as int)),
                                decreases m - ti,
                            {
                                let ghost olda = a@;
                                let t = tags[ti].clone();
                                a.push(Json::Str(t));
                                proof {
                                    let rhs = a0 + tags_to_jvals(stags.take(ti + 1));
                                    assert(stags[ti as int] == tags@[ti as int]@);
                                    assert(arr_view(olda) == a0 + tags_to_jvals(
                                        stags.take(ti as int),
                                    ));
                                    assert forall|p: int| 0 <= p < a@.len() implies arr_view(
                                        a@,
                                    )[p] == rhs[p] by {
                                        if p < olda.len() {
                                            assert(a@[p] == olda[p]);
                                            assert(arr_view(a@)[p] == jval(olda[p]));
                                            assert(arr_view(olda)[p] == jval(olda[p]));
                                            if p >= a0.len() {
                                                assert(tags_to_jvals(stags.take(ti as int))[p
                                                    - a0.len()] == JVal::Str(
                                                    stags.take(ti as int)[p - a0.len()],
                                                ));
                                                assert(tags_to_jvals(stags.take(ti + 1))[p
                                                    - a0.len()] == JVal::Str(
                                                    stags.take(ti + 1)[p - a0.len()],
                                                ));
                                            }
                                        } else {
                                            assert(p == olda.len());
                                            assert(a@[p] == Json::Str(t));
                                            assert(arr_view(a@)[p] == jval(Json::Str(t)));
                                            assert(tags_to_jvals(stags.take(ti + 1))[ti as int]
                                                == JVal::Str(stags.take(ti + 1)[ti as int]));
                                            assert(rhs[p] == JVal::Str(stags[ti as int]));
                                        }
                                    }
                                    assert(arr_view(a@) =~= rhs);
                                }
                                ti = ti + 1;
                            }
                            proof {
                                assert(stags.take(m as int) =~= stags);
                            }
                            fields.insert(j, (k, Json::Arr(a)));
                            proof {
                                lemma_jval_composite(Json::Arr(a));
                                lemma_set_field_first_match(
                                    fs0,
                                    "outbounds"@,
                                    JVal::Arr(a0 + tags_to_jvals(stags)),
                                    j as int,
                                );
                                assert(obj_view(fields@) =~= set_field(
                                    fs0,
                                    "outbounds"@,
                                    JVal::Arr(a0 + tags_to_jvals(stags)),
                                ));
                            }
                            let out = Json::Obj(fields);
                            proof {
                                lemma_jval_composite(out);
                            }
                            out
                        },
                        other => {
                            fields.insert(j, (k, other));
                            proof {
                                assert(obj_view(fields@) =~= fs0);
                            }
                            let out = Json::Obj(fields);
                            proof {
                                lemma_jval_composite(out);
                            }
                            out
                        },
                    }
                },
                None => {
                    proof {
                        lemma_lookup_of_fields(fields@, "outbounds"@);
                    }
                    Json::Obj(fields)
                },
            }
        },
        other => other,
    }
}

/// Merges a nodes document into a template document.
///
/// The node tags are appended to every selector group of the
/// template's `outbounds` array that has its own `outbounds` array;
/// the node entries are appended to the template's `outbounds` array
/// itself, which is created afresh when it is absent or not an array;
/// every other field of the template is left untouched. Fails exactly
/// when the nodes document yields no node list.
#[verifier::loop_isolation(false)]
#[verifier::rlimit(60)]
pub fn merge(template: Json, nodes: Json) -> (r: Result<Json, MergeError>)
    requires
        jval(template) is Obj,
    ensures
        r is Ok <==> merge_spec(jval(template), jval(nodes)) is Some,
        r matches Ok(m) ==> jval(m) == merge_spec(jval(template), jval(nodes)).unwrap(),
        r matches Err(e) ==> e == MergeError::NoNodeList,
{
    let ghost t0 = template;
    let entries = match extract_node_entries(nodes) {
        Ok(e) => e,
        Err(e) => {
            return Err(e);
        },
    };
    let ghost entries_spec = arr_view(entries@);
    let tags = node_tags(&entries);
    let ghost stags = str_views(tags@);
    match template {
        Json::Obj(mut fields) => {
            proof {
                lemma_jval_composite(t0);
            }
            let ghost fs0 = obj_view(fields@);
            let key: String = "outbounds".to_owned();
            match obj_find(&fields, &key) {
                Some(j) => {
                    proof {
                        lemma_lookup_of_fields(fields@, "outbounds"@);
                    }
                    let (k, v) = fields.remove(j);
                    let ghost v0 = v;
                    match v {
                        Json::Arr(mut groups) => {
                            proof {
                                lemma_jval_composite(v0);
                            }
                            let ghost groups0 = arr_view(groups@);
                            let glen = groups.len();
                            let mut gi: usize = 0;
                            while gi < glen
                                invariant
                                    0 <= gi <= glen,
                                    groups@.len() == glen,
                                    forall|p: int|
                                        0 <= p < gi ==> arr_view(groups@)[p] == splice_spec(
                                            groups0[p],
                                            stags,
                                        ),
                                    forall|p: int|
                                        gi <= p < glen ==> arr_view(groups@)[p] == groups0[p],
                                decreases glen - gi,
                            {
                                let ghost before = groups@;
                                let g = groups.remove(gi);
                                let g2 = splice_group(g, &tags);
                                groups.insert(gi, g2);
                                proof {
                                    assert(groups@ =~= before.update(gi as int, g2));
                                    assert forall|p: int| 0 <= p < glen implies #[trigger] arr_view(
                                        groups@,
                                    )[p] == (if p == gi {
                                        splice_spec(groups0[p], stags)
                                    } else {
                                        arr_view(before)[p]
                                    }) by {
                                        assert(arr_view(groups@)[p] == jval(groups@[p]));
                                        if p == gi {
                                            assert(groups@[p] == g2);
                                            assert(jval(g) == arr_view(before)[p]);
                                        } else {
                                            assert(groups@[p] == before[p]);
                                            assert(arr_view(before)[p] == jval(before[p]));
                                        }
                                    }
                                }
                                gi = gi + 1;
                            }
                            let ghost spliced = groups@;
                            let ghost rest0 = entries@;
                            let mut rest = entries;
                            groups.append(&mut rest);
                            proof {
                                assert forall|p: int| 0 <= p < groups@.len() implies #[trigger] arr_view(
                                    groups@,
                                )[p] == (splice_all(groups0, stags) + entries_spec)[p] by {
                                    assert(arr_view(groups@)[p] == jval(groups@[p]));
                                    if p < glen {
                                        assert(groups@[p] == spliced[p]);
                                        assert(arr_view(spliced)[p] == jval(spliced[p]));
                                        assert(splice_all(groups0, stags)[p] == splice_spec(
                                            groups0[p],
                                            stags,
                                        ));
                                    } else {
                                        assert(groups@[p] == rest0[p - glen]);
                                        assert(entries_spec[p - glen] == jval(rest0[p - glen]));
                                    }
                                }
                                assert(arr_view(groups@) =~= splice_all(groups0, stags)
                                    + entries_spec);
                            }
                            let packed = Json::Arr(groups);
                            proof {
                                lemma_jval_composite(packed);
                            }
                            fields.insert(j, (k, packed));
                            proof {
                                lemma_set_field_first_match(
                                    fs0,
                                    "outbounds"@,
                                    JVal::Arr(splice_all(groups0, stags) + entries_spec),
                                    j as int,
                                );
                                assert(obj_view(fields@) =~= set_field(
                                    fs0,
                                    "outbounds"@,
                                    JVal::Arr(splice_all(groups0, stags) + entries_spec),
                                ));
                            }
                            let out = Json::Obj(fields);
                            proof {
                                lemma_jval_composite(out);
                            }
                            Ok(out)
                        },
                        _ => {
                            let packed = Json::Arr(entries);
                            proof {
                                lemma_jval_composite(packed);
                            }
                            fields.insert(j, (k, packed));
                            proof {
                                lemma_set_field_first_match(
                                    fs0,
                                    "outbounds"@,
                                    JVal::Arr(entries_spec),
                                    j as int,
                                );
                                assert(obj_view(fields@) =~= set_field(
                                    fs0,
                                    "outbounds"@,
                                    JVal::Arr(entries_spec),
                                ));
                            }
                            let out = Json::Obj(fields);
                            proof {
                                lemma_jval_composite(out);
                            }
                            Ok(out)
                        },
                    }
                },
                None => {
                    proof {
                        lemma_lookup_of_fields(fields@, "outbounds"@);
                        lemma_set_field_absent(fs0, "outbounds"@, JVal::Arr(entries_spec));
                    }
                    let packed = Json::Arr(entries);
                    proof {
                        lemma_jval_composite(packed);
                    }
                    fields.push((key, packed));
                    proof {
                        assert(obj_view(fields@) =~= fs0.push(("outbounds"@, JVal::Arr(
                            entries_spec,
                        ))));
                    }
                    let out = Json::Obj(fields);
                    proof {
                        lemma_jval_composite(out);
                    }
                    Ok(out)
                },
            }
        },
        _ => {
            proof {
                assert(false);
            }
            Err(MergeError::NoNodeList)
        },
    }
}

/// Why one fetch failed: the request did not come back successfully,
/// or its body was not valid JSON.
#[derive(Debug, Clone, Copy, PartialEq, Eq, Structural)]
pub enum FetchError {
    Transport,
    Decode,
}

/// The failure of the whole operation: one of the two fetches failed,
/// or the nodes document yielded no node list.
#[derive(Debug, Clone, Copy, PartialEq, Eq, Structural)]
pub enum MergeFailure {
    TemplateFetch(FetchError),
    NodesFetch(FetchError),
    NoNodeList,
}

/// Completes the operation from the two fetch outcomes: the merge
/// runs only when both documents arrived; either fetch's failure is
/// final — it names the fetch that failed and why, and no partial or
/// merged result is produced.
pub fn merge_fetched(template: Result<Json, FetchError>, nodes: Result<Json, FetchError>) -> (r:
    Result<Json, MergeFailure>)
    requires
        template matches Ok(t) ==> jval(t) is Obj,
    ensures
        template matches Err(e) ==> r == Err::<Json, MergeFailure>(
            MergeFailure::TemplateFetch(e),
        ),
        template is Ok ==> (nodes matches Err(e) ==> r == Err::<Json, MergeFailure>(
            MergeFailure::NodesFetch(e),
        )),
        template matches Ok(t) ==> (nodes matches Ok(n) ==> {
            &&& r is Ok <==> merge_spec(jval(t), jval(n)) is Some
            &&& (r matches Ok(m) ==> jval(m) == merge_spec(jval(t), jval(n)).unwrap())
            &&& (r is Err ==> r == Err::<Json, MergeFailure>(MergeFailure::NoNodeList))
        }),
{
    let t = match template {
        Ok(t) => t,
        Err(e) => {
            return Err(MergeFailure::TemplateFetch(e));
        },
    };
    let n = match nodes {
        Ok(n) => n,
        Err(e) => {
            return Err(MergeFailure::NodesFetch(e));
        },
    };
    match merge(t, n) {
        Ok(m) => Ok(m),
        Err(MergeError::NoNodeList) => Err(MergeFailure::NoNodeList),
    }
}

} // verus!
