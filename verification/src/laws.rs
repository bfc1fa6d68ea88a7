//! The laws of the merge, stated and proved over its model.

use vstd::prelude::*;
use crate::json::{JVal, lookup, set_field, obj_get};
use crate::json::{lemma_lookup_set_field, lemma_set_field_positions};
use crate::merge::{
    extract_entries_spec, tag_list, tags_to_jvals, splice_spec, splice_all, merge_spec,
    group_tag, is_selector_tag,
};

verus! {

/// Law: merging a valid nodes document into a template whose
/// `outbounds` is an array succeeds, and the merged `outbounds` array
/// is exactly the spliced original groups followed by the node
/// entries — so its length is the original length plus the number of
/// node entries, and each original group comes out as its spliced
/// form at its own position.
pub proof fn law_merge_outbounds_shape(t: JVal, n: JVal)
    requires
        t is Obj,
        obj_get(t, "outbounds"@) matches Some(ob) && ob is Arr,
        extract_entries_spec(n) is Some,
    ensures
        merge_spec(t, n) is Some,
        merge_spec(t, n).unwrap() is Obj,
        obj_get(merge_spec(t, n).unwrap(), "outbounds"@) matches Some(mo) && mo is Arr && {
            let groups = obj_get(t, "outbounds"@).unwrap()->Arr_0;
            let entries = extract_entries_spec(n).unwrap();
            let tags = tag_list(entries);
            &&& mo->Arr_0 == splice_all(groups, tags) + entries
            &&& mo->Arr_0.len() == groups.len() + entries.len()
            &&& forall|p: int|
                0 <= p < groups.len() ==> #[trigger] mo->Arr_0[p] == splice_spec(groups[p], tags)
            &&& forall|q: int|
                0 <= q < entries.len() ==> #[trigger] mo->Arr_0[groups.len() + q] == entries[q]
        },
{
    let fs = t->Obj_0;
    let groups = obj_get(t, "outbounds"@).unwrap()->Arr_0;
    let entries = extract_entries_spec(n).unwrap();
    let tags = tag_list(entries);
    let merged_out = JVal::Arr(splice_all(groups, tags) + entries);
    lemma_lookup_set_field(fs, "outbounds"@, merged_out);
    assert(obj_get(merge_spec(t, n).unwrap(), "outbounds"@) == Some(merged_out));
}

/// Law: every field of the template other than `outbounds` is carried
/// into the merged document unchanged — same value under its name,
/// and the same field at the same position.
pub proof fn law_merge_preserves_other_fields(t: JVal, n: JVal)
    requires
        t is Obj,
        merge_spec(t, n) is Some,
    ensures
        merge_spec(t, n).unwrap() is Obj,
        forall|k: Seq<char>|
            k != "outbounds"@ ==> #[trigger] obj_get(merge_spec(t, n).unwrap(), k) == obj_get(
                t,
                k,
            ),
        forall|p: int|
            0 <= p < t->Obj_0.len() && t->Obj_0[p].0 != "outbounds"@
                ==> #[trigger] merge_spec(t, n).unwrap()->Obj_0[p] == t->Obj_0[p],
{
    let fs = t->Obj_0;
    let entries = extract_entries_spec(n).unwrap();
    let tags = tag_list(entries);
    let merged_out = match lookup(fs, "outbounds"@) {
        Some(JVal::Arr(groups)) => JVal::Arr(splice_all(groups, tags) + entries),
        _ => JVal::Arr(entries),
    };
    lemma_lookup_set_field(fs, "outbounds"@, merged_out);
    lemma_set_field_positions(fs, "outbounds"@, merged_out);
}

/// Law: a group whose tag is in the selector set and which has its own
/// `outbounds` array receives exactly the node-tag list, in order: the
/// spliced array is the original followed by one string per tag.
pub proof fn law_selector_group_gains_tags(g: JVal, tags: Seq<Seq<char>>)
    requires
        is_selector_tag(group_tag(g)),
        obj_get(g, "outbounds"@) matches Some(ob) && ob is Arr,
    ensures
        obj_get(splice_spec(g, tags), "outbounds"@) matches Some(so) && so is Arr && {
            let a = obj_get(g, "outbounds"@).unwrap()->Arr_0;
            &&& so->Arr_0 == a + tags_to_jvals(tags)
            &&& so->Arr_0.len() == a.len() + tags.len()
            &&& forall|q: int|
                0 <= q < tags.len() ==> #[trigger] so->Arr_0[a.len() + q] == JVal::Str(tags[q])
        },
        forall|k: Seq<char>|
            k != "outbounds"@ ==> #[trigger] obj_get(splice_spec(g, tags), k) == obj_get(g, k),
{
    let fsg = g->Obj_0;
    let a = obj_get(g, "outbounds"@).unwrap()->Arr_0;
    let grown = JVal::Arr(a + tags_to_jvals(tags));
    lemma_lookup_set_field(fsg, "outbounds"@, grown);
    assert(obj_get(splice_spec(g, tags), "outbounds"@) == Some(grown));
}

/// Law: a group whose tag is in the selector set but which has no
/// `outbounds` array of its own is left exactly as it is.
pub proof fn law_selector_group_without_outbounds_unchanged(g: JVal, tags: Seq<Seq<char>>)
    requires
        is_selector_tag(group_tag(g)),
        !(obj_get(g, "outbounds"@) matches Some(ob) && ob is Arr),
    ensures
        splice_spec(g, tags) == g,
{
}

} // verus!
