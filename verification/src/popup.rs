//! The editor's completion popup: which completions it lists for the text
//! typed after the `#` that opened the session, and what picking one replaces.
use vstd::prelude::*;
use std::ops::Range;
use crate::intel::{starts_with, starts_with_str, RawCompletion};
use crate::text::{lowercase, slice_checked, text_slice, to_lowercase};

verus! {

/// The lowercased text typed after the `#` at byte `start`, up to byte
/// `cursor`; nothing while the cursor is not past the `#`.
pub open spec fn popup_prefix(content: Seq<char>, start: int, cursor: int) -> Seq<char> {
    if cursor > start + 1 {
        lowercase(text_slice(content, start + 1, cursor)->0)
    } else {
        Seq::empty()
    }
}

/// A popup entry: the label shown and the text a click inserts.
pub struct PopupItem {
    pub label: String,
    pub apply: String,
}

/// The text a click on a completion inserts: its apply text, or its label.
pub open spec fn popup_apply(c: RawCompletion) -> Seq<char> {
    match c.apply {
        Some(a) => a@,
        None => c.label@,
    }
}

/// The completions whose lowercased label starts with `prefix` (all of them
/// when it is empty), as label and inserted text, in order.
pub open spec fn popup_list(raws: Seq<RawCompletion>, prefix: Seq<char>) -> Seq<(Seq<char>, Seq<char>)>
    decreases raws.len(),
{
    if raws.len() == 0 {
        Seq::empty()
    } else {
        let rest = popup_list(raws.drop_last(), prefix);
        if prefix.len() == 0 || starts_with(lowercase(raws.last().label@), prefix) {
            rest.push((raws.last().label@, popup_apply(raws.last())))
        } else {
            rest
        }
    }
}

/// The plain values of popup entries.
pub open spec fn popup_views(v: Seq<PopupItem>) -> Seq<(Seq<char>, Seq<char>)> {
    v.map_values(|p: PopupItem| (p.label@, p.apply@))
}

/// The popup's entries for the session opened by the `#` at byte `start_idx`
/// with the cursor at byte `cursor`: the completions that match what was
/// typed after the `#`, each with the text a click inserts.
pub fn completion_popup(content: &str, start_idx: usize, cursor: usize, completions: &Vec<RawCompletion>) -> (r: Vec<PopupItem>)
    requires
        cursor > start_idx + 1 ==> text_slice(content@, start_idx + 1, cursor as int) is Some,
    ensures
        popup_views(r@) == popup_list(completions@, popup_prefix(content@, start_idx as int, cursor as int)),
{
    let prefix = if start_idx < cursor && cursor - start_idx > 1 {
        let typed = slice_checked(content, start_idx + 1, cursor).unwrap();
        to_lowercase(typed)
    } else {
        String::new()
    };
    let ghost want = popup_prefix(content@, start_idx as int, cursor as int);
    assert(prefix@ =~= want);
    let mut out: Vec<PopupItem> = Vec::new();
    let mut i: usize = 0;
    while i < completions.len()
        invariant
            0 <= i <= completions.len(),
            prefix@ == want,
            popup_views(out@) == popup_list(completions@.take(i as int), want),
        decreases completions.len() - i,
    {
        let c = &completions[i];
        assert(completions@.take(i + 1).drop_last() =~= completions@.take(i as int));
        assert(completions@.take(i + 1).last() == *c);
        let keep = prefix.as_str().is_empty() || {
            let low = to_lowercase(c.label.as_str());
            starts_with_str(low.as_str(), prefix.as_str())
        };
        if keep {
            let apply = match &c.apply {
                Some(a) => a.clone(),
                None => c.label.clone(),
            };
            let ghost before = popup_views(out@);
            out.push(PopupItem { label: c.label.clone(), apply });
            assert(popup_views(out@) =~= before.push((c.label@, popup_apply(*c))));
        }
        i = i + 1;
    }
    assert(completions@.take(completions.len() as int) =~= completions@);
    out
}

/// What picking a popup entry does: the bytes from just after the `#` at
/// `start_idx` to the cursor are replaced by the entry's text.
pub fn popup_replacement(start_idx: usize, cursor: usize, item: &PopupItem) -> (r: (Range<usize>, String))
    requires
        start_idx < usize::MAX,
    ensures
        r.0.start == start_idx + 1,
        r.0.end == cursor,
        r.1@ == item.apply@,
{
    ((start_idx + 1)..cursor, item.apply.clone())
}

/// Every popup entry matches what was typed: its lowercased label starts with
/// the prefix (any label does when nothing was typed).
pub proof fn lemma_popup_matches_prefix(raws: Seq<RawCompletion>, prefix: Seq<char>)
    ensures
        forall|i: int| 0 <= i < popup_list(raws, prefix).len() ==> prefix.len() == 0 || starts_with(
            lowercase(#[trigger] popup_list(raws, prefix)[i].0),
            prefix,
        ),
        popup_list(raws, prefix).len() <= raws.len(),
    decreases raws.len(),
{
    if raws.len() > 0 {
        lemma_popup_matches_prefix(raws.drop_last(), prefix);
        let rest = popup_list(raws.drop_last(), prefix);
        assert forall|i: int| 0 <= i < popup_list(raws, prefix).len() implies prefix.len() == 0 || starts_with(
            lowercase(#[trigger] popup_list(raws, prefix)[i].0),
            prefix,
        ) by {
            if i < rest.len() {
                assert(popup_list(raws, prefix)[i] == rest[i]);
            }
        }
    }
}

} // verus!
