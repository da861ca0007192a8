//! The project file tree: folders are listed lazily, and a folder's entries
//! are put in place when it is expanded.
use vstd::prelude::*;
use vstd::string::*;

verus! {

broadcast use {vstd::string::group_string_axioms, vstd::std_specs::vec::group_vec_axioms};

/// An entry of the file tree: its id (the file's path), its label (the file
/// name), whether it is shown expanded, and its loaded children.
#[derive(Debug)]
pub struct FileTreeItem {
    pub id: String,
    pub label: String,
    pub expanded: bool,
    pub children: Vec<FileTreeItem>,
}

/// A `FileTreeItem` as plain values.
pub struct TreeView {
    pub id: Seq<char>,
    pub label: Seq<char>,
    pub expanded: bool,
    pub children: Seq<TreeView>,
}

/// The plain values of an item and of all items below it.
pub open spec fn tree_view(t: FileTreeItem) -> TreeView
    decreases t, 0nat,
{
    TreeView {
        id: t.id@,
        label: t.label@,
        expanded: t.expanded,
        children: trees_view(t.children@),
    }
}

/// The plain values of a sequence of items.
pub open spec fn trees_view(s: Seq<FileTreeItem>) -> Seq<TreeView>
    decreases s, 1nat,
{
    if s.len() == 0 {
        Seq::empty()
    } else {
        trees_view(s.drop_last()).push(tree_view(s.last()))
    }
}

/// The items after the first item with id `target` (in pre-order: an item
/// before its children, and those before its later siblings) is replaced by
/// an expanded item with the same label and the given children; `None` where
/// no item has that id.
pub open spec fn tree_with_loaded(items: Seq<TreeView>, target: Seq<char>, kids: Seq<TreeView>) -> Option<
    Seq<TreeView>,
>
    decreases items,
{
    if items.len() == 0 {
        None
    } else {
        let first = items[0];
        if first.id == target {
            Some(
                seq![TreeView { id: target, label: first.label, expanded: true, children: kids }]
                    + items.drop_first(),
            )
        } else {
            match tree_with_loaded(first.children, target, kids) {
                Some(cs) => Some(seq![TreeView { children: cs, ..first }] + items.drop_first()),
                None => match tree_with_loaded(items.drop_first(), target, kids) {
                    Some(rest) => Some(seq![first] + rest),
                    None => None,
                },
            }
        }
    }
}

/// `trees_view` item by item.
pub proof fn lemma_trees_view_index(s: Seq<FileTreeItem>)
    ensures
        trees_view(s).len() == s.len(),
        forall|j: int| 0 <= j < s.len() ==> #[trigger] trees_view(s)[j] == tree_view(s[j]),
    decreases s.len(),
{
    if s.len() > 0 {
        lemma_trees_view_index(s.drop_last());
    }
}

/// Two item sequences with the same items, as plain values, have the same view.
pub proof fn lemma_trees_view_ext(s: Seq<FileTreeItem>, t: Seq<TreeView>)
    requires
        s.len() == t.len(),
        forall|j: int| 0 <= j < s.len() ==> #[trigger] tree_view(s[j]) == t[j],
    ensures
        trees_view(s) == t,
{
    lemma_trees_view_index(s);
    assert(trees_view(s) =~= t);
}

/// Skipping `i` items none of which is, or holds, the target.
pub proof fn lemma_loaded_skip(s: Seq<TreeView>, target: Seq<char>, kids: Seq<TreeView>, i: int)
    requires
        0 <= i < s.len(),
        s[i].id != target,
        tree_with_loaded(s[i].children, target, kids) is None,
    ensures
        tree_with_loaded(s.skip(i), target, kids) == match tree_with_loaded(s.skip(i + 1), target, kids) {
            Some(r) => Some(seq![s[i]] + r),
            None => None,
        },
{
    assert(s.skip(i)[0] == s[i]);
    assert(s.skip(i).drop_first() =~= s.skip(i + 1));
}

/// A deep copy of an item.
pub fn clone_tree(t: &FileTreeItem) -> (r: FileTreeItem)
    ensures
        tree_view(r) == tree_view(*t),
    decreases *t, 0nat,
{
    FileTreeItem {
        id: t.id.clone(),
        label: t.label.clone(),
        expanded: t.expanded,
        children: clone_trees(&t.children),
    }
}

/// A deep copy of a sequence of items.
pub fn clone_trees(v: &Vec<FileTreeItem>) -> (r: Vec<FileTreeItem>)
    ensures
        trees_view(r@) == trees_view(v@),
    decreases *v, 1nat,
{
    let mut out: Vec<FileTreeItem> = Vec::new();
    let mut i: usize = 0;
    while i < v.len()
        invariant
            0 <= i <= v.len(),
            out.len() == i,
            forall|j: int| 0 <= j < i ==> #[trigger] tree_view(out@[j]) == tree_view(v@[j]),
        decreases v.len() - i,
    {
        assert(decreases_to!(*v => v@[i as int]));
        let c = clone_tree(&v[i]);
        out.push(c);
        i = i + 1;
    }
    proof {
        lemma_trees_view_index(v@);
        lemma_trees_view_ext(out@, trees_view(v@));
    }
    out
}

/// Puts the loaded entries of the folder `target_id` in place: the first item
/// with that id (in pre-order) becomes an expanded item with the same label
/// and those children. Returns whether the folder was found; if not, the tree
/// is unchanged.
pub fn update_tree_item_in_vec(items: &mut Vec<FileTreeItem>, target_id: &str, new_children: &Vec<FileTreeItem>) -> (found: bool)
    ensures
        match tree_with_loaded(trees_view(old(items)@), target_id@, trees_view(new_children@)) {
            Some(t) => found && trees_view(final(items)@) == t,
            None => !found && trees_view(final(items)@) == trees_view(old(items)@),
        },
    decreases *old(items),
{
    let ghost v0 = *old(items);
    let ghost s0 = old(items)@;
    let ghost sv = trees_view(s0);
    let ghost kids = trees_view(new_children@);
    proof {
        lemma_trees_view_index(s0);
        assert(sv.skip(0) =~= sv);
        assert(sv.take(0) =~= Seq::<TreeView>::empty());
    }
    let mut i: usize = 0;
    while i < items.len()
        invariant
            0 <= i <= items.len(),
            items.len() == s0.len(),
            s0 == old(items)@,
            v0 == *old(items),
            sv == trees_view(s0),
            sv.len() == s0.len(),
            kids == trees_view(new_children@),
            forall|j: int| i <= j < s0.len() ==> #[trigger] items@[j] == s0[j],
            forall|j: int| 0 <= j < i ==> #[trigger] tree_view(items@[j]) == sv[j],
            forall|j: int| 0 <= j < s0.len() ==> #[trigger] sv[j] == tree_view(s0[j]),
            tree_with_loaded(sv, target_id@, kids) == match tree_with_loaded(sv.skip(i as int), target_id@, kids) {
                Some(r) => Some(sv.take(i as int) + r),
                None => None,
            },
        decreases items.len() - i,
    {
        if crate::text::str_equal(items[i].id.as_str(), target_id) {
            let ghost pre = items@;
            let old_item = items.remove(i);
            let fresh = FileTreeItem {
                id: String::from_str(target_id),
                label: old_item.label,
                expanded: true,
                children: clone_trees(new_children),
            };
            items.insert(i, fresh);
            proof {
                let nv = TreeView { id: target_id@, label: sv[i as int].label, expanded: true, children: kids };
                assert(sv[i as int].id == target_id@);
                assert(sv.skip(i as int)[0] == sv[i as int]);
                assert(sv.skip(i as int).drop_first() =~= sv.skip(i + 1));
                assert(tree_with_loaded(sv.skip(i as int), target_id@, kids) == Some(
                    seq![nv] + sv.skip(i as int).drop_first(),
                ));
                assert(items@ =~= pre.update(i as int, items@[i as int]));
                assert(tree_view(items@[i as int]) == nv);
                assert(sv.take(i as int) + (seq![nv] + sv.skip(i + 1)) =~= sv.update(i as int, nv));
                assert forall|j: int| 0 <= j < items@.len() implies #[trigger] tree_view(items@[j]) == sv.update(i as int, nv)[j] by {
                    if j > i as int {
                        assert(items@[j] == s0[j]);
                    }
                }
                lemma_trees_view_ext(items@, sv.update(i as int, nv));
                assert(tree_with_loaded(sv, target_id@, kids) == Some(sv.update(i as int, nv)));
            }
            return true;
        }
        let ghost pre = items@;
        let mut item = items.remove(i);
        proof {
            assert(item == s0[i as int]);
            assert(decreases_to!(v0 => v0[i as int]));
            assert(decreases_to!(s0[i as int] => s0[i as int].children));
            assert(decreases_to!(v0 => item.children));
        }
        let found = update_tree_item_in_vec(&mut item.children, target_id, new_children);
        items.insert(i, item);
        proof {
            assert(items@ =~= pre.update(i as int, items@[i as int]));
            assert(sv[i as int] == tree_view(s0[i as int]));
            assert(sv[i as int].children == trees_view(s0[i as int].children@));
            assert(sv[i as int].id != target_id@);
        }
        if found {
            proof {
                let cs = tree_with_loaded(sv[i as int].children, target_id@, kids)->0;
                let nv = TreeView { children: cs, ..sv[i as int] };
                assert(sv.skip(i as int)[0] == sv[i as int]);
                assert(sv.skip(i as int).drop_first() =~= sv.skip(i + 1));
                assert(tree_with_loaded(sv.skip(i as int), target_id@, kids) == Some(
                    seq![nv] + sv.skip(i as int).drop_first(),
                ));
                assert(tree_view(items@[i as int]) == nv);
                assert(sv.take(i as int) + (seq![nv] + sv.skip(i + 1)) =~= sv.update(i as int, nv));
                assert forall|j: int| 0 <= j < items@.len() implies #[trigger] tree_view(items@[j]) == sv.update(i as int, nv)[j] by {
                    if j > i as int {
                        assert(items@[j] == s0[j]);
                    }
                }
                lemma_trees_view_ext(items@, sv.update(i as int, nv));
            }
            return true;
        }
        proof {
            lemma_loaded_skip(sv, target_id@, kids, i as int);
            assert(sv.take(i as int) + seq![sv[i as int]] =~= sv.take(i + 1));
            assert(tree_view(items@[i as int]) == sv[i as int]);
        }
        i = i + 1;
    }
    proof {
        assert(sv.skip(s0.len() as int) =~= Seq::<TreeView>::empty());
        lemma_trees_view_ext(items@, sv);
    }
    false
}

/// An entry of a folder as listed from disk: its path, its file name, and
/// whether it is a folder.
#[derive(Debug)]
pub struct DirEntryInfo {
    pub id: String,
    pub label: String,
    pub is_dir: bool,
}

/// A `DirEntryInfo` as plain values.
pub struct EntryView {
    pub id: Seq<char>,
    pub label: Seq<char>,
    pub is_dir: bool,
}

impl View for DirEntryInfo {
    type V = EntryView;

    open spec fn view(&self) -> EntryView {
        EntryView { id: self.id@, label: self.label@, is_dir: self.is_dir }
    }
}

/// The plain values of folder entries.
pub open spec fn entry_views(v: Seq<DirEntryInfo>) -> Seq<EntryView> {
    v.map_values(|e: DirEntryInfo| e@)
}

/// `a < b` for strings: lexicographic by character (which is the byte order
/// of their UTF-8 encodings).
pub open spec fn label_lt(a: Seq<char>, b: Seq<char>) -> bool
    decreases a.len(),
{
    if a.len() == 0 {
        b.len() > 0
    } else if b.len() == 0 {
        false
    } else if a[0] != b[0] {
        (a[0] as u32) < (b[0] as u32)
    } else {
        label_lt(a.drop_first(), b.drop_first())
    }
}

/// Folders come before files; within each, labels in order.
pub open spec fn entry_before(a: EntryView, b: EntryView) -> bool {
    (a.is_dir && !b.is_dir) || (a.is_dir == b.is_dir && label_lt(a.label, b.label))
}

/// The first index at or after `i` whose entry `x` goes before, or the length.
pub open spec fn insert_pos(s: Seq<EntryView>, x: EntryView, i: int) -> int
    decreases s.len() - i,
{
    if i < 0 || i >= s.len() {
        s.len() as int
    } else if entry_before(x, s[i]) {
        i
    } else {
        insert_pos(s, x, i + 1)
    }
}

/// The entries sorted with folders first and then by label, keeping the order
/// of entries that compare equal (a stable sort, as `sort_by` is).
pub open spec fn sorted_entries(s: Seq<EntryView>) -> Seq<EntryView>
    decreases s.len(),
{
    if s.len() == 0 {
        Seq::empty()
    } else {
        let r = sorted_entries(s.drop_last());
        r.insert(insert_pos(r, s.last(), 0), s.last())
    }
}

/// No entry goes before an earlier one.
pub open spec fn is_sorted(s: Seq<EntryView>) -> bool {
    forall|i: int, j: int| 0 <= i < j < s.len() ==> !entry_before(#[trigger] s[j], #[trigger] s[i])
}

/// The unexpanded tree item for an entry.
pub open spec fn entry_item(e: EntryView) -> TreeView {
    TreeView { id: e.id, label: e.label, expanded: false, children: Seq::empty() }
}

/// No label goes before itself.
pub proof fn lemma_label_lt_irreflexive(a: Seq<char>)
    ensures
        !label_lt(a, a),
    decreases a.len(),
{
    if a.len() > 0 {
        lemma_label_lt_irreflexive(a.drop_first());
    }
}

/// Two labels are not each before the other.
pub proof fn lemma_label_lt_asymmetric(a: Seq<char>, b: Seq<char>)
    requires
        label_lt(a, b),
    ensures
        !label_lt(b, a),
    decreases a.len(),
{
    if a.len() > 0 && b.len() > 0 && a[0] == b[0] {
        lemma_label_lt_asymmetric(a.drop_first(), b.drop_first());
    }
}

/// Label order is transitive.
pub proof fn lemma_label_lt_transitive(a: Seq<char>, b: Seq<char>, c: Seq<char>)
    requires
        label_lt(a, b),
        label_lt(b, c),
    ensures
        label_lt(a, c),
    decreases a.len(),
{
    if a.len() > 0 && b.len() > 0 && c.len() > 0 && a[0] == b[0] && b[0] == c[0] {
        lemma_label_lt_transitive(a.drop_first(), b.drop_first(), c.drop_first());
    }
}

/// The entry order is a strict order.
pub proof fn lemma_entry_before_order(a: EntryView, b: EntryView, c: EntryView)
    ensures
        !entry_before(a, a),
        entry_before(a, b) ==> !entry_before(b, a),
        entry_before(a, b) && entry_before(b, c) ==> entry_before(a, c),
{
    lemma_label_lt_irreflexive(a.label);
    if entry_before(a, b) && a.is_dir == b.is_dir {
        lemma_label_lt_asymmetric(a.label, b.label);
    }
    if entry_before(a, b) && entry_before(b, c) && a.is_dir == b.is_dir && b.is_dir == c.is_dir {
        lemma_label_lt_transitive(a.label, b.label, c.label);
    }
}

/// What `insert_pos` finds: the first entry that `x` goes before.
pub proof fn lemma_insert_pos(s: Seq<EntryView>, x: EntryView, i: int)
    requires
        0 <= i <= s.len(),
    ensures
        i <= insert_pos(s, x, i) <= s.len(),
        forall|j: int| i <= j < insert_pos(s, x, i) ==> !entry_before(x, #[trigger] s[j]),
        insert_pos(s, x, i) < s.len() ==> entry_before(x, s[insert_pos(s, x, i)]),
    decreases s.len() - i,
{
    if i < s.len() && !entry_before(x, s[i]) {
        lemma_insert_pos(s, x, i + 1);
    }
}

/// Inserting at `insert_pos` keeps a sorted sequence sorted.
pub proof fn lemma_insert_sorted(s: Seq<EntryView>, x: EntryView)
    requires
        is_sorted(s),
    ensures
        is_sorted(s.insert(insert_pos(s, x, 0), x)),
{
    let p = insert_pos(s, x, 0);
    lemma_insert_pos(s, x, 0);
    let t = s.insert(p, x);
    assert forall|i: int, j: int| 0 <= i < j < t.len() implies !entry_before(#[trigger] t[j], #[trigger] t[i]) by {
        if j < p {
            assert(t[i] == s[i] && t[j] == s[j]);
        } else if j == p {
            assert(t[j] == x && t[i] == s[i]);
            lemma_entry_before_order(x, s[i], s[i]);
        } else if i < p {
            assert(t[j] == s[j - 1] && t[i] == s[i]);
        } else if i == p {
            assert(t[i] == x && t[j] == s[j - 1]);
            if entry_before(s[j - 1], x) {
                lemma_entry_before_order(s[j - 1], x, s[p]);
                lemma_entry_before_order(s[p], s[p], s[p]);
                if j - 1 > p {
                    assert(!entry_before(s[j - 1], s[p]));
                }
            }
        } else {
            assert(t[i] == s[i - 1] && t[j] == s[j - 1]);
        }
    }
}

/// The entries come out with folders first, then by label.
pub proof fn lemma_sorted_entries_sorted(s: Seq<EntryView>)
    ensures
        is_sorted(sorted_entries(s)),
        sorted_entries(s).len() == s.len(),
    decreases s.len(),
{
    if s.len() > 0 {
        lemma_sorted_entries_sorted(s.drop_last());
        let r = sorted_entries(s.drop_last());
        lemma_insert_sorted(r, s.last());
        lemma_insert_pos(r, s.last(), 0);
    }
}

pub(crate) fn label_less(a: &str, b: &str) -> (r: bool)
    ensures
        r == label_lt(a@, b@),
{
    let x = crate::text::chars_of(a);
    let y = crate::text::chars_of(b);
    let mut i: usize = 0;
    assert(x@.skip(0) =~= x@);
    assert(y@.skip(0) =~= y@);
    while i < x.len() && i < y.len() && x[i] == y[i]
        invariant
            x@ == a@,
            y@ == b@,
            0 <= i <= x.len(),
            i <= y.len(),
            label_lt(a@, b@) == label_lt(x@.skip(i as int), y@.skip(i as int)),
        decreases x.len() - i,
    {
        assert(x@.skip(i as int).drop_first() =~= x@.skip(i + 1));
        assert(y@.skip(i as int).drop_first() =~= y@.skip(i + 1));
        i = i + 1;
    }
    if i == x.len() {
        i < y.len()
    } else if i == y.len() {
        false
    } else {
        assert(x@.skip(i as int)[0] == x@[i as int]);
        assert(y@.skip(i as int)[0] == y@[i as int]);
        (x[i] as u32) < (y[i] as u32)
    }
}

fn goes_before(a: &DirEntryInfo, b: &DirEntryInfo) -> (r: bool)
    ensures
        r == entry_before(a@, b@),
{
    (a.is_dir && !b.is_dir) || (a.is_dir == b.is_dir && label_less(a.label.as_str(), b.label.as_str()))
}

fn copy_entry(e: &DirEntryInfo) -> (r: DirEntryInfo)
    ensures
        r@ == e@,
{
    DirEntryInfo { id: e.id.clone(), label: e.label.clone(), is_dir: e.is_dir }
}

/// The tree items for a folder's entries, unexpanded, in the order given.
pub fn file_items(entries: &Vec<DirEntryInfo>) -> (r: Vec<FileTreeItem>)
    ensures
        trees_view(r@) == entry_views(entries@).map_values(|e: EntryView| entry_item(e)),
{
    let mut out: Vec<FileTreeItem> = Vec::new();
    let mut i: usize = 0;
    while i < entries.len()
        invariant
            0 <= i <= entries.len(),
            out.len() == i,
            forall|j: int| 0 <= j < i ==> #[trigger] tree_view(out@[j]) == entry_item(entries@[j]@),
        decreases entries.len() - i,
    {
        let e = &entries[i];
        out.push(FileTreeItem { id: e.id.clone(), label: e.label.clone(), expanded: false, children: Vec::new() });
        proof {
            assert(trees_view(out@[i as int].children@) =~= Seq::<TreeView>::empty());
        }
        i = i + 1;
    }
    proof {
        lemma_trees_view_ext(out@, entry_views(entries@).map_values(|e: EntryView| entry_item(e)));
    }
    out
}

/// The tree items for a folder's entries, unexpanded, folders first and then
/// by label (entries that compare equal keep their order).
pub fn sorted_file_items(entries: &Vec<DirEntryInfo>) -> (r: Vec<FileTreeItem>)
    ensures
        trees_view(r@) == sorted_entries(entry_views(entries@)).map_values(|e: EntryView| entry_item(e)),
        is_sorted(sorted_entries(entry_views(entries@))),
{
    let ghost ev = entry_views(entries@);
    let mut sorted: Vec<DirEntryInfo> = Vec::new();
    let mut i: usize = 0;
    assert(ev.take(0) =~= Seq::<EntryView>::empty());
    while i < entries.len()
        invariant
            0 <= i <= entries.len(),
            ev == entry_views(entries@),
            entry_views(sorted@) == sorted_entries(ev.take(i as int)),
        decreases entries.len() - i,
    {
        let e = &entries[i];
        let ghost sv = entry_views(sorted@);
        let mut p: usize = 0;
        while p < sorted.len() && !goes_before(e, &sorted[p])
            invariant
                0 <= p <= sorted.len(),
                sv == entry_views(sorted@),
                insert_pos(sv, e@, 0) == insert_pos(sv, e@, p as int),
            decreases sorted.len() - p,
        {
            p = p + 1;
        }
        let c = copy_entry(e);
        sorted.insert(p, c);
        proof {
            assert(ev.take(i + 1).drop_last() =~= ev.take(i as int));
            assert(ev.take(i + 1).last() == e@);
            assert(entry_views(sorted@) =~= sv.insert(p as int, e@));
        }
        i = i + 1;
    }
    proof {
        assert(ev.take(entries.len() as int) =~= ev);
        lemma_sorted_entries_sorted(ev);
    }
    file_items(&sorted)
}

} // verus!
