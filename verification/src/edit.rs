//! Formatting edits on Typst source: bold/italic toggles, `#text(..)`
//! parameters, grids and `#set page(..)` rules.
//!
//! Each action produces a `TextEdit`: the byte range to replace, the text to
//! put there, and where the selection goes afterwards.
use vstd::prelude::*;
use std::ops::Range;
use vstd::string::*;
use crate::args::{
    arg_value, args_without, get_arg_value, join, join_strs, merge_args, merged_args, remove_arg,
    string_views, trim, trim_start,
};
use crate::syntax::{
    NodeKind, SyntaxTree, Located, typst_parse, syntax_contents, parse_markup, node_len, node_children,
    find_formatting_node, formatting_node, find_kind_child, first_kind_child, collect_text_calls,
    text_calls, located_view, located_views, all_fit, get_content_body_range, body_range,
    find_page_set_rule, page_rule, leaf_after, leaf_before, deepest_enclosing, child_offset,
};
use crate::text::{
    byte_len, char_is_whitespace, chars_of, string_of_range, decimal, is_white_space, lemma_slice_of_concat, lemma_slice_splits,
    slice_checked, text_slice, usize_to_string,
};

verus! {

broadcast use vstd::string::group_string_axioms;

/// A formatting action from the editor's toolbar.
///
/// `SetFontSize` holds the size in points as decimal text, as `{}` prints the
/// editor's `f64` size (`14.0` prints as `14`).
#[derive(Debug, Clone)]
pub enum EditAction {
    ToggleBold,
    ToggleItalic,
    SetFont(String),
    SetFontSize(String),
    SetTextColor(String),
    InsertGrid { rows: usize, cols: usize },
    SetPaper(String),
    SetFlipped(bool),
    SetColumns(usize),
    SetMargin(String),
}

/// A replacement of the bytes `range` of the source by `new_text`, and the
/// selection to set afterwards.
#[derive(Debug, PartialEq, Eq)]
pub struct TextEdit {
    pub range: Range<usize>,
    pub new_text: String,
    pub new_selection: Range<usize>,
}

/// A `TextEdit` as plain values.
pub struct PlannedEdit {
    pub start: usize,
    pub end: usize,
    pub text: Seq<char>,
    pub sel_start: usize,
    pub sel_end: usize,
}

impl Clone for TextEdit {
    fn clone(&self) -> (r: Self)
        ensures
            r.plan() == self.plan(),
    {
        TextEdit {
            range: self.range.start..self.range.end,
            new_text: self.new_text.clone(),
            new_selection: self.new_selection.start..self.new_selection.end,
        }
    }
}

impl TextEdit {
    pub open spec fn plan(&self) -> PlannedEdit {
        PlannedEdit {
            start: self.range.start,
            end: self.range.end,
            text: self.new_text@,
            sel_start: self.new_selection.start,
            sel_end: self.new_selection.end,
        }
    }
}

/// `Range::len` on `usize` bounds: `end - start`, or 0 when `end <= start`.
pub open spec fn range_len(start: usize, end: usize) -> usize {
    if end > start {
        (end - start) as usize
    } else {
        0
    }
}

/// Where a selection bound `x` lands when the bytes `[rs, re)` are replaced by
/// `repl` bytes: a bound at or after the replaced bytes shifts by the change in
/// length, one before them stays, and one strictly inside them moves to the
/// end of the replacement.
pub open spec fn moved_bound(rs: int, re: int, repl: int, x: int) -> int {
    if re <= x {
        x + repl - range_len(rs as usize, re as usize)
    } else if x <= rs {
        x
    } else {
        rs + repl
    }
}

/// The selection `[ss, se)` after replacing `[rs, re)` by `repl` bytes;
/// `None` where a moved bound does not fit in a `usize`.
pub open spec fn adjusted(rs: usize, re: usize, repl: usize, ss: usize, se: usize) -> Option<(usize, usize)> {
    let s = moved_bound(rs as int, re as int, repl as int, ss as int);
    let e = moved_bound(rs as int, re as int, repl as int, se as int);
    if s <= usize::MAX && e <= usize::MAX {
        Some((s as usize, e as usize))
    } else {
        None
    }
}

/// `moved_bound` in `usize`, or `None` where it does not fit.
fn move_bound(rs: usize, re: usize, repl: usize, x: usize) -> (r: Option<usize>)
    ensures
        r matches Some(v) ==> v == moved_bound(rs as int, re as int, repl as int, x as int),
        r is None ==> moved_bound(rs as int, re as int, repl as int, x as int) > usize::MAX,
{
    if re <= x {
        let rlen: usize = if re > rs {
            re - rs
        } else {
            0
        };
        let base = x - rlen;
        if base > usize::MAX - repl {
            None
        } else {
            Some(base + repl)
        }
    } else if x <= rs {
        Some(x)
    } else if rs > usize::MAX - repl {
        None
    } else {
        Some(rs + repl)
    }
}

/// `adjust_selection`, or `None` where a moved bound does not fit.
fn adjust_checked(replace_range: &Range<usize>, replacement_len: usize, selection: &Range<usize>) -> (r: Option<Range<usize>>)
    ensures
        r matches Some(x) ==> adjusted(
            replace_range.start,
            replace_range.end,
            replacement_len,
            selection.start,
            selection.end,
        ) == Some((x.start, x.end)),
        r is None ==> adjusted(
            replace_range.start,
            replace_range.end,
            replacement_len,
            selection.start,
            selection.end,
        ) is None,
{
    let rs = replace_range.start;
    let re = replace_range.end;
    match (move_bound(rs, re, replacement_len, selection.start), move_bound(rs, re, replacement_len, selection.end)) {
        (Some(s), Some(e)) => Some(s..e),
        _ => None,
    }
}

/// Moves a selection through a replacement of `replace_range` by
/// `replacement_len` bytes: a bound at or after the replaced range shifts by the
/// change in length, one before it stays, and one inside it moves to the end of
/// the replacement, so a selection stays a selection of the edited text.
pub fn adjust_selection(replace_range: Range<usize>, replacement_len: usize, selection: Range<usize>) -> (r: Range<usize>)
    requires
        adjusted(
            replace_range.start,
            replace_range.end,
            replacement_len,
            selection.start,
            selection.end,
        ) is Some,
    ensures
        adjusted(
            replace_range.start,
            replace_range.end,
            replacement_len,
            selection.start,
            selection.end,
        ) == Some((r.start, r.end)),
        selection.start <= selection.end ==> r.start <= r.end,
{
    proof {
        if selection.start <= selection.end {
            lemma_moved_bound_monotone(
                replace_range.start as int,
                replace_range.end as int,
                replacement_len as int,
                selection.start as int,
                selection.end as int,
            );
        }
    }
    match adjust_checked(&replace_range, replacement_len, &selection) {
        Some(r) => r,
        None => {
            assert(false);
            selection
        },
    }
}

/// Moving bounds through an edit keeps their order.
pub proof fn lemma_moved_bound_monotone(rs: int, re: int, repl: int, x: int, y: int)
    requires
        0 <= rs <= usize::MAX,
        0 <= re <= usize::MAX,
        0 <= repl,
        x <= y,
    ensures
        moved_bound(rs, re, repl, x) <= moved_bound(rs, re, repl, y),
{
}

/// A selection of the text before an edit, moved through the edit, is a
/// selection of the text after it: its bounds stay in order and within the
/// new length.
pub proof fn lemma_adjusted_selection_in_bounds(rs: usize, re: usize, repl: usize, ss: usize, se: usize, len: nat)
    requires
        rs <= re <= len,
        ss <= se <= len,
        len - (re - rs) + repl <= usize::MAX,
    ensures
        adjusted(rs, re, repl, ss, se) matches Some((s, e)) && s <= e && e <= len - (re - rs) + repl,
{
    lemma_moved_bound_monotone(rs as int, re as int, repl as int, ss as int, se as int);
}

/// The `1fr` column list of a grid with `cols` columns.
pub open spec fn fr_list(cols: nat) -> Seq<Seq<char>> {
    Seq::new(cols, |_i: int| "1fr"@)
}

/// The placeholder cell at row `r`, column `c` (both counted from 1).
pub open spec fn grid_cell(r: nat, c: nat) -> Seq<char> {
    "[Cell R"@ + decimal(r) + "C"@ + decimal(c) + "]"@
}

/// The placeholder cells of row `r`.
pub open spec fn row_cells(r: nat, cols: nat) -> Seq<Seq<char>> {
    Seq::new(cols, |i: int| grid_cell(r, (i + 1) as nat))
}

/// Row `r` of the grid's cells, on a line of its own.
pub open spec fn grid_row(r: nat, cols: nat) -> Seq<char> {
    "  "@ + join(row_cells(r, cols), ", "@) + ",\n"@
}

/// Rows 1 through `rows`.
pub open spec fn grid_rows(rows: nat, cols: nat) -> Seq<char>
    decreases rows,
{
    if rows == 0 {
        Seq::empty()
    } else {
        grid_rows((rows - 1) as nat, cols) + grid_row(rows, cols)
    }
}

/// The markup `InsertGrid` inserts.
pub open spec fn grid_markup(rows: nat, cols: nat) -> Seq<char> {
    "\n#grid(\n"@ + "  columns: ("@ + join(fr_list(cols), ", "@) + "),\n"@ + "  gutter: 1em,\n"@
        + grid_rows(rows, cols) + ")\n"@
}

/// The `grid` call `InsertGrid` inserts.
pub fn grid_markup_string(rows: usize, cols: usize) -> (g: String)
    ensures
        g@ == grid_markup(rows as nat, cols as nat),
{
    let mut g = String::from_str("\n#grid(\n");
    let mut frs: Vec<String> = Vec::new();
    let mut i: usize = 0;
    while i < cols
        invariant
            0 <= i <= cols,
            string_views(frs@) =~= fr_list(cols as nat).take(i as int),
        decreases cols - i,
    {
        let ghost before = frs@;
        frs.push(String::from_str("1fr"));
        assert(string_views(frs@) =~= string_views(before).push("1fr"@));
        i = i + 1;
    }
    assert(fr_list(cols as nat).take(cols as int) =~= fr_list(cols as nat));
    let col_frs = join_strs(&frs, ", ");
    g.append("  columns: (");
    g.append(col_frs.as_str());
    g.append("),\n");
    g.append("  gutter: 1em,\n");
    let ghost head = g@;
    let mut r: usize = 0;
    while r < rows
        invariant
            0 <= r <= rows,
            g@ == head + grid_rows(r as nat, cols as nat),
        decreases rows - r,
    {
        let row = r + 1;
        let mut cells: Vec<String> = Vec::new();
        let mut c: usize = 0;
        while c < cols
            invariant
                0 <= c <= cols,
                row == r + 1,
                string_views(cells@) =~= row_cells(row as nat, cols as nat).take(c as int),
            decreases cols - c,
        {
            let mut cell = String::from_str("[Cell R");
            let rs = usize_to_string(row);
            let cs = usize_to_string(c + 1);
            cell.append(rs.as_str());
            cell.append("C");
            cell.append(cs.as_str());
            cell.append("]");
            let ghost before = cells@;
            cells.push(cell);
            assert(string_views(cells@) =~= string_views(before).push(
                grid_cell(row as nat, (c + 1) as nat),
            ));
            c = c + 1;
        }
        assert(row_cells(row as nat, cols as nat).take(cols as int) =~= row_cells(
            row as nat,
            cols as nat,
        ));
        let line = join_strs(&cells, ", ");
        g.append("  ");
        g.append(line.as_str());
        g.append(",\n");
        assert(g@ =~= head + grid_rows(row as nat, cols as nat));
        r = r + 1;
    }
    g.append(")\n");
    g
}

/// The marker characters of bold (`*`) and italic (`_`) text.
pub open spec fn marker_of(kind: NodeKind) -> Seq<char> {
    if kind == NodeKind::Strong {
        "*"@
    } else {
        "_"@
    }
}

/// Where a selection bound `x` lands when the markers at `ns` and `ne - 1` are
/// removed: it stays before the opening marker, moves back one byte between
/// the markers, and two bytes after the closing one.
pub open spec fn unwrapped_bound(ns: int, ne: int, x: int) -> int {
    if x <= ns {
        x
    } else if x >= ne {
        x - 2
    } else {
        x - 1
    }
}

/// The selection `[a, b]` after the markers at `ns` and `ne - 1` are removed:
/// both bounds move back one byte, the width of the opening marker. A bound at
/// 0 cannot move back; there each bound moves as `unwrapped_bound` says.
pub open spec fn unwrapped_selection(ns: int, ne: int, a: int, b: int) -> (int, int) {
    if a >= 1 && b >= 1 {
        (a - 1, b - 1)
    } else {
        (unwrapped_bound(ns, ne, a), unwrapped_bound(ns, ne, b))
    }
}

/// What toggling `kind` on the bytes `[a, b]` does: when a node of that kind
/// encloses them (found from the leaf at `a`), its markers are removed and the
/// selection moves back with the opening marker (see `unwrapped_selection`); otherwise
/// the selected text is wrapped in markers and the selection moves forward one
/// byte. `None` where slicing or arithmetic would fail.
pub open spec fn toggle_plan(content: Seq<char>, a: usize, b: usize, kind: NodeKind) -> Option<PlannedEdit> {
    match formatting_node(typst_parse(content), a as int, b as int, kind) {
        Some((ns, ne)) => if ns + 1 <= usize::MAX && ne >= 1 {
            match text_slice(content, ns + 1, ne - 1) {
                Some(inner) => Some(
                    PlannedEdit {
                        start: ns as usize,
                        end: ne as usize,
                        text: inner,
                        sel_start: unwrapped_selection(ns, ne, a as int, b as int).0 as usize,
                        sel_end: unwrapped_selection(ns, ne, a as int, b as int).1 as usize,
                    },
                ),
                None => None,
            }
        } else {
            None
        },
        None => match text_slice(content, a as int, b as int) {
            Some(sel) => if a + 1 <= usize::MAX && b + 1 <= usize::MAX {
                Some(
                    PlannedEdit {
                        start: a,
                        end: b,
                        text: marker_of(kind) + sel + marker_of(kind),
                        sel_start: (a + 1) as usize,
                        sel_end: (b + 1) as usize,
                    },
                )
            } else {
                None
            },
            None => None,
        },
    }
}

/// The text a planned edit leaves: the text before its range, its new text
/// and the text after its range; `None` where the range is not a slice of the
/// text.
pub open spec fn spliced(c: Seq<char>, e: PlannedEdit) -> Option<Seq<char>> {
    match (text_slice(c, 0, e.start as int), text_slice(c, e.end as int, byte_len(c) as int)) {
        (Some(x), Some(y)) => Some(x + e.text + y),
        _ => None,
    }
}

/// The text with the bytes `[a, b)` put between two markers of `kind`.
pub open spec fn wrapped(content: Seq<char>, a: int, b: int, kind: NodeKind) -> Seq<char> {
    text_slice(content, 0, a)->0 + marker_of(kind) + text_slice(content, a, b)->0 + marker_of(kind)
        + text_slice(content, b, byte_len(content) as int)->0
}

/// A marker takes one byte.
proof fn lemma_marker_len(kind: NodeKind)
    ensures
        byte_len(marker_of(kind)) == 1,
{
    reveal_strlit("*");
    reveal_strlit("_");
    let m = marker_of(kind);
    assert(m.len() == 1);
    assert(m.drop_first() =~= Seq::<char>::empty());
    assert(vstd::utf8::encode_utf8(m.drop_first()) =~= Seq::<u8>::empty());
}

/// Toggling bold or italic on text that has neither and then toggling it again
/// on the selection the first toggle leaves gives back the text and the
/// selection, provided the parser reads the marked text as one node of that
/// kind spanning exactly the two markers.
pub proof fn lemma_toggle_round_trip(content: Seq<char>, a: usize, b: usize, kind: NodeKind)
    requires
        formatting_node(typst_parse(content), a as int, b as int, kind) is None,
        text_slice(content, a as int, b as int) is Some,
        b + 2 <= usize::MAX,
        formatting_node(typst_parse(wrapped(content, a as int, b as int, kind)), a + 1, b + 1, kind) == Some(
            (a as int, b + 2),
        ),
    ensures
        toggle_plan(content, a, b, kind) matches Some(e1) && e1.sel_start == a + 1 && e1.sel_end == b + 1
            && spliced(content, e1) == Some(wrapped(content, a as int, b as int, kind)),
        toggle_plan(wrapped(content, a as int, b as int, kind), (a + 1) as usize, (b + 1) as usize, kind) matches Some(e2)
            && spliced(wrapped(content, a as int, b as int, kind), e2) == Some(content) && e2.sel_start == a
            && e2.sel_end == b,
{
    let len = byte_len(content) as int;
    lemma_slice_splits(content, a as int, b as int);
    let p = text_slice(content, 0, a as int)->0;
    let sel = text_slice(content, a as int, b as int)->0;
    let q = text_slice(content, b as int, len)->0;
    let m = marker_of(kind);
    lemma_marker_len(kind);
    let c1 = wrapped(content, a as int, b as int, kind);
    // the first toggle wraps the selection
    let e1 = toggle_plan(content, a, b, kind)->0;
    lemma_slice_of_concat(p, sel, q);
    assert(spliced(content, e1) == Some(p + (m + sel + m) + q));
    assert(p + (m + sel + m) + q =~= c1);
    // the second toggle finds the node and unwraps it
    assert(c1 =~= (p + m) + sel + (m + q));
    crate::text::lemma_encode_concat(p, m);
    lemma_slice_of_concat(p + m, sel, m + q);
    assert(text_slice(c1, a + 1, b + 1) == Some(sel));
    let e2 = toggle_plan(c1, (a + 1) as usize, (b + 1) as usize, kind)->0;
    assert(e2.text == sel);
    assert(c1 =~= p + (m + sel + m) + q);
    crate::text::lemma_encode_concat(m + sel, m);
    crate::text::lemma_encode_concat(m, sel);
    lemma_slice_of_concat(p, m + sel + m, q);
    assert(spliced(c1, e2) == Some(p + sel + q));
}

/// `unwrapped_bound` in `usize`.
fn unwrap_bound(ns: usize, ne: usize, x: usize) -> (r: usize)
    requires
        ns + 2 <= ne,
    ensures
        r == unwrapped_bound(ns as int, ne as int, x as int),
{
    if x <= ns {
        x
    } else if x >= ne {
        x - 2
    } else {
        x - 1
    }
}

/// Toggles bold or italic on the bytes `[a, b]`; `None` where the edit
/// cannot be made (slicing or arithmetic would fail there).
pub fn toggle_wrapper_ast(content: &str, a: usize, b: usize, kind: NodeKind) -> (r: Option<TextEdit>)
    ensures
        r matches Some(e) ==> toggle_plan(content@, a, b, kind) == Some(e.plan()),
        r is None ==> toggle_plan(content@, a, b, kind) is None,
{
    let tree = parse_markup(content);
    match find_formatting_node(&tree, a, b, kind) {
        Some((ns, ne)) => {
            if ns == usize::MAX || ne == 0 {
                return None;
            }
            match slice_checked(content, ns + 1, ne - 1) {
                Some(inner) => Some(
                    TextEdit {
                        range: ns..ne,
                        new_text: String::from_str(inner),
                        new_selection: if a >= 1 && b >= 1 {
                            (a - 1)..(b - 1)
                        } else {
                            unwrap_bound(ns, ne, a)..unwrap_bound(ns, ne, b)
                        },
                    },
                ),
                None => None,
            }
        },
        None => {
            let marker = if kind == NodeKind::Strong {
                "*"
            } else {
                "_"
            };
            match slice_checked(content, a, b) {
                Some(sel) => {
                    if a == usize::MAX || b == usize::MAX {
                        return None;
                    }
                    let mut t = String::from_str(marker);
                    t.append(sel);
                    t.append(marker);
                    Some(TextEdit { range: a..b, new_text: t, new_selection: (a + 1)..(b + 1) })
                },
                None => None,
            }
        },
    }
}

/// The selection `[a, b)` without its leading and trailing whitespace, as
/// byte offsets; kept as it is where it is not a slice of the text.
pub open spec fn trimmed_range(content: Seq<char>, a: int, b: int) -> (int, int) {
    match text_slice(content, a, b) {
        Some(sel) => {
            let s = b - byte_len(trim_start(sel));
            (s, s + byte_len(trim(sel)))
        },
        None => (a, b),
    }
}

/// `trimmed_range` in `usize`.
fn trim_selection(content: &str, a: usize, b: usize) -> (r: (usize, usize))
    ensures
        r.0 as int == trimmed_range(content@, a as int, b as int).0,
        r.1 as int == trimmed_range(content@, a as int, b as int).1,
{
    match slice_checked(content, a, b) {
        Some(sel) => {
            let cs = chars_of(sel);
            let n = cs.len();
            let mut k: usize = 0;
            while k < n && char_is_whitespace(cs[k])
                invariant
                    n == cs.len(),
                    k <= n,
                    forall|j: int| 0 <= j < k ==> is_white_space(#[trigger] cs@[j]),
                decreases n - k,
            {
                k = k + 1;
            }
            let mut m: usize = n;
            while m > k && char_is_whitespace(cs[m - 1])
                invariant
                    n == cs.len(),
                    k <= m <= n,
                    forall|j: int| m <= j < n ==> is_white_space(#[trigger] cs@[j]),
                decreases m,
            {
                m = m - 1;
            }
            let rest = string_of_range(&cs, k, n);
            let kept = string_of_range(&cs, k, m);
            proof {
                let t = sel@.skip(k as int);
                crate::args::lemma_trim_start_at(sel@, k as int);
                assert forall|j: int| m - k <= j < t.len() implies is_white_space(#[trigger] t[j]) by {
                    assert(t[j] == cs@[j + k]);
                }
                if m > k {
                    assert(t[m - k - 1] == cs@[m - 1]);
                }
                crate::args::lemma_trim_end_at(t, m - k);
                assert(rest@ =~= t);
                assert(kept@ =~= t.take(m - k));
                lemma_slice_splits(content@, a as int, b as int);
                assert(sel@ =~= sel@.take(k as int) + t);
                crate::text::lemma_encode_concat(sel@.take(k as int), t);
                assert(t =~= t.take(m - k) + t.skip(m - k));
                crate::text::lemma_encode_concat(t.take(m - k), t.skip(m - k));
            }
            let s = b - str_byte_len(rest.as_str());
            (s, s + str_byte_len(kept.as_str()))
        },
        None => (a, b),
    }
}

/// Scanning `cands[..k]` from the back, the first `text` call to merge into:
/// one whose content body holds `[s, e]` when that range is empty or the whole
/// body, or one that is exactly `[s, e]`.
pub open spec fn merge_target(cands: Seq<(SyntaxTree, int)>, s: int, e: int, k: int) -> Option<int>
    decreases k,
{
    if k <= 0 || k > cands.len() {
        None
    } else {
        let t = cands[k - 1].0;
        let off = cands[k - 1].1;
        match body_range(t, off) {
            Some((bs, be)) => if (s >= bs && e <= be && (s >= e || (s == bs && e == be))) || (s
                == off && e == off + t.len) {
                Some(k - 1)
            } else {
                merge_target(cands, s, e, k - 1)
            },
            None => merge_target(cands, s, e, k - 1),
        }
    }
}

/// The byte range of a call's parenthesized argument list, from its `(` to
/// its `)`; `None` where the list has no parentheses (as in `#text[..]`).
pub open spec fn paren_list(args: SyntaxTree, ao: int) -> Option<(int, int)> {
    match (
        first_kind_child(args, ao, NodeKind::LeftParen, 0),
        first_kind_child(args, ao, NodeKind::RightParen, 0),
    ) {
        (Some((_, lo)), Some((rp, ro))) => Some((lo, ro + rp.len)),
        _ => None,
    }
}

/// The byte range of a call's parenthesized arguments and the text inside the
/// parentheses; `None` where there are no parentheses or slicing the source
/// would panic.
pub open spec fn args_inner(content: Seq<char>, args: SyntaxTree, ao: int) -> Option<(int, int, Seq<char>)> {
    match paren_list(args, ao) {
        Some((lo, hi)) => match text_slice(content, lo, hi) {
            Some(txt) => match text_slice(txt, 1, byte_len(txt) - 1) {
                Some(i) => Some((lo, hi, i)),
                None => None,
            },
            None => None,
        },
        None => None,
    }
}

/// Replacing `[rs, re)` by `text`, with the selection `[ss, se)` moved along.
pub open spec fn edit_with_sel(rs: int, re: int, text: Seq<char>, ss: usize, se: usize) -> Option<PlannedEdit> {
    match adjusted(rs as usize, re as usize, byte_len(text) as usize, ss, se) {
        Some((x, y)) => Some(
            PlannedEdit { start: rs as usize, end: re as usize, text, sel_start: x, sel_end: y },
        ),
        None => None,
    }
}

/// `key: value`.
pub open spec fn kv(key: Seq<char>, value: Seq<char>) -> Seq<char> {
    key + ": "@ + value
}

/// Wrapping `[s, e)` in a new `#text(key: value)[..]`, selecting the wrapped text.
pub open spec fn wrap_plan(content: Seq<char>, s: int, e: int, key: Seq<char>, value: Seq<char>) -> Option<PlannedEdit> {
    match text_slice(content, s, e) {
        Some(sel) => {
            let prefix = "#text("@ + kv(key, value) + ")["@;
            let ns = s + byte_len(prefix);
            let ne = ns + (e - s);
            if ne <= usize::MAX {
                Some(
                    PlannedEdit {
                        start: s as usize,
                        end: e as usize,
                        text: prefix + sel + "]"@,
                        sel_start: ns as usize,
                        sel_end: ne as usize,
                    },
                )
            } else {
                None
            }
        },
        None => None,
    }
}

/// Giving the call `node` at `off` the argument list `(key: value)` right
/// after its callee; a call without children is left alone and the trimmed
/// selection `[s, e)` is wrapped instead.
pub open spec fn callee_insert_plan(
    content: Seq<char>,
    node: SyntaxTree,
    off: int,
    s: int,
    e: int,
    a: usize,
    b: usize,
    key: Seq<char>,
    value: Seq<char>,
) -> Option<PlannedEdit> {
    if node.children.len() > 0 {
        let p = off + node.children[0].len;
        edit_with_sel(p, p, "("@ + kv(key, value) + ")"@, a, b)
    } else {
        wrap_plan(content, s, e, key, value)
    }
}

/// What setting the `text` parameter `key` to `value` on the selection
/// `[a, b]` does. The selection is first trimmed of whitespace. If a `text`
/// call can take the parameter (see `merge_target`) and has a parenthesized
/// argument list, that list gets it (an empty `value` removes the parameter
/// instead, and unwraps the call when no parameter is left); a call with no
/// parenthesized list gets `(key: value)` right after its callee, its body
/// kept. Otherwise the trimmed selection is wrapped in a new
/// `#text(key: value)[..]`. `None` where slicing or arithmetic would fail.
pub open spec fn text_param_plan(content: Seq<char>, a: usize, b: usize, key: Seq<char>, value: Seq<char>) -> Option<PlannedEdit> {
    let s = trimmed_range(content, a as int, b as int).0;
    let e = trimmed_range(content, a as int, b as int).1;
    let cands = text_calls(typst_parse(content), 0);
    match merge_target(cands, s, e, cands.len() as int) {
        Some(k) => {
            let node = cands[k].0;
            let off = cands[k].1;
            match body_range(node, off) {
                Some((bs, be)) => match first_kind_child(node, off, NodeKind::Args, 0) {
                    Some((args, ao)) => if paren_list(args, ao) is Some {
                        match args_inner(content, args, ao) {
                            Some((rs, re, inner)) => if value.len() == 0 {
                                let upd = args_without(inner, key);
                                if upd.len() == 0 {
                                    match text_slice(content, bs, be) {
                                        Some(body) => edit_with_sel(off, off + node.len, body, a, b),
                                        None => None,
                                    }
                                } else {
                                    edit_with_sel(rs, re, "("@ + upd + ")"@, a, b)
                                }
                            } else {
                                edit_with_sel(rs, re, "("@ + merged_args(inner, key, value) + ")"@, a, b)
                            },
                            None => None,
                        }
                    } else {
                        callee_insert_plan(content, node, off, s, e, a, b, key, value)
                    },
                    None => callee_insert_plan(content, node, off, s, e, a, b, key, value),
                },
                None => None,
            }
        },
        None => wrap_plan(content, s, e, key, value),
    }
}

/// The byte length of a string.
fn str_byte_len(s: &str) -> (n: usize)
    ensures
        n == byte_len(s@),
{
    s.as_bytes().len()
}

/// A `TextEdit` replacing `[rs, re)` by `text`, moving the selection along.
fn edit_with_selection(rs: usize, re: usize, text: String, sel: &Range<usize>) -> (r: Option<TextEdit>)
    ensures
        r matches Some(e) ==> edit_with_sel(rs as int, re as int, text@, sel.start, sel.end) == Some(
            e.plan(),
        ),
        r is None ==> edit_with_sel(rs as int, re as int, text@, sel.start, sel.end) is None,
{
    let n = str_byte_len(text.as_str());
    let range = rs..re;
    match adjust_checked(&range, n, sel) {
        Some(ns) => Some(TextEdit { range, new_text: text, new_selection: ns }),
        None => None,
    }
}

/// Finds the `text` call to merge a parameter into: its index among the
/// candidates and its body's byte range.
fn find_target_text_node_for_merge(cands: &Vec<Located>, s: usize, e: usize) -> (r: Option<(usize, usize, usize)>)
    requires
        all_fit(cands@),
    ensures
        r matches Some((k, bs, be)) ==> merge_target(
            located_views(cands@),
            s as int,
            e as int,
            cands.len() as int,
        ) == Some(k as int) && k < cands.len() && body_range(
            cands@[k as int].tree(),
            cands@[k as int].offset as int,
        ) == Some((bs as int, be as int)),
        r is None ==> merge_target(located_views(cands@), s as int, e as int, cands.len() as int)
            is None,
{
    let ghost cv = located_views(cands@);
    let mut k = cands.len();
    while k > 0
        invariant
            k <= cands.len(),
            cv == located_views(cands@),
            all_fit(cands@),
            merge_target(cv, s as int, e as int, cands.len() as int) == merge_target(
                cv,
                s as int,
                e as int,
                k as int,
            ),
        decreases k,
    {
        let node = &cands[k - 1];
        assert(node.fits());
        let len = node_len(&node.node);
        match get_content_body_range(node) {
            Some((bs, be)) => {
                if (s >= bs && e <= be && (s >= e || (s == bs && e == be))) || (s == node.offset
                    && e == node.offset + len) {
                    return Some((k - 1, bs, be));
                }
            },
            None => {},
        }
        k = k - 1;
    }
    None
}

/// `key: value`.
fn kv_string(key: &str, value: &str) -> (r: String)
    ensures
        r@ == kv(key@, value@),
{
    let mut r = String::from_str(key);
    r.append(": ");
    r.append(value);
    r
}

/// `(inner)`.
fn parenthesized(inner: &str) -> (r: String)
    ensures
        r@ == "("@ + inner@ + ")"@,
{
    let mut r = String::from_str("(");
    r.append(inner);
    r.append(")");
    r
}

fn wrap_in_text_call(content: &str, s: usize, e: usize, key: &str, value: &str) -> (r: Option<TextEdit>)
    ensures
        r matches Some(x) ==> wrap_plan(content@, s as int, e as int, key@, value@) == Some(x.plan()),
        r is None ==> wrap_plan(content@, s as int, e as int, key@, value@) is None,
{
    match slice_checked(content, s, e) {
        Some(sel) => {
            let mut prefix = String::from_str("#text(");
            let entry = kv_string(key, value);
            prefix.append(entry.as_str());
            prefix.append(")[");
            let plen = str_byte_len(prefix.as_str());
            assert(s <= e);
            if s > usize::MAX - plen || s + plen > usize::MAX - (e - s) {
                return None;
            }
            let new_start = s + plen;
            let new_end = new_start + (e - s);
            let mut t = String::from_str(prefix.as_str());
            t.append(sel);
            t.append("]");
            Some(TextEdit { range: s..e, new_text: t, new_selection: new_start..new_end })
        },
        None => None,
    }
}

/// The `(`..`)` range of a call's argument list, if it has one.
fn paren_list_exec(args: &Located) -> (r: Option<(usize, usize)>)
    requires
        args.fits(),
    ensures
        r matches Some((lo, hi)) ==> paren_list(args.tree(), args.offset as int) == Some(
            (lo as int, hi as int),
        ),
        r is None ==> paren_list(args.tree(), args.offset as int) is None,
{
    match (find_kind_child(args, NodeKind::LeftParen), find_kind_child(args, NodeKind::RightParen)) {
        (Some(l), Some(r)) => {
            let rlen = node_len(&r.node);
            Some((l.offset, r.offset + rlen))
        },
        _ => None,
    }
}

/// The parenthesized argument range of a call's argument list and the text
/// inside the parentheses.
fn args_inner_exec(content: &str, args: &Located) -> (r: Option<(usize, usize, String)>)
    requires
        args.fits(),
    ensures
        r matches Some((rs, re, i)) ==> args_inner(content@, args.tree(), args.offset as int) == Some(
            (rs as int, re as int, i@),
        ),
        r is None ==> args_inner(content@, args.tree(), args.offset as int) is None,
{
    match paren_list_exec(args) {
        Some((rs, re)) => match slice_checked(content, rs, re) {
            Some(txt) => {
                let tl = str_byte_len(txt);
                if tl == 0 {
                    return None;
                }
                match slice_checked(txt, 1, tl - 1) {
                    Some(i) => Some((rs, re, String::from_str(i))),
                    None => None,
                }
            },
            None => None,
        },
        None => None,
    }
}

/// Inserts `(key: value)` right after the callee of the call `node`, or wraps
/// `[s, e)` where the call has no children.
fn insert_after_callee(
    content: &str,
    node: &Located,
    s: usize,
    e: usize,
    key: &str,
    value: &str,
    sel: &Range<usize>,
) -> (r: Option<TextEdit>)
    requires
        node.fits(),
    ensures
        r matches Some(x) ==> callee_insert_plan(
            content@,
            node.tree(),
            node.offset as int,
            s as int,
            e as int,
            sel.start,
            sel.end,
            key@,
            value@,
        ) == Some(x.plan()),
        r is None ==> callee_insert_plan(
            content@,
            node.tree(),
            node.offset as int,
            s as int,
            e as int,
            sel.start,
            sel.end,
            key@,
            value@,
        ) is None,
{
    let nlen = node_len(&node.node);
    let cs = node_children(&node.node);
    if cs.len() > 0 {
        let clen = node_len(&cs[0]);
        assert(node.tree().children.len() > 0 ==> nlen == crate::syntax::lens_sum(
            node.tree().children,
        ));
        proof {
            crate::syntax::lemma_lens_sum_prefix(node.tree().children, 1, node.tree().children.len() as int);
            crate::syntax::lemma_lens_sum_prefix(node.tree().children, 0, 0);
            assert(node.tree().children.take(0).len() == 0);
        }
        let p = node.offset + clen;
        let entry = kv_string(key, value);
        edit_with_selection(p, p, parenthesized(entry.as_str()), sel)
    } else {
        wrap_in_text_call(content, s, e, key, value)
    }
}

/// Sets the `text` parameter `key` to `value` on the selection `[a, b]`;
/// `None` where the edit cannot be made (slicing or arithmetic would fail there).
pub fn apply_text_param_ast(content: &str, a: usize, b: usize, key: &str, value: &str) -> (r: Option<TextEdit>)
    ensures
        r matches Some(x) ==> text_param_plan(content@, a, b, key@, value@) == Some(x.plan()),
        r is None ==> text_param_plan(content@, a, b, key@, value@) is None,
{
    let (s, e) = trim_selection(content, a, b);
    let tree = parse_markup(content);
    let root_len = node_len(&tree);
    let mut cands: Vec<Located> = Vec::new();
    collect_text_calls(&tree, 0, &mut cands);
    assert(located_views(cands@) =~= text_calls(typst_parse(content@), 0));
    let sel = a..b;
    match find_target_text_node_for_merge(&cands, s, e) {
        Some((k, bs, be)) => {
            let node = &cands[k];
            assert(node.fits());
            let nlen = node_len(&node.node);
            match find_kind_child(node, NodeKind::Args) {
                Some(args) => if paren_list_exec(&args).is_some() {
                    match args_inner_exec(content, &args) {
                        Some((rs, re, inner)) => {
                            if value.is_empty() {
                                let (updated, is_empty) = remove_arg(inner.as_str(), key);
                                if is_empty {
                                    match slice_checked(content, bs, be) {
                                        Some(body) => edit_with_selection(
                                            node.offset,
                                            node.offset + nlen,
                                            String::from_str(body),
                                            &sel,
                                        ),
                                        None => None,
                                    }
                                } else {
                                    edit_with_selection(rs, re, parenthesized(updated.as_str()), &sel)
                                }
                            } else {
                                let merged = merge_args(inner.as_str(), key, value);
                                edit_with_selection(rs, re, parenthesized(merged.as_str()), &sel)
                            }
                        },
                        None => None,
                    }
                } else {
                    insert_after_callee(content, node, s, e, key, value, &sel)
                },
                None => insert_after_callee(content, node, s, e, key, value, &sel),
            }
        },
        None => wrap_in_text_call(content, s, e, key, value),
    }
}

/// The edit that sets the page parameter `key` to `value`: merged into the
/// argument list of the first `#set page(..)` rule, appended to a bare
/// `#set page`, or a new rule `#set page(key: value)` at the top of the
/// document. `None` where slicing would fail.
pub open spec fn page_rule_edit(content: Seq<char>, key: Seq<char>, value: Seq<char>) -> Option<(int, int, Seq<char>)> {
    match page_rule(typst_parse(content), 0) {
        Some((r, ro)) => match first_kind_child(r, ro, NodeKind::Args, 0) {
            Some((args, ao)) => match text_slice(content, ao, ao + args.len) {
                Some(txt) => {
                    let inner = if byte_len(txt) >= 2 {
                        text_slice(txt, 1, byte_len(txt) - 1)
                    } else {
                        Some(Seq::empty())
                    };
                    match inner {
                        Some(i) => Some((ao, ao + args.len, "("@ + merged_args(i, key, value) + ")"@)),
                        None => None,
                    }
                },
                None => None,
            },
            None => Some((ro + r.len, ro + r.len, "("@ + kv(key, value) + ")"@)),
        },
        None => Some((0, 0, "#set page("@ + kv(key, value) + ")\n"@)),
    }
}

/// Updates or inserts a page parameter: the byte range to replace and the text.
pub fn update_or_insert_page_rule_ast(content: &str, key: &str, value: &str) -> (r: Option<(Range<usize>, String)>)
    ensures
        r matches Some((rg, t)) ==> page_rule_edit(content@, key@, value@) == Some(
            (rg.start as int, rg.end as int, t@),
        ),
        r is None ==> page_rule_edit(content@, key@, value@) is None,
{
    let tree = parse_markup(content);
    let _root_len = node_len(&tree);
    let root = Located { node: tree, offset: 0 };
    match find_page_set_rule(&root) {
        Some(rule) => match find_kind_child(&rule, NodeKind::Args) {
            Some(args) => {
                let alen = node_len(&args.node);
                let rs = args.offset;
                let re = rs + alen;
                match slice_checked(content, rs, re) {
                    Some(txt) => {
                        let tl = str_byte_len(txt);
                        let inner = if tl >= 2 {
                            slice_checked(txt, 1, tl - 1)
                        } else {
                            proof {
                                reveal_strlit("");
                            }
                            Some("")
                        };
                        match inner {
                            Some(i) => {
                                let merged = merge_args(i, key, value);
                                Some((rs..re, parenthesized(merged.as_str())))
                            },
                            None => None,
                        }
                    },
                    None => None,
                }
            },
            None => {
                let rlen = node_len(&rule.node);
                let p = rule.offset + rlen;
                let entry = kv_string(key, value);
                Some((p..p, parenthesized(entry.as_str())))
            },
        },
        None => {
            let mut t = String::from_str("#set page(");
            let entry = kv_string(key, value);
            t.append(entry.as_str());
            t.append(")\n");
            Some((0..0, t))
        },
    }
}

/// The selection clamped to the source's byte length.
pub open spec fn clamp(x: usize, len: nat) -> usize {
    if x <= len {
        x
    } else {
        len as usize
    }
}

/// The page-parameter edit, with the (unclamped) selection moved along.
pub open spec fn page_plan(content: Seq<char>, sel: Range<usize>, key: Seq<char>, value: Seq<char>) -> Option<PlannedEdit> {
    match page_rule_edit(content, key, value) {
        Some((rs, re, t)) => edit_with_sel(rs, re, t, sel.start, sel.end),
        None => None,
    }
}

/// The text of a boolean (`bool::to_string`).
pub open spec fn bool_text(b: bool) -> Seq<char> {
    if b {
        "true"@
    } else {
        "false"@
    }
}

/// What `apply_edit_action` does, as plain values; `None` exactly where the
/// edit cannot be made (slicing the source off character boundaries, or
/// arithmetic overflow).
pub open spec fn edit_plan(content: Seq<char>, selection: Range<usize>, action: EditAction) -> Option<PlannedEdit> {
    let a = clamp(selection.start, byte_len(content));
    let b = clamp(selection.end, byte_len(content));
    match action {
        EditAction::ToggleBold => toggle_plan(content, a, b, NodeKind::Strong),
        EditAction::ToggleItalic => toggle_plan(content, a, b, NodeKind::Emph),
        EditAction::SetFont(f) => text_param_plan(content, a, b, "font"@, "\""@ + f@ + "\""@),
        EditAction::SetFontSize(sz) => text_param_plan(content, a, b, "size"@, sz@ + "pt"@),
        EditAction::SetTextColor(c) => text_param_plan(content, a, b, "fill"@, c@),
        EditAction::InsertGrid { rows, cols } => {
            let g = grid_markup(rows as nat, cols as nat);
            if a + byte_len(g) <= usize::MAX {
                Some(
                    PlannedEdit {
                        start: a,
                        end: a,
                        text: g,
                        sel_start: a,
                        sel_end: (a + byte_len(g)) as usize,
                    },
                )
            } else {
                None
            }
        },
        EditAction::SetPaper(p) => page_plan(content, selection, "paper"@, "\""@ + p@ + "\""@),
        EditAction::SetFlipped(f) => page_plan(content, selection, "flipped"@, bool_text(f)),
        EditAction::SetColumns(c) => page_plan(content, selection, "columns"@, decimal(c as nat)),
        EditAction::SetMargin(m) => page_plan(content, selection, "margin"@, "("@ + m@ + ")"@),
    }
}

fn quoted(s: &str) -> (r: String)
    ensures
        r@ == "\""@ + s@ + "\""@,
{
    let mut r = String::from_str("\"");
    r.append(s);
    r.append("\"");
    r
}

fn page_edit(content: &str, selection: &Range<usize>, key: &str, value: &str) -> (r: Option<TextEdit>)
    ensures
        r matches Some(x) ==> page_plan(content@, *selection, key@, value@) == Some(x.plan()),
        r is None ==> page_plan(content@, *selection, key@, value@) is None,
{
    match update_or_insert_page_rule_ast(content, key, value) {
        Some((rg, t)) => edit_with_selection(rg.start, rg.end, t, selection),
        None => None,
    }
}

/// The edit an action makes on `content` with the given selection, or `None`
/// where it cannot be made on these inputs (see `edit_plan`).
pub fn try_apply_edit_action(content: &str, selection: Range<usize>, action: &EditAction) -> (r: Option<TextEdit>)
    ensures
        r matches Some(e) ==> edit_plan(content@, selection, *action) == Some(e.plan()),
        r is None ==> edit_plan(content@, selection, *action) is None,
{
    match plan_edit(content, &selection, action) {
        Some(_) => Some(apply_edit_action(content, selection, action)),
        None => None,
    }
}

/// Applies an action to the source text and returns the localized edit: the
/// byte range to replace, its new text and the selection afterwards.
pub fn apply_edit_action(content: &str, selection: Range<usize>, action: &EditAction) -> (r: TextEdit)
    requires
        edit_plan(content@, selection, *action) is Some,
    ensures
        edit_plan(content@, selection, *action) == Some(r.plan()),
{
    match plan_edit(content, &selection, action) {
        Some(e) => e,
        None => {
            assert(false);
            TextEdit { range: 0..0, new_text: String::new(), new_selection: 0..0 }
        },
    }
}

fn plan_edit(content: &str, selection: &Range<usize>, action: &EditAction) -> (r: Option<TextEdit>)
    ensures
        r matches Some(e) ==> edit_plan(content@, *selection, *action) == Some(e.plan()),
        r is None ==> edit_plan(content@, *selection, *action) is None,
{
    let len = str_byte_len(content);
    let start = if selection.start <= len {
        selection.start
    } else {
        len
    };
    let end = if selection.end <= len {
        selection.end
    } else {
        len
    };
    match action {
        EditAction::ToggleBold => toggle_wrapper_ast(content, start, end, NodeKind::Strong),
        EditAction::ToggleItalic => toggle_wrapper_ast(content, start, end, NodeKind::Emph),
        EditAction::SetFont(f) => {
            let v = quoted(f.as_str());
            apply_text_param_ast(content, start, end, "font", v.as_str())
        },
        EditAction::SetFontSize(sz) => {
            let mut v = String::from_str(sz.as_str());
            v.append("pt");
            apply_text_param_ast(content, start, end, "size", v.as_str())
        },
        EditAction::SetTextColor(c) => apply_text_param_ast(content, start, end, "fill", c.as_str()),
        EditAction::InsertGrid { rows, cols } => {
            let g = grid_markup_string(*rows, *cols);
            let glen = str_byte_len(g.as_str());
            if start > usize::MAX - glen {
                return None;
            }
            Some(TextEdit { range: start..start, new_text: g, new_selection: start..(start + glen) })
        },
        EditAction::SetPaper(p) => {
            let v = quoted(p.as_str());
            page_edit(content, selection, "paper", v.as_str())
        },
        EditAction::SetFlipped(f) => {
            let v = if *f {
                "true"
            } else {
                "false"
            };
            page_edit(content, selection, "flipped", v)
        },
        EditAction::SetColumns(c) => {
            let v = usize_to_string(*c);
            page_edit(content, selection, "columns", v.as_str())
        },
        EditAction::SetMargin(m) => {
            let v = parenthesized(m.as_str());
            page_edit(content, selection, "margin", v.as_str())
        },
    }
}

/// A selection that ends before the replaced bytes keeps its place.
pub proof fn lemma_selection_before_edit(rs: usize, re: usize, repl: usize, ss: usize, se: usize)
    requires
        ss <= se <= rs,
        se < re,
    ensures
        adjusted(rs, re, repl, ss, se) == Some((ss, se)),
{
}

/// A selection that starts after the replaced bytes moves by the change in
/// length.
pub proof fn lemma_selection_after_edit(rs: usize, re: usize, repl: usize, ss: usize, se: usize)
    requires
        rs <= re <= ss <= se,
        se + repl - (re - rs) <= usize::MAX,
    ensures
        adjusted(rs, re, repl, ss, se) == Some(
            ((ss + repl - (re - rs)) as usize, (se + repl - (re - rs)) as usize),
        ),
{
}

/// The formatting at a cursor position, for the toolbar's highlights.
#[derive(Debug, Clone, PartialEq, Eq)]
pub struct TextProperties {
    pub is_bold: bool,
    pub is_italic: bool,
    pub size: Option<String>,
    pub font: Option<String>,
    pub fill: Option<String>,
}

/// The argument list of the `text` call whose body holds byte `offset` (the
/// one a parameter change there would merge into), if there is one and its
/// arguments can be read.
pub open spec fn text_args_at(content: Seq<char>, offset: int) -> Option<Seq<char>> {
    let cands = text_calls(typst_parse(content), 0);
    match merge_target(cands, offset, offset, cands.len() as int) {
        Some(k) => match first_kind_child(cands[k].0, cands[k].1, NodeKind::Args, 0) {
            Some((args, ao)) => match args_inner(content, args, ao) {
                Some((_, _, inner)) => Some(inner),
                None => None,
            },
            None => None,
        },
        None => None,
    }
}

/// The value of parameter `key` in the `text` call around byte `offset`.
pub open spec fn text_param_at(content: Seq<char>, offset: int, key: Seq<char>) -> Option<Seq<char>> {
    match text_args_at(content, offset) {
        Some(inner) => arg_value(inner, key),
        None => None,
    }
}

/// Finds the formatting at byte `offset`: bold or italic when the text there
/// is inside strong or emphasized markup, and the `size`, `font` and `fill`
/// of the `text` call whose body holds it.
pub fn detect_properties_at_offset(content: &str, offset: usize) -> (p: TextProperties)
    ensures
        p.is_bold == formatting_node(typst_parse(content@), offset as int, offset as int, NodeKind::Strong) is Some,
        p.is_italic == formatting_node(typst_parse(content@), offset as int, offset as int, NodeKind::Emph) is Some,
        crate::intel::opt_view(p.size) == text_param_at(content@, offset as int, "size"@),
        crate::intel::opt_view(p.font) == text_param_at(content@, offset as int, "font"@),
        crate::intel::opt_view(p.fill) == text_param_at(content@, offset as int, "fill"@),
{
    let tree = parse_markup(content);
    let is_bold = find_formatting_node(&tree, offset, offset, NodeKind::Strong).is_some();
    let is_italic = find_formatting_node(&tree, offset, offset, NodeKind::Emph).is_some();
    let _root_len = node_len(&tree);
    let mut cands: Vec<Located> = Vec::new();
    collect_text_calls(&tree, 0, &mut cands);
    assert(located_views(cands@) =~= text_calls(typst_parse(content@), 0));
    let inner = match find_target_text_node_for_merge(&cands, offset, offset) {
        Some((k, _, _)) => {
            let node = &cands[k];
            assert(node.fits());
            match find_kind_child(node, NodeKind::Args) {
                Some(args) => match args_inner_exec(content, &args) {
                    Some((_, _, inner)) => Some(inner),
                    None => None,
                },
                None => None,
            }
        },
        None => None,
    };
    proof {
        reveal_strlit("size");
        reveal_strlit("font");
        reveal_strlit("fill");
    }
    match inner {
        Some(i) => TextProperties {
            is_bold,
            is_italic,
            size: get_arg_value(i.as_str(), "size"),
            font: get_arg_value(i.as_str(), "font"),
            fill: get_arg_value(i.as_str(), "fill"),
        },
        None => TextProperties { is_bold, is_italic, size: None, font: None, fill: None },
    }
}

/// A node found around a selection starts at or after the offset searched
/// from, and ends at or after its start.
proof fn lemma_enclosing_in_order(t: SyntaxTree, off: int, path: Seq<usize>, kind: NodeKind, a: int, b: int)
    ensures
        deepest_enclosing(t, off, path, kind, a, b) matches Some((x, y)) ==> off <= x <= y,
    decreases path.len(),
{
    if path.len() > 0 {
        let i = path[0] as int;
        if i < t.children.len() {
            lemma_enclosing_in_order(t.children[i], child_offset(t, off, i), path.drop_first(), kind, a, b);
        }
    }
}

/// Toggling bold or italic inside a node of that kind removes just the node's
/// two markers: the edit replaces the node's whole byte range by exactly the
/// text between its markers, whatever part of the node is selected, and it is
/// made whenever that text can be sliced.
pub proof fn lemma_unwrap_replaces_node_by_inner_text(
    content: Seq<char>,
    sel: Range<usize>,
    action: EditAction,
    kind: NodeKind,
    ns: int,
    ne: int,
)
    requires
        (action is ToggleBold && kind == NodeKind::Strong) || (action is ToggleItalic && kind
            == NodeKind::Emph),
        byte_len(content) < usize::MAX,
        formatting_node(
            typst_parse(content),
            clamp(sel.start, byte_len(content)) as int,
            clamp(sel.end, byte_len(content)) as int,
            kind,
        ) == Some((ns, ne)),
    ensures
        edit_plan(content, sel, action) matches Some(e) ==> (e.start == ns && e.end == ne && text_slice(content, ns + 1, ne - 1) == Some(e.text)),
        text_slice(content, ns + 1, ne - 1) is Some && ns + 1 <= usize::MAX ==> edit_plan(content, sel, action) is Some,
{
    let t = typst_parse(content);
    let a = clamp(sel.start, byte_len(content)) as int;
    match leaf_after(t, 0, a) {
        Some(p) => lemma_enclosing_in_order(t, 0, p, kind, a, clamp(sel.end, byte_len(content)) as int),
        None => match leaf_before(t, 0, a) {
            Some(p) => lemma_enclosing_in_order(t, 0, p, kind, a, clamp(sel.end, byte_len(content)) as int),
            None => {},
        },
    }
}

/// The argument list of the call `node` at `off` as `args_inner` reads it:
/// the byte range of its parentheses and the text inside them.
pub open spec fn call_paren_args(content: Seq<char>, node: SyntaxTree, off: int) -> Option<(int, int, Seq<char>)> {
    match first_kind_child(node, off, NodeKind::Args, 0) {
        Some((args, ao)) => args_inner(content, args, ao),
        None => None,
    }
}

/// Whether byte `c` lies in the content body of the call `node` at `off`.
pub open spec fn body_holds(node: SyntaxTree, off: int, c: int) -> bool {
    match body_range(node, off) {
        Some((bs, be)) => bs <= c <= be,
        None => false,
    }
}

/// A call the cursor at `c` can be merged into: its body holds `c`, or it is
/// an empty call at `c`.
pub open spec fn cursor_target(node: SyntaxTree, off: int, c: int) -> bool {
    body_holds(node, off, c) || (off == c && node.len == 0)
}

/// The scan for a call to merge an empty selection into finds one when some
/// call's body holds the cursor, and the one it finds is a cursor target.
proof fn lemma_merge_target_finds(cands: Seq<(SyntaxTree, int)>, c: int, k: int, w: int)
    requires
        0 <= w < k <= cands.len(),
        body_holds(cands[w].0, cands[w].1, c),
    ensures
        merge_target(cands, c, c, k) matches Some(j) && 0 <= j < k && cursor_target(cands[j].0, cands[j].1, c),
    decreases k,
{
    let t = cands[k - 1].0;
    let off = cands[k - 1].1;
    match body_range(t, off) {
        Some((bs, be)) => {
            if (c >= bs && c <= be && (c >= c || (c == bs && c == be))) || (c == off && c == off
                + t.len) {
            } else {
                lemma_merge_target_finds(cands, c, k - 1, w);
            }
        },
        None => {
            lemma_merge_target_finds(cands, c, k - 1, w);
        },
    }
}

/// Setting a `text` parameter at a cursor inside the content body of a `text`
/// call merges it into a call's parenthesized argument list: whenever every
/// call the cursor can be merged into has such a list, the edit replaces
/// exactly that list, `(`..`)`, by the list with the parameter set. It never
/// wraps the cursor in a new call.
pub proof fn lemma_cursor_in_text_call_merges(content: Seq<char>, c: usize, key: Seq<char>, value: Seq<char>, w: int)
    requires
        value.len() > 0,
        byte_len(content) <= usize::MAX,
        0 <= w < text_calls(typst_parse(content), 0).len(),
        body_holds(text_calls(typst_parse(content), 0)[w].0, text_calls(typst_parse(content), 0)[w].1, c as int),
        forall|j: int| 0 <= j < text_calls(typst_parse(content), 0).len() && cursor_target(#[trigger] text_calls(typst_parse(content), 0)[j].0, text_calls(typst_parse(content), 0)[j].1, c as int) ==> call_paren_args(content, text_calls(typst_parse(content), 0)[j].0, text_calls(typst_parse(content), 0)[j].1) is Some,
    ensures
        text_param_plan(content, c, c, key, value) matches Some(e) ==> exists|j: int| 0 <= j < text_calls(typst_parse(content), 0).len() && ((#[trigger] call_paren_args(content, text_calls(typst_parse(content), 0)[j].0, text_calls(typst_parse(content), 0)[j].1)) matches Some((lo, hi, inner)) && lo == e.start && hi == e.end && e.text == "("@ + merged_args(inner, key, value) + ")"@),
{
    let cands = text_calls(typst_parse(content), 0);
    lemma_merge_target_finds(cands, c as int, cands.len() as int, w);
    let j = merge_target(cands, c as int, c as int, cands.len() as int)->0;
    assert(call_paren_args(content, cands[j].0, cands[j].1) is Some);
    let (lo, hi, inner) = call_paren_args(content, cands[j].0, cands[j].1)->0;
    assert(0 <= lo <= hi <= byte_len(content));
    assert(trimmed_range(content, c as int, c as int) == (c as int, c as int)) by {
        if text_slice(content, c as int, c as int) is Some {
            let sel = text_slice(content, c as int, c as int)->0;
            crate::text::lemma_slice_splits(content, c as int, c as int);
            assert(sel.len() == 0);
            assert(trim_start(sel) =~= sel);
            assert(trim(sel) =~= sel);
        }
    }
}

/// A page-parameter edit touches no set rule but a `set page` rule: it either
/// inserts a new `#set page(key: value)` line at the very start of the
/// document, or it edits the rule the search finds, which is a set rule whose
/// target identifier is `page`.
pub proof fn lemma_page_edit_targets_page_rule(content: Seq<char>, key: Seq<char>, value: Seq<char>)
    ensures
        page_rule_edit(content, key, value) matches Some((rs, re, txt)) ==> ((rs == 0 && re == 0 && txt == "#set page("@ + kv(key, value) + ")\n"@) || (exists|r: SyntaxTree, ro: int| #[trigger] page_rule(typst_parse(content), 0) == Some((r, ro)) && r.kind == NodeKind::SetRule && (first_kind_child(r, ro, NodeKind::Ident, 0) matches Some((id, _)) && id.text == "page"@))),
{
    crate::syntax::lemma_page_rule_targets_page(typst_parse(content), 0);
    match page_rule(typst_parse(content), 0) {
        Some((r, ro)) => {
            assert(page_rule(typst_parse(content), 0) == Some((r, ro)));
        },
        None => {},
    }
}

} // verus!
