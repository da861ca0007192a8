//! The editor's completion provider: when to ask for completions, where a
//! completion's edit goes (line and UTF-16 column), and what it inserts.
use vstd::prelude::*;
use vstd::string::*;
use crate::intel::{CompletionKind, TypastryCompletion, trigger_info, get_trigger_info};
use crate::text::{byte_len, char_is_alphanumeric, chars_of, is_alphanumeric, slice_checked, text_slice};

verus! {

broadcast use vstd::string::group_string_axioms;

/// A line and UTF-16 column, as the editor's language-server types hold them.
#[derive(Debug, Clone, Copy, PartialEq, Eq, Structural)]
pub struct EditorPosition {
    pub line: u32,
    pub character: u32,
}

/// The number of line feeds in a text.
pub open spec fn newline_count(cs: Seq<char>) -> nat
    decreases cs.len(),
{
    if cs.len() == 0 {
        0
    } else {
        newline_count(cs.drop_last()) + if cs.last() == '\n' {
            1nat
        } else {
            0nat
        }
    }
}

/// The characters after the last line feed of a text (all of it if it has none).
pub open spec fn last_line(cs: Seq<char>) -> Seq<char>
    decreases cs.len(),
{
    if cs.len() == 0 {
        cs
    } else if cs.last() == '\n' {
        Seq::empty()
    } else {
        last_line(cs.drop_last()).push(cs.last())
    }
}

/// `char::len_utf16`: characters above the Basic Multilingual Plane take two
/// UTF-16 units.
pub open spec fn utf16_units(c: char) -> nat {
    if (c as u32) >= 0x10000 {
        2
    } else {
        1
    }
}

/// The UTF-16 length of a text.
pub open spec fn utf16_len(cs: Seq<char>) -> nat
    decreases cs.len(),
{
    if cs.len() == 0 {
        0
    } else {
        utf16_len(cs.drop_last()) + utf16_units(cs.last())
    }
}

/// The position of byte `offset` (clamped to the text's length), with lines
/// split at line feeds: the number of line feeds before it and the UTF-16
/// length of its line up to it, each cut to 32 bits.
pub open spec fn editor_position(text: Seq<char>, offset: nat) -> EditorPosition {
    let o = if offset <= byte_len(text) {
        offset
    } else {
        byte_len(text)
    };
    let before = text_slice(text, 0, o as int)->0;
    EditorPosition {
        line: newline_count(before) as u32,
        character: utf16_len(last_line(before)) as u32,
    }
}

/// The byte offset, clamped to the text, is on a character boundary.
pub open spec fn position_defined(text: Seq<char>, offset: nat) -> bool {
    let o = if offset <= byte_len(text) {
        offset
    } else {
        byte_len(text)
    };
    text_slice(text, 0, o as int) is Some
}

fn str_len(s: &str) -> (n: usize)
    ensures
        n == byte_len(s@),
{
    s.as_bytes().len()
}

/// The line and UTF-16 column of byte `offset` of `text`.
pub fn offset_to_lsp_position(text: &str, offset: usize) -> (p: EditorPosition)
    requires
        position_defined(text@, offset as nat),
    ensures
        p == editor_position(text@, offset as nat),
{
    let len = str_len(text);
    let o = if offset <= len {
        offset
    } else {
        len
    };
    let before = match slice_checked(text, 0, o) {
        Some(b) => b,
        None => {
            return EditorPosition { line: 0, character: 0 };
        },
    };
    let cs = chars_of(before);
    let mut lines: usize = 0;
    let mut column: u128 = 0;
    let mut i: usize = 0;
    while i < cs.len()
        invariant
            cs@ == before@,
            0 <= i <= cs.len(),
            lines == newline_count(cs@.take(i as int)),
            lines <= i,
            column == utf16_len(last_line(cs@.take(i as int))),
            column <= 2 * i,
        decreases cs.len() - i,
    {
        let c = cs[i];
        assert(cs@.take(i + 1).drop_last() =~= cs@.take(i as int));
        assert(cs@.take(i + 1).last() == c);
        if c == '\n' {
            lines = lines + 1;
            column = 0;
        } else {
            let units: u128 = if (c as u32) >= 0x10000 {
                2
            } else {
                1
            };
            assert(last_line(cs@.take(i + 1)) == last_line(cs@.take(i as int)).push(c));
            assert(last_line(cs@.take(i + 1)).drop_last() =~= last_line(cs@.take(i as int)));
            column = column + units;
        }
        i = i + 1;
    }
    assert(cs@.take(cs.len() as int) =~= cs@);
    EditorPosition { line: lines as u32, character: column as u32 }
}

/// Whether text typed into the editor asks for completions: `#`, `(`, `,`,
/// or text holding an identifier character or a `.`.
pub open spec fn is_trigger_text(t: Seq<char>) -> bool {
    t == "#"@ || t == "("@ || t == ","@ || exists|i: int|
        0 <= i < t.len() && (is_alphanumeric(#[trigger] t[i]) || t[i] == '_' || t[i] == '.')
}

/// Decides whether newly typed text should open the completion menu.
pub fn is_completion_trigger(new_text: &str) -> (r: bool)
    ensures
        r == is_trigger_text(new_text@),
{
    let cs = chars_of(new_text);
    if cs.len() == 1 && (cs[0] == '#' || cs[0] == '(' || cs[0] == ',') {
        proof {
            reveal_strlit("#");
            reveal_strlit("(");
            reveal_strlit(",");
            if cs[0] == '#' {
                assert(new_text@ =~= "#"@);
            } else if cs[0] == '(' {
                assert(new_text@ =~= "("@);
            } else {
                assert(new_text@ =~= ","@);
            }
        }
        return true;
    }
    proof {
        reveal_strlit("#");
        reveal_strlit("(");
        reveal_strlit(",");
    }
    let mut i: usize = 0;
    while i < cs.len()
        invariant
            cs@ == new_text@,
            0 <= i <= cs.len(),
            forall|j: int| 0 <= j < i ==> !(is_alphanumeric(#[trigger] cs@[j]) || cs@[j] == '_' || cs@[j] == '.'),
        decreases cs.len() - i,
    {
        let c = cs[i];
        if char_is_alphanumeric(c) || c == '_' || c == '.' {
            return true;
        }
        i = i + 1;
    }
    false
}

/// The kind of an editor completion item, as the protocol names it.
#[derive(Debug, Clone, Copy, PartialEq, Eq, Structural)]
pub enum EditorItemKind {
    Function,
    Class,
    Property,
    Constant,
    Value,
    Unit,
    Text,
}

/// A completion item for the editor: its label and kind, the text that
/// replaces the range from the trigger to the cursor, that range, and the
/// detail.
#[derive(Debug)]
pub struct EditorCompletion {
    pub label: String,
    pub kind: EditorItemKind,
    pub new_text: String,
    pub start: EditorPosition,
    pub end: EditorPosition,
    pub detail: Option<String>,
}

/// An `EditorCompletion` as plain values.
pub struct EditorCompletionView {
    pub label: Seq<char>,
    pub kind: EditorItemKind,
    pub new_text: Seq<char>,
    pub start: EditorPosition,
    pub end: EditorPosition,
    pub detail: Option<Seq<char>>,
}

/// The text of an optional string.
pub open spec fn opt_chars(o: Option<String>) -> Option<Seq<char>> {
    match o {
        Some(s) => Some(s@),
        None => None,
    }
}

impl View for EditorCompletion {
    type V = EditorCompletionView;

    open spec fn view(&self) -> EditorCompletionView {
        EditorCompletionView {
            label: self.label@,
            kind: self.kind,
            new_text: self.new_text@,
            start: self.start,
            end: self.end,
            detail: opt_chars(self.detail),
        }
    }
}

/// The plain values of editor completions.
pub open spec fn editor_views(v: Seq<EditorCompletion>) -> Seq<EditorCompletionView> {
    v.map_values(|c: EditorCompletion| c@)
}

/// The item kind for a completion kind.
pub open spec fn editor_kind(k: CompletionKind) -> EditorItemKind {
    match k {
        CompletionKind::Func => EditorItemKind::Function,
        CompletionKind::Type => EditorItemKind::Class,
        CompletionKind::Param => EditorItemKind::Property,
        CompletionKind::Constant => EditorItemKind::Constant,
        CompletionKind::Symbol => EditorItemKind::Value,
        CompletionKind::Unit => EditorItemKind::Unit,
        CompletionKind::Text => EditorItemKind::Text,
    }
}

/// The editor item for a completion: after a `#`, everything but a unit
/// suggestion keeps the `#` in front of what it inserts.
pub open spec fn editor_item(c: TypastryCompletion, hash: bool, start: EditorPosition, end: EditorPosition) -> EditorCompletionView {
    EditorCompletionView {
        label: c.label@,
        kind: editor_kind(c.kind),
        new_text: if hash && c.kind != CompletionKind::Unit {
            "#"@ + c.apply@
        } else {
            c.apply@
        },
        start,
        end,
        detail: opt_chars(c.detail),
    }
}

/// The editor items for completions at byte offset `cursor`: each replaces
/// the text from the trigger (the word start, or its `#`) to the cursor.
pub open spec fn editor_items(cs: Seq<TypastryCompletion>, text: Seq<char>, cursor: nat) -> Seq<EditorCompletionView> {
    let (t, hash) = trigger_info(text, cursor as int);
    let start = editor_position(text, t as nat);
    let end = editor_position(text, cursor);
    cs.map_values(|c: TypastryCompletion| editor_item(c, hash, start, end))
}

fn editor_kind_of(k: CompletionKind) -> (r: EditorItemKind)
    ensures
        r == editor_kind(k),
{
    match k {
        CompletionKind::Func => EditorItemKind::Function,
        CompletionKind::Type => EditorItemKind::Class,
        CompletionKind::Param => EditorItemKind::Property,
        CompletionKind::Constant => EditorItemKind::Constant,
        CompletionKind::Symbol => EditorItemKind::Value,
        CompletionKind::Unit => EditorItemKind::Unit,
        CompletionKind::Text => EditorItemKind::Text,
    }
}

fn clone_detail(o: &Option<String>) -> (r: Option<String>)
    ensures
        opt_chars(r) == opt_chars(*o),
{
    match o {
        Some(s) => Some(s.clone()),
        None => None,
    }
}

/// Turns completions into editor items that replace the word being typed at
/// `cursor` (a byte offset on a character boundary, or past the end).
pub fn completion_items(completions: &Vec<TypastryCompletion>, text: &str, cursor: usize) -> (r: Vec<EditorCompletion>)
    requires
        position_defined(text@, cursor as nat),
    ensures
        editor_views(r@) == editor_items(completions@, text@, cursor as nat),
{
    let (trigger, hash) = get_trigger_info(text, cursor);
    let start = offset_to_lsp_position(text, trigger);
    let end = offset_to_lsp_position(text, cursor);
    let ghost want = editor_items(completions@, text@, cursor as nat);
    let mut out: Vec<EditorCompletion> = Vec::new();
    let mut i: usize = 0;
    while i < completions.len()
        invariant
            0 <= i <= completions.len(),
            want == editor_items(completions@, text@, cursor as nat),
            want.len() == completions.len(),
            forall|j: int| 0 <= j < completions.len() ==> #[trigger] want[j] == editor_item(completions@[j], hash, start, end),
            editor_views(out@) =~= want.take(i as int),
        decreases completions.len() - i,
    {
        let c = &completions[i];
        let new_text = if hash && c.kind != CompletionKind::Unit {
            let mut s = String::from_str("#");
            s.append(c.apply.as_str());
            proof {
                reveal_strlit("#");
            }
            s
        } else {
            c.apply.clone()
        };
        let ghost before = editor_views(out@);
        out.push(
            EditorCompletion {
                label: c.label.clone(),
                kind: editor_kind_of(c.kind),
                new_text,
                start,
                end,
                detail: clone_detail(&c.detail),
            },
        );
        proof {
            assert(editor_views(out@) =~= before.push(out@[i as int]@));
            assert(out@[i as int]@ == want[i as int]);
            assert(want.take(i as int).push(want[i as int]) =~= want.take(i + 1));
        }
        i = i + 1;
    }
    out
}

} // verus!
