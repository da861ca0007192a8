//! The embedded language server's logic: keyword and global-scope
//! completions for the word before the cursor, and byte offsets as
//! line/column positions.
use vstd::prelude::*;
use vstd::string::*;
use typst::Library;
use typst::foundations::Value;
use typst_syntax::SyntaxNode;
use crate::intel::starts_with;
use crate::syntax::{
    NodeKind, SyntaxTree, typst_parse, syntax_contents, parse_markup, node_len, node_children,
    node_kind, clone_node, leaf_before, leaf_before_path,
};
use crate::text::{char_is_alphanumeric, chars_of, is_alphanumeric, slice_checked, string_of_range, text_slice, byte_len};

verus! {

broadcast use vstd::string::group_string_axioms;

#[verifier::external_type_specification]
#[verifier::external_body]
pub struct ExLibrary(Library);

/// A compiler world whose main source the language server replaces with the
/// editor's text.
pub trait TypstLspWorld {
    fn update_main_source(&mut self, new_content: &str);
}

/// What a global binding holds, as far as completion tells it apart.
#[derive(Debug, Clone, Copy, PartialEq, Eq, Structural)]
pub enum ScopeValueKind {
    Func,
    Module,
    Type,
    Auto,
    NoneValue,
    Other,
}

/// A binding of the global scope: its name, what it holds, and its
/// documentation.
#[derive(Debug)]
pub struct ScopeEntry {
    pub name: String,
    pub kind: ScopeValueKind,
    pub docs: Option<String>,
}

/// A `ScopeEntry` as plain values.
pub struct ScopeItem {
    pub name: Seq<char>,
    pub kind: ScopeValueKind,
    pub docs: Option<Seq<char>>,
}

/// The text of an optional string.
pub open spec fn opt_string(o: Option<String>) -> Option<Seq<char>> {
    match o {
        Some(s) => Some(s@),
        None => None,
    }
}

impl View for ScopeEntry {
    type V = ScopeItem;

    open spec fn view(&self) -> ScopeItem {
        ScopeItem { name: self.name@, kind: self.kind, docs: opt_string(self.docs) }
    }
}

/// The plain values of scope entries.
pub open spec fn entry_views(es: Seq<ScopeEntry>) -> Seq<ScopeItem> {
    es.map_values(|e: ScopeEntry| e@)
}

/// The bindings of a library's global scope, in the scope's order.
pub uninterp spec fn global_scope(library: Library) -> Seq<ScopeItem>;

/// Walks the global scope of `typst::Library` (`library.global.scope().iter()`),
/// reading each binding's value to tell functions, modules, types, `auto` and
/// `none` apart and to take its documentation (`Value::docs`). Claimed: the
/// entries are the scope's bindings, in order.
#[verifier::external_body]
fn global_scope_entries(library: &Library) -> (r: Vec<ScopeEntry>)
    ensures
        entry_views(r@) == global_scope(*library),
{
    library.global.scope().iter().map(|(name, binding)| {
        let value = binding.read();
        let kind = match value {
            Value::Func(_) => ScopeValueKind::Func,
            Value::Module(_) => ScopeValueKind::Module,
            Value::Type(_) => ScopeValueKind::Type,
            Value::Auto => ScopeValueKind::Auto,
            Value::None => ScopeValueKind::NoneValue,
            _ => ScopeValueKind::Other,
        };
        ScopeEntry { name: name.to_string(), kind, docs: value.docs().map(|d| d.to_string()) }
    }).collect()
}

/// The kind of a completion item, as the language server protocol names it.
#[derive(Debug, Clone, Copy, PartialEq, Eq, Structural)]
pub enum LspItemKind {
    Keyword,
    Function,
    Module,
    Class,
    Constant,
}

/// A completion item for the language server: its label, kind, detail, and
/// the snippet to insert (for functions: the call with the cursor inside).
#[derive(Debug)]
pub struct LspCompletionItem {
    pub label: String,
    pub kind: LspItemKind,
    pub detail: Option<String>,
    pub insert_text: Option<String>,
}

/// An `LspCompletionItem` as plain values.
pub struct ItemView {
    pub label: Seq<char>,
    pub kind: LspItemKind,
    pub detail: Option<Seq<char>>,
    pub insert_text: Option<Seq<char>>,
}

impl View for LspCompletionItem {
    type V = ItemView;

    open spec fn view(&self) -> ItemView {
        ItemView {
            label: self.label@,
            kind: self.kind,
            detail: opt_string(self.detail),
            insert_text: opt_string(self.insert_text),
        }
    }
}

/// The plain values of completion items.
pub open spec fn item_views(is: Seq<LspCompletionItem>) -> Seq<ItemView> {
    is.map_values(|i: LspCompletionItem| i@)
}

/// Leaves in which no completion is offered: strings, comments, raw text.
pub open spec fn blocks_completion(k: NodeKind) -> bool {
    k == NodeKind::Str || k == NodeKind::LineComment || k == NodeKind::BlockComment || k
        == NodeKind::Raw
}

/// The node reached from `t` by following the child indices of `path`.
pub open spec fn node_at(t: SyntaxTree, path: Seq<usize>) -> Option<SyntaxTree>
    decreases path.len(),
{
    if path.len() == 0 {
        Some(t)
    } else if path[0] < t.children.len() {
        node_at(t.children[path[0] as int], path.drop_first())
    } else {
        None
    }
}

/// The leaf just before byte `off` of the parsed text is a string, comment
/// or raw text.
pub open spec fn completion_blocked(text: Seq<char>, off: int) -> bool {
    match leaf_before(typst_parse(text), 0, off) {
        Some(p) => match node_at(typst_parse(text), p) {
            Some(n) => blocks_completion(n.kind),
            None => false,
        },
        None => false,
    }
}

/// A character of an identifier being typed.
pub open spec fn is_ident_char(c: char) -> bool {
    is_alphanumeric(c) || c == '_'
}

/// The start of the identifier characters that end at `k`.
pub open spec fn ident_start(cs: Seq<char>, k: int) -> int
    decreases k,
{
    if k > 0 && k <= cs.len() && is_ident_char(cs[k - 1]) {
        ident_start(cs, k - 1)
    } else {
        k
    }
}

/// The keywords offered as completions.
pub open spec fn keywords() -> Seq<Seq<char>> {
    seq![
        "let"@, "set"@, "show"@, "import"@, "include"@, "if"@, "else"@, "for"@, "while"@,
        "break"@, "continue"@, "return"@, "as"@, "in"@, "and"@, "or"@, "not"@, "block"@,
        "circle"@, "curve"@, "ellipse"@,
    ]
}

/// The keywords that start with `prefix`, as items.
pub open spec fn keyword_items(kws: Seq<Seq<char>>, prefix: Seq<char>) -> Seq<ItemView>
    decreases kws.len(),
{
    if kws.len() == 0 {
        Seq::empty()
    } else {
        let r = keyword_items(kws.drop_last(), prefix);
        if starts_with(kws.last(), prefix) {
            r.push(
                ItemView { label: kws.last(), kind: LspItemKind::Keyword, detail: None, insert_text: None },
            )
        } else {
            r
        }
    }
}

/// The item kind for what a binding holds.
pub open spec fn item_kind(k: ScopeValueKind) -> LspItemKind {
    match k {
        ScopeValueKind::Func => LspItemKind::Function,
        ScopeValueKind::Module => LspItemKind::Module,
        ScopeValueKind::Type => LspItemKind::Class,
        ScopeValueKind::Auto => LspItemKind::Constant,
        ScopeValueKind::NoneValue => LspItemKind::Keyword,
        ScopeValueKind::Other => LspItemKind::Constant,
    }
}

/// The item for a binding: functions insert a call snippet `name($0)`.
pub open spec fn scope_item(e: ScopeItem) -> ItemView {
    ItemView {
        label: e.name,
        kind: item_kind(e.kind),
        detail: e.docs,
        insert_text: if e.kind == ScopeValueKind::Func {
            Some(e.name + "($0)"@)
        } else {
            None
        },
    }
}

/// The bindings whose names start with `prefix`, as items, in scope order.
pub open spec fn scope_items(es: Seq<ScopeItem>, prefix: Seq<char>) -> Seq<ItemView>
    decreases es.len(),
{
    if es.len() == 0 {
        Seq::empty()
    } else {
        let r = scope_items(es.drop_last(), prefix);
        if starts_with(es.last().name, prefix) {
            r.push(scope_item(es.last()))
        } else {
            r
        }
    }
}

/// The completions at byte `off`: none inside strings, comments and raw text,
/// none after a `.`; otherwise the keywords and then the global bindings that
/// start with the identifier characters before the cursor.
pub open spec fn lsp_completions(text: Seq<char>, off: int, scope: Seq<ScopeItem>) -> Seq<ItemView> {
    if completion_blocked(text, off) {
        Seq::empty()
    } else {
        let before = text_slice(text, 0, off)->0;
        let ps = ident_start(before, before.len() as int);
        let prefix = before.skip(ps);
        if ps > 0 && before[ps - 1] == '.' {
            Seq::empty()
        } else {
            keyword_items(keywords(), prefix) + scope_items(scope, prefix)
        }
    }
}

/// The inputs on which completion can run: where it is not blocked, the
/// offset is within the text and on a character boundary.
pub open spec fn completion_input_ok(text: Seq<char>, off: int) -> bool {
    completion_blocked(text, off) || text_slice(text, 0, off) is Some
}

/// The kind of the node at `path` below `root`.
fn kind_at_path(root: &SyntaxNode, path: &Vec<usize>) -> (r: Option<NodeKind>)
    ensures
        r == match node_at(syntax_contents(*root), path@) {
            Some(n) => Some(n.kind),
            None => None,
        },
{
    let mut cur = clone_node(root);
    let mut i: usize = 0;
    assert(path@.skip(0) =~= path@);
    while i < path.len()
        invariant
            0 <= i <= path.len(),
            node_at(syntax_contents(*root), path@) == node_at(syntax_contents(cur), path@.skip(i as int)),
        decreases path.len() - i,
    {
        let cs = node_children(&cur);
        let idx = path[i];
        assert(path@.skip(i as int).drop_first() =~= path@.skip(i + 1));
        if idx < cs.len() {
            cur = clone_node(&cs[idx]);
        } else {
            return None;
        }
        i = i + 1;
    }
    assert(path@.skip(path.len() as int).len() == 0);
    Some(node_kind(&cur))
}

/// Whether the leaf before byte `off` blocks completion.
fn leaf_blocks_completion(text: &str, off: usize) -> (r: bool)
    ensures
        r == completion_blocked(text@, off as int),
{
    let tree = parse_markup(text);
    let _len = node_len(&tree);
    match leaf_before_path(&tree, 0, off) {
        Some(p) => match kind_at_path(&tree, &p) {
            Some(k) => k == NodeKind::Str || k == NodeKind::LineComment || k == NodeKind::BlockComment
                || k == NodeKind::Raw,
            None => false,
        },
        None => false,
    }
}

fn ident_char(c: char) -> (r: bool)
    ensures
        r == is_ident_char(c),
{
    char_is_alphanumeric(c) || c == '_'
}

fn keyword(i: usize) -> (r: &'static str)
    requires
        i < 21,
    ensures
        r@ == keywords()[i as int],
{
    match i {
        0 => "let",
        1 => "set",
        2 => "show",
        3 => "import",
        4 => "include",
        5 => "if",
        6 => "else",
        7 => "for",
        8 => "while",
        9 => "break",
        10 => "continue",
        11 => "return",
        12 => "as",
        13 => "in",
        14 => "and",
        15 => "or",
        16 => "not",
        17 => "block",
        18 => "circle",
        19 => "curve",
        _ => "ellipse",
    }
}

fn clone_opt(o: &Option<String>) -> (r: Option<String>)
    ensures
        opt_string(r) == opt_string(*o),
{
    match o {
        Some(s) => Some(s.clone()),
        None => None,
    }
}

fn kind_item(k: ScopeValueKind) -> (r: LspItemKind)
    ensures
        r == item_kind(k),
{
    match k {
        ScopeValueKind::Func => LspItemKind::Function,
        ScopeValueKind::Module => LspItemKind::Module,
        ScopeValueKind::Type => LspItemKind::Class,
        ScopeValueKind::Auto => LspItemKind::Constant,
        ScopeValueKind::NoneValue => LspItemKind::Keyword,
        ScopeValueKind::Other => LspItemKind::Constant,
    }
}

/// Completions at byte `byte_offset` of `text`, offering the keywords and the
/// given global bindings.
pub fn completions_for_scope(text: &str, byte_offset: usize, scope: &Vec<ScopeEntry>) -> (r: Vec<
    LspCompletionItem,
>)
    requires
        completion_input_ok(text@, byte_offset as int),
    ensures
        item_views(r@) == lsp_completions(text@, byte_offset as int, entry_views(scope@)),
{
    if leaf_blocks_completion(text, byte_offset) {
        return Vec::new();
    }
    let before = match slice_checked(text, 0, byte_offset) {
        Some(b) => b,
        None => {
            return Vec::new();
        },
    };
    let cs = chars_of(before);
    let k = cs.len();
    let mut ps = k;
    while ps > 0 && ident_char(cs[ps - 1])
        invariant
            cs@ == before@,
            k == cs.len(),
            ps <= k,
            ident_start(cs@, k as int) == ident_start(cs@, ps as int),
        decreases ps,
    {
        ps = ps - 1;
    }
    let mut items: Vec<LspCompletionItem> = Vec::new();
    if ps > 0 && cs[ps - 1] == '.' {
        return items;
    }
    let prefix = string_of_range(&cs, ps, k);
    assert(prefix@ =~= before@.skip(ps as int));
    let mut i: usize = 0;
    while i < 21
        invariant
            0 <= i <= 21,
            prefix@ == before@.skip(ps as int),
            item_views(items@) == keyword_items(keywords().take(i as int), prefix@),
        decreases 21 - i,
    {
        let kw = keyword(i);
        assert(keywords().take(i + 1).drop_last() =~= keywords().take(i as int));
        if crate::intel::starts_with_str(kw, prefix.as_str()) {
            let ghost before_items = item_views(items@);
            items.push(
                LspCompletionItem {
                    label: kw.to_string(),
                    kind: LspItemKind::Keyword,
                    detail: None,
                    insert_text: None,
                },
            );
            assert(item_views(items@) =~= before_items.push(
                ItemView { label: kw@, kind: LspItemKind::Keyword, detail: None, insert_text: None },
            ));
        }
        i = i + 1;
    }
    assert(keywords().take(21) =~= keywords());
    let ghost kw_items = item_views(items@);
    let ghost es = entry_views(scope@);
    let mut j: usize = 0;
    while j < scope.len()
        invariant
            0 <= j <= scope.len(),
            es == entry_views(scope@),
            prefix@ == before@.skip(ps as int),
            item_views(items@) == kw_items + scope_items(es.take(j as int), prefix@),
        decreases scope.len() - j,
    {
        let e = &scope[j];
        assert(es.take(j + 1).drop_last() =~= es.take(j as int));
        assert(es.take(j + 1).last() == e@);
        if crate::intel::starts_with_str(e.name.as_str(), prefix.as_str()) {
            let insert_text = if e.kind == ScopeValueKind::Func {
                let mut s = String::from_str(e.name.as_str());
                s.append("($0)");
                Some(s)
            } else {
                None
            };
            let ghost before_items = item_views(items@);
            items.push(
                LspCompletionItem {
                    label: e.name.clone(),
                    kind: kind_item(e.kind),
                    detail: clone_opt(&e.docs),
                    insert_text,
                },
            );
            assert(item_views(items@) =~= before_items.push(scope_item(e@)));
        }
        j = j + 1;
    }
    assert(es.take(scope.len() as int) =~= es);
    items
}

/// Completions at byte `byte_offset` of `text`: the keywords and the bindings
/// of the library's global scope that start with the identifier being typed.
pub fn get_completions(text: &str, byte_offset: usize, library: &Library) -> (r: Vec<
    LspCompletionItem,
>)
    requires
        completion_input_ok(text@, byte_offset as int),
    ensures
        item_views(r@) == lsp_completions(text@, byte_offset as int, global_scope(*library)),
{
    let scope = global_scope_entries(library);
    completions_for_scope(text, byte_offset, &scope)
}

/// `get_completions`, or `None` where the offset is inside the text but not
/// on a character boundary, or past its end (and completion is not blocked).
pub fn try_get_completions(text: &str, byte_offset: usize, library: &Library) -> (r: Option<
    Vec<LspCompletionItem>,
>)
    ensures
        r matches Some(v) ==> completion_input_ok(text@, byte_offset as int) && item_views(v@)
            == lsp_completions(text@, byte_offset as int, global_scope(*library)),
        r is None ==> !completion_input_ok(text@, byte_offset as int),
{
    if leaf_blocks_completion(text, byte_offset) || slice_checked(text, 0, byte_offset).is_some() {
        Some(get_completions(text, byte_offset, library))
    } else {
        None
    }
}

/// `typst_syntax::is_newline`: line feed, vertical tab, form feed, carriage
/// return, next line, line separator and paragraph separator.
pub open spec fn is_newline(c: char) -> bool {
    c == '\n' || c == '\x0B' || c == '\x0C' || c == '\r' || c == '\u{0085}' || c == '\u{2028}'
        || c == '\u{2029}'
}

/// Whether character `i` of the text ends a line: a newline, except a carriage
/// return right before a line feed (the pair ends one line, at the feed).
pub open spec fn ends_line(cs: Seq<char>, i: int) -> bool {
    is_newline(cs[i]) && !(cs[i] == '\r' && i + 1 < cs.len() && cs[i + 1] == '\n')
}

/// The number of lines ended among the first `n` characters.
pub open spec fn lines_ended(cs: Seq<char>, n: int) -> nat
    decreases n,
{
    if n <= 0 {
        0
    } else {
        lines_ended(cs, n - 1) + if ends_line(cs, n - 1) {
            1nat
        } else {
            0nat
        }
    }
}

/// The character index where the line holding character index `n` starts.
pub open spec fn line_start(cs: Seq<char>, n: int) -> int
    decreases n,
{
    if n <= 0 {
        0
    } else if ends_line(cs, n - 1) {
        n
    } else {
        line_start(cs, n - 1)
    }
}

/// Calls `Lines::byte_to_line` on the lines of `text`. Claimed: there is a
/// line exactly when `b` is at most the text's byte length, and at a character
/// boundary it is the number of lines ended before `b` (lines start after each
/// newline, a carriage return and line feed pair counting once). Inside a
/// character the line is left unsaid.
#[verifier::external_body]
fn line_of(text: &str, b: usize) -> (r: Option<usize>)
    ensures
        r is Some <==> b <= byte_len(text@),
        r matches Some(l) ==> (text_slice(text@, 0, b as int) matches Some(p) ==> l == lines_ended(text@, p.len() as int)),
{
    typst_syntax::Lines::new(text).byte_to_line(b)
}

/// Calls `Lines::byte_to_column` on the lines of `text`. Claimed: there is a
/// column exactly when `b` is within the text and on a character boundary, and
/// it is the number of characters between the start of `b`'s line and `b`.
#[verifier::external_body]
fn column_of(text: &str, b: usize) -> (r: Option<usize>)
    ensures
        r is Some <==> text_slice(text@, 0, b as int) is Some,
        r matches Some(c) ==> (text_slice(text@, 0, b as int) matches Some(p) ==> c == p.len() - line_start(text@, p.len() as int)),
{
    typst_syntax::Lines::new(text).byte_to_column(b)
}

/// A position in a document as the language server protocol gives it.
#[derive(Debug, Clone, Copy, PartialEq, Eq, Structural)]
pub struct LspPosition {
    pub line: u32,
    pub character: u32,
}

/// The line and column of byte `b`, each cut to 32 bits as the protocol
/// stores them: the lines ended before `b` and the characters between the
/// start of its line and `b`; `None` where `b` is past the end or inside a
/// character.
pub open spec fn lsp_position(text: Seq<char>, b: nat) -> Option<LspPosition> {
    match text_slice(text, 0, b as int) {
        Some(p) => Some(
            LspPosition {
                line: lines_ended(text, p.len() as int) as u32,
                character: (p.len() - line_start(text, p.len() as int)) as u32,
            },
        ),
        None => None,
    }
}

/// The line and column of byte `byte_offset` of `text`.
pub fn byte_to_lsp_position(text: &str, byte_offset: usize) -> (r: Option<LspPosition>)
    ensures
        r == lsp_position(text@, byte_offset as nat),
        r is Some <==> text_slice(text@, 0, byte_offset as int) is Some,
{
    let line = match line_of(text, byte_offset) {
        Some(l) => l,
        None => {
            return None;
        },
    };
    let column = match column_of(text, byte_offset) {
        Some(c) => c,
        None => {
            return None;
        },
    };
    Some(LspPosition { line: line as u32, character: column as u32 })
}

/// Every keyword item starts with the prefix.
pub proof fn lemma_keyword_items_match(kws: Seq<Seq<char>>, prefix: Seq<char>)
    ensures
        forall|i: int| 0 <= i < keyword_items(kws, prefix).len() ==> starts_with(
            #[trigger] keyword_items(kws, prefix)[i].label,
            prefix,
        ),
    decreases kws.len(),
{
    if kws.len() > 0 {
        lemma_keyword_items_match(kws.drop_last(), prefix);
        let r = keyword_items(kws.drop_last(), prefix);
        assert forall|i: int| 0 <= i < keyword_items(kws, prefix).len() implies starts_with(
            #[trigger] keyword_items(kws, prefix)[i].label,
            prefix,
        ) by {
            if i < r.len() {
                assert(keyword_items(kws, prefix)[i] == r[i]);
            }
        }
    }
}

/// Every scope item starts with the prefix.
pub proof fn lemma_scope_items_match(es: Seq<ScopeItem>, prefix: Seq<char>)
    ensures
        forall|i: int| 0 <= i < scope_items(es, prefix).len() ==> starts_with(
            #[trigger] scope_items(es, prefix)[i].label,
            prefix,
        ),
    decreases es.len(),
{
    if es.len() > 0 {
        lemma_scope_items_match(es.drop_last(), prefix);
        let r = scope_items(es.drop_last(), prefix);
        assert forall|i: int| 0 <= i < scope_items(es, prefix).len() implies starts_with(
            #[trigger] scope_items(es, prefix)[i].label,
            prefix,
        ) by {
            if i < r.len() {
                assert(scope_items(es, prefix)[i] == r[i]);
            }
        }
    }
}

/// Every completion offered starts with the identifier typed before the
/// cursor.
pub proof fn lemma_completions_match_prefix(text: Seq<char>, off: int, scope: Seq<ScopeItem>)
    ensures
        !completion_blocked(text, off) ==> ({
            let before = text_slice(text, 0, off)->0;
            let prefix = before.skip(ident_start(before, before.len() as int));
            forall|i: int| 0 <= i < lsp_completions(text, off, scope).len() ==> starts_with(
                #[trigger] lsp_completions(text, off, scope)[i].label,
                prefix,
            )
        }),
{
    if !completion_blocked(text, off) {
        let before = text_slice(text, 0, off)->0;
        let prefix = before.skip(ident_start(before, before.len() as int));
        lemma_keyword_items_match(keywords(), prefix);
        lemma_scope_items_match(scope, prefix);
        let k = keyword_items(keywords(), prefix);
        let c = lsp_completions(text, off, scope);
        assert forall|i: int| 0 <= i < c.len() implies starts_with(#[trigger] c[i].label, prefix) by {
            if i < k.len() {
                assert(c[i] == k[i]);
            } else {
                assert(c[i] == scope_items(scope, prefix)[i - k.len()]);
            }
        }
    }
}

/// No completion is offered inside a string, a line or block comment, or raw
/// text: when the leaf just before the offset is one of these, the list is
/// empty, whatever the scope.
pub proof fn lemma_no_completions_in_strings_or_comments(
    text: Seq<char>,
    off: int,
    scope: Seq<ScopeItem>,
    p: Seq<usize>,
    n: SyntaxTree,
)
    requires
        leaf_before(typst_parse(text), 0, off) == Some(p),
        node_at(typst_parse(text), p) == Some(n),
        n.kind == NodeKind::Str || n.kind == NodeKind::LineComment || n.kind == NodeKind::BlockComment
            || n.kind == NodeKind::Raw,
    ensures
        lsp_completions(text, off, scope) == Seq::<ItemView>::empty(),
{
}

} // verus!
