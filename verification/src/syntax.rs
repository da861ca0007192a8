//! The Typst syntax tree, as the editing logic sees it.
//!
//! Parsing is done by `typst_syntax`; the tree it produces is an opaque
//! `SyntaxNode`. The logic reads four things of each node (its kind, its byte
//! length, its full text and its children), which the trusted items below
//! expose as plain values. Everything built on top of them (offsets, leaf
//! lookup, ancestor search, tree walks) is verified here.
use vstd::prelude::*;
use crate::text::str_equal;
use typst_syntax::SyntaxKind;
use typst_syntax::SyntaxNode;

verus! {

#[verifier::external_type_specification]
#[verifier::external_body]
pub struct ExSyntaxNode(SyntaxNode);

/// The node kinds that the editing logic tells apart; every other kind is `Other`.
#[derive(Clone, Copy, Debug, PartialEq, Eq, Structural)]
pub enum NodeKind {
    Strong,
    Emph,
    FuncCall,
    Args,
    ContentBlock,
    LeftParen,
    RightParen,
    SetRule,
    Ident,
    Str,
    LineComment,
    BlockComment,
    Raw,
    Other,
}

/// What a syntax node holds: its kind, its byte length in the source, its full
/// text and its children, in order.
pub struct SyntaxTree {
    pub kind: NodeKind,
    pub len: nat,
    pub text: Seq<char>,
    pub children: Seq<SyntaxTree>,
}

/// The contents of a `typst_syntax::SyntaxNode`, as a tree of plain values.
pub uninterp spec fn syntax_contents(node: SyntaxNode) -> SyntaxTree;

/// The tree that `typst_syntax::parse` builds for a source text.
pub uninterp spec fn typst_parse(text: Seq<char>) -> SyntaxTree;

/// Sum of the byte lengths of a sequence of sibling nodes.
pub open spec fn lens_sum(cs: Seq<SyntaxTree>) -> nat
    decreases cs.len(),
{
    if cs.len() == 0 {
        0
    } else {
        lens_sum(cs.drop_last()) + cs.last().len
    }
}

/// Calls `typst_syntax::parse`, which parses a source file as top-level markup.
/// Claimed: the tree it returns is the one named `typst_parse` of the text.
#[verifier::external_body]
pub(crate) fn parse_markup(text: &str) -> (root: SyntaxNode)
    ensures
        syntax_contents(root) == typst_parse(text@),
{
    typst_syntax::parse(text)
}

/// Calls `SyntaxNode::kind`, mapping the kinds this library distinguishes one
/// for one and every other kind to `Other`. Claimed: the result is the node's kind.
#[verifier::external_body]
pub(crate) fn node_kind(node: &SyntaxNode) -> (k: NodeKind)
    ensures
        k == syntax_contents(*node).kind,
{
    match node.kind() {
        SyntaxKind::Strong => NodeKind::Strong, SyntaxKind::Emph => NodeKind::Emph,
        SyntaxKind::FuncCall => NodeKind::FuncCall, SyntaxKind::Args => NodeKind::Args,
        SyntaxKind::ContentBlock => NodeKind::ContentBlock,
        SyntaxKind::LeftParen => NodeKind::LeftParen, SyntaxKind::RightParen => NodeKind::RightParen,
        SyntaxKind::SetRule => NodeKind::SetRule, SyntaxKind::Ident => NodeKind::Ident,
        SyntaxKind::Str => NodeKind::Str, SyntaxKind::LineComment => NodeKind::LineComment,
        SyntaxKind::BlockComment => NodeKind::BlockComment, SyntaxKind::Raw => NodeKind::Raw,
        _ => NodeKind::Other,
    }
}

/// Calls `SyntaxNode::len`, the node's byte length in the source text.
/// Claimed: the result is the node's length, and for a node with children it is
/// the sum of the children's lengths (an inner node's length is computed as
/// that sum when the node is built).
#[verifier::external_body]
pub(crate) fn node_len(node: &SyntaxNode) -> (n: usize)
    ensures
        n == syntax_contents(*node).len,
        syntax_contents(*node).children.len() > 0 ==> n == lens_sum(
            syntax_contents(*node).children,
        ),
{
    node.len()
}

/// Calls `SyntaxNode::children`, cloning each child.
/// Claimed: the children come out in order, each with its own contents.
#[verifier::external_body]
pub(crate) fn node_children(node: &SyntaxNode) -> (cs: Vec<SyntaxNode>)
    ensures
        cs.len() == syntax_contents(*node).children.len(),
        forall|i: int|
            0 <= i < cs.len() ==> #[trigger] syntax_contents(cs[i]) == syntax_contents(
                *node,
            ).children[i],
{
    node.children().cloned().collect()
}

/// Calls `SyntaxNode::full_text`. Claimed: the result is the node's full text.
#[verifier::external_body]
pub(crate) fn node_text(node: &SyntaxNode) -> (t: String)
    ensures
        t@ == syntax_contents(*node).text,
{
    node.full_text().to_string()
}


/// Byte offset of child `i` of a node that starts at byte `off`.
pub open spec fn child_offset(t: SyntaxTree, off: int, i: int) -> int {
    off + lens_sum(t.children.take(i))
}

/// The sum over a prefix of the children is at most the sum over a longer one.
pub proof fn lemma_lens_sum_prefix(cs: Seq<SyntaxTree>, i: int, j: int)
    requires
        0 <= i <= j <= cs.len(),
    ensures
        lens_sum(cs.take(i)) <= lens_sum(cs.take(j)),
        j < cs.len() ==> lens_sum(cs.take(j + 1)) == lens_sum(cs.take(j)) + cs[j].len,
        lens_sum(cs.take(cs.len() as int)) == lens_sum(cs),
    decreases j - i,
{
    assert(cs.take(cs.len() as int) =~= cs);
    if j < cs.len() {
        assert(cs.take(j + 1).drop_last() =~= cs.take(j));
    }
    if i < j {
        lemma_lens_sum_prefix(cs, i, j - 1);
        assert(cs.take(j).drop_last() =~= cs.take(j - 1));
    }
}

/// The first child `i' >= i` whose byte range `[start, end)` holds `cursor`.
pub open spec fn first_child_after(t: SyntaxTree, off: int, cursor: int, i: int) -> Option<int>
    decreases t.children.len() - i,
{
    if i < 0 || i >= t.children.len() {
        None
    } else if child_offset(t, off, i) <= cursor < child_offset(t, off, i) + t.children[i].len {
        Some(i)
    } else {
        first_child_after(t, off, cursor, i + 1)
    }
}

/// The first child `i' >= i` whose range `(start, end]` holds `cursor`, or the
/// last child when it starts at `cursor`.
pub open spec fn first_child_before(t: SyntaxTree, off: int, cursor: int, i: int) -> Option<int>
    decreases t.children.len() - i,
{
    if i < 0 || i >= t.children.len() {
        None
    } else if (child_offset(t, off, i) < cursor <= child_offset(t, off, i) + t.children[i].len)
        || (child_offset(t, off, i) == cursor && i + 1 == t.children.len()) {
        Some(i)
    } else {
        first_child_before(t, off, cursor, i + 1)
    }
}

/// The path (child indices from `t`) of the leaf just after byte `cursor`, as
/// `LinkedNode::leaf_at` with `Side::After` finds it.
pub open spec fn leaf_after(t: SyntaxTree, off: int, cursor: int) -> Option<Seq<usize>>
    decreases t,
{
    if t.children.len() == 0 {
        if cursor < off + t.len {
            Some(Seq::empty())
        } else {
            None
        }
    } else {
        match first_child_after(t, off, cursor, 0) {
            Some(i) => if 0 <= i < t.children.len() {
                match leaf_after(t.children[i], child_offset(t, off, i), cursor) {
                    Some(p) => Some(seq![i as usize] + p),
                    None => None,
                }
            } else {
                None
            },
            None => None,
        }
    }
}

/// The path of the leaf just before byte `cursor`, as `LinkedNode::leaf_at`
/// with `Side::Before` finds it.
pub open spec fn leaf_before(t: SyntaxTree, off: int, cursor: int) -> Option<Seq<usize>>
    decreases t,
{
    if t.children.len() == 0 && cursor <= off + t.len {
        Some(Seq::empty())
    } else {
        match first_child_before(t, off, cursor, 0) {
            Some(i) => if 0 <= i < t.children.len() {
                match leaf_before(t.children[i], child_offset(t, off, i), cursor) {
                    Some(p) => Some(seq![i as usize] + p),
                    None => None,
                }
            } else {
                None
            },
            None => None,
        }
    }
}

/// A node of the tree together with its byte offset in the source.
pub struct Located {
    pub node: SyntaxNode,
    pub offset: usize,
}

impl Located {
    pub open spec fn tree(&self) -> SyntaxTree {
        syntax_contents(self.node)
    }

    /// The node's byte range fits in `usize`.
    pub open spec fn fits(&self) -> bool {
        self.offset + self.tree().len <= usize::MAX
    }
}

/// Finds the leaf just after byte `cursor` below `node` (which starts at `off`).
pub fn leaf_after_path(node: &SyntaxNode, off: usize, cursor: usize) -> (r: Option<Vec<usize>>)
    requires
        off + syntax_contents(*node).len <= usize::MAX,
    ensures
        r matches Some(v) ==> leaf_after(syntax_contents(*node), off as int, cursor as int) == Some(v@),
        r is None ==> leaf_after(syntax_contents(*node), off as int, cursor as int) is None,
    decreases syntax_contents(*node),
{
    let ghost t = syntax_contents(*node);
    let len = node_len(node);
    let cs = node_children(node);
    if cs.len() == 0 {
        if cursor < off + len {
            return Some(Vec::new());
        } else {
            return None;
        }
    }
    let mut o = off;
    let mut i: usize = 0;
    while i < cs.len()
        invariant
            cs.len() == t.children.len(),
            forall|j: int| 0 <= j < cs.len() ==> #[trigger] syntax_contents(cs[j]) == t.children[j],
            t == syntax_contents(*node),
            len == t.len,
            len == lens_sum(t.children),
            off + len <= usize::MAX,
            0 <= i <= cs.len(),
            o == off + lens_sum(t.children.take(i as int)),
            first_child_after(t, off as int, cursor as int, 0) == first_child_after(
                t,
                off as int,
                cursor as int,
                i as int,
            ),
        decreases cs.len() - i,
    {
        proof {
            lemma_lens_sum_prefix(t.children, i as int, i as int);
            lemma_lens_sum_prefix(t.children, (i + 1) as int, t.children.len() as int);
        }
        let clen = node_len(&cs[i]);
        if o <= cursor && cursor < o + clen {
            let sub = leaf_after_path(&cs[i], o, cursor);
            match sub {
                Some(p) => {
                    let mut v = Vec::new();
                    v.push(i);
                    let mut p2 = p;
                    v.append(&mut p2);
                    proof {
                        assert(v@ =~= seq![i] + p@);
                    }
                    return Some(v);
                },
                None => {
                    return None;
                },
            }
        }
        o = o + clen;
        i = i + 1;
    }
    None
}

/// Finds the leaf just before byte `cursor` below `node` (which starts at `off`).
pub fn leaf_before_path(node: &SyntaxNode, off: usize, cursor: usize) -> (r: Option<Vec<usize>>)
    requires
        off + syntax_contents(*node).len <= usize::MAX,
    ensures
        r matches Some(v) ==> leaf_before(syntax_contents(*node), off as int, cursor as int) == Some(v@),
        r is None ==> leaf_before(syntax_contents(*node), off as int, cursor as int) is None,
    decreases syntax_contents(*node),
{
    let ghost t = syntax_contents(*node);
    let len = node_len(node);
    let cs = node_children(node);
    if cs.len() == 0 && cursor <= off + len {
        return Some(Vec::new());
    }
    if cs.len() == 0 {
        return None;
    }
    let count = cs.len();
    let mut o = off;
    let mut i: usize = 0;
    while i < count
        invariant
            count == cs.len(),
            cs.len() == t.children.len(),
            cs.len() > 0,
            forall|j: int| 0 <= j < cs.len() ==> #[trigger] syntax_contents(cs[j]) == t.children[j],
            t == syntax_contents(*node),
            len == t.len,
            len == lens_sum(t.children),
            off + len <= usize::MAX,
            0 <= i <= cs.len(),
            o == off + lens_sum(t.children.take(i as int)),
            first_child_before(t, off as int, cursor as int, 0) == first_child_before(
                t,
                off as int,
                cursor as int,
                i as int,
            ),
        decreases count - i,
    {
        proof {
            lemma_lens_sum_prefix(t.children, i as int, i as int);
            lemma_lens_sum_prefix(t.children, (i + 1) as int, t.children.len() as int);
        }
        let clen = node_len(&cs[i]);
        if (o < cursor && cursor <= o + clen) || (o == cursor && i + 1 == count) {
            let sub = leaf_before_path(&cs[i], o, cursor);
            match sub {
                Some(p) => {
                    let mut v = Vec::new();
                    v.push(i);
                    let mut p2 = p;
                    v.append(&mut p2);
                    proof {
                        assert(v@ =~= seq![i] + p@);
                    }
                    return Some(v);
                },
                None => {
                    return None;
                },
            }
        }
        o = o + clen;
        i = i + 1;
    }
    None
}


/// Calls `SyntaxNode::clone`. Claimed: the copy has the same contents.
#[verifier::external_body]
pub(crate) fn clone_node(node: &SyntaxNode) -> (c: SyntaxNode)
    ensures
        syntax_contents(c) == syntax_contents(*node),
{
    node.clone()
}

/// The deepest node on `path` (starting at `t`, which starts at byte `off`)
/// that has kind `kind` and whose byte range encloses `[a, b]`.
pub open spec fn deepest_enclosing(
    t: SyntaxTree,
    off: int,
    path: Seq<usize>,
    kind: NodeKind,
    a: int,
    b: int,
) -> Option<(int, int)>
    decreases path.len(),
{
    let here = if t.kind == kind && off <= a && b <= off + t.len {
        Some((off, off + t.len))
    } else {
        None
    };
    if path.len() == 0 {
        here
    } else {
        let i = path[0] as int;
        if i < t.children.len() {
            match deepest_enclosing(
                t.children[i],
                child_offset(t, off, i),
                path.drop_first(),
                kind,
                a,
                b,
            ) {
                Some(r) => Some(r),
                None => here,
            }
        } else {
            here
        }
    }
}

/// The innermost ancestor of the leaf at byte `a` (looking after `a`, else
/// before it) that has kind `kind` and encloses `[a, b]`, as a byte range.
pub open spec fn formatting_node(t: SyntaxTree, a: int, b: int, kind: NodeKind) -> Option<(int, int)> {
    match leaf_after(t, 0, a) {
        Some(p) => deepest_enclosing(t, 0, p, kind, a, b),
        None => match leaf_before(t, 0, a) {
            Some(p) => deepest_enclosing(t, 0, p, kind, a, b),
            None => None,
        },
    }
}

fn deepest_enclosing_exec(
    node: &SyntaxNode,
    off: usize,
    path: &Vec<usize>,
    k: usize,
    kind: NodeKind,
    a: usize,
    b: usize,
) -> (r: Option<(usize, usize)>)
    requires
        off + syntax_contents(*node).len <= usize::MAX,
        k <= path.len(),
    ensures
        r matches Some((x, y)) ==> deepest_enclosing(
            syntax_contents(*node),
            off as int,
            path@.skip(k as int),
            kind,
            a as int,
            b as int,
        ) == Some((x as int, y as int)),
        r is None ==> deepest_enclosing(
            syntax_contents(*node),
            off as int,
            path@.skip(k as int),
            kind,
            a as int,
            b as int,
        ) is None,
    decreases path.len() - k,
{
    let ghost t = syntax_contents(*node);
    let len = node_len(node);
    let nk = node_kind(node);
    let here = if nk == kind && off <= a && b <= off + len {
        Some((off, off + len))
    } else {
        None
    };
    if k == path.len() {
        assert(path@.skip(k as int).len() == 0);
        return here;
    }
    let i = path[k];
    assert(path@.skip(k as int)[0] == i);
    assert(path@.skip(k as int).drop_first() =~= path@.skip(k + 1));
    let cs = node_children(node);
    if i < cs.len() {
        proof {
            lemma_lens_sum_prefix(t.children, i as int, i as int);
            lemma_lens_sum_prefix(t.children, (i + 1) as int, t.children.len() as int);
        }
        let mut o = off;
        let mut j: usize = 0;
        while j < i
            invariant
                i < cs.len(),
                cs.len() == t.children.len(),
                forall|q: int| 0 <= q < cs.len() ==> #[trigger] syntax_contents(cs[q]) == t.children[q],
                t == syntax_contents(*node),
                len == t.len,
                len == lens_sum(t.children),
                off + len <= usize::MAX,
                0 <= j <= i,
                o == off + lens_sum(t.children.take(j as int)),
            decreases i - j,
        {
            proof {
                lemma_lens_sum_prefix(t.children, j as int, j as int);
                lemma_lens_sum_prefix(t.children, (j + 1) as int, t.children.len() as int);
            }
            let clen = node_len(&cs[j]);
            o = o + clen;
            j = j + 1;
        }
        let sub = deepest_enclosing_exec(&cs[i], o, path, k + 1, kind, a, b);
        match sub {
            Some(r) => Some(r),
            None => here,
        }
    } else {
        here
    }
}

/// Finds the innermost node of kind `kind` that encloses `[a, b]` and is an
/// ancestor of the leaf at byte `a`.
pub fn find_formatting_node(root: &SyntaxNode, a: usize, b: usize, kind: NodeKind) -> (r: Option<(usize, usize)>)
    ensures
        r matches Some((x, y)) ==> formatting_node(syntax_contents(*root), a as int, b as int, kind)
            == Some((x as int, y as int)),
        r is None ==> formatting_node(syntax_contents(*root), a as int, b as int, kind) is None,
{
    let _root_len = node_len(root);
    let leaf = match leaf_after_path(root, 0, a) {
        Some(p) => Some(p),
        None => leaf_before_path(root, 0, a),
    };
    match leaf {
        Some(p) => {
            assert(p@.skip(0) =~= p@);
            deepest_enclosing_exec(root, 0, &p, 0, kind, a, b)
        },
        None => None,
    }
}

/// The first child `j >= i` of `t` (which starts at `off`) that has kind `k`,
/// with its byte offset.
pub open spec fn first_kind_child(t: SyntaxTree, off: int, k: NodeKind, i: int) -> Option<(SyntaxTree, int)>
    decreases t.children.len() - i,
{
    if i < 0 || i >= t.children.len() {
        None
    } else if t.children[i].kind == k {
        Some((t.children[i], child_offset(t, off, i)))
    } else {
        first_kind_child(t, off, k, i + 1)
    }
}

/// A located node as its contents and offset.
pub open spec fn located_view(l: Located) -> (SyntaxTree, int) {
    (syntax_contents(l.node), l.offset as int)
}

/// Finds the first child of `node` with kind `k`.
pub fn find_kind_child(node: &Located, k: NodeKind) -> (r: Option<Located>)
    requires
        node.fits(),
    ensures
        r matches Some(l) ==> first_kind_child(node.tree(), node.offset as int, k, 0) == Some(
            located_view(l),
        ) && l.fits() && l.offset + l.tree().len <= node.offset + node.tree().len,
        r is None ==> first_kind_child(node.tree(), node.offset as int, k, 0) is None,
{
    let ghost t = node.tree();
    let len = node_len(&node.node);
    let mut cs = node_children(&node.node);
    let off = node.offset;
    let mut o = off;
    let mut i: usize = 0;
    while i < cs.len()
        invariant
            cs.len() == t.children.len(),
            forall|q: int| 0 <= q < cs.len() ==> #[trigger] syntax_contents(cs[q]) == t.children[q],
            t == node.tree(),
            off == node.offset,
            len == t.len,
            cs.len() > 0 ==> len == lens_sum(t.children),
            off + len <= usize::MAX,
            0 <= i <= cs.len(),
            o == off + lens_sum(t.children.take(i as int)),
            first_kind_child(t, off as int, k, 0) == first_kind_child(t, off as int, k, i as int),
        decreases cs.len() - i,
    {
        proof {
            lemma_lens_sum_prefix(t.children, i as int, i as int);
            lemma_lens_sum_prefix(t.children, (i + 1) as int, t.children.len() as int);
        }
        let clen = node_len(&cs[i]);
        if node_kind(&cs[i]) == k {
            let c = cs.remove(i);
            return Some(Located { node: c, offset: o });
        }
        o = o + clen;
        i = i + 1;
    }
    None
}

/// The contents and offsets of located nodes.
pub open spec fn located_views(v: Seq<Located>) -> Seq<(SyntaxTree, int)> {
    v.map_values(|l: Located| located_view(l))
}

/// Every located node's byte range fits in `usize`.
pub open spec fn all_fit(v: Seq<Located>) -> bool {
    forall|i: int| 0 <= i < v.len() ==> (#[trigger] v[i]).fits()
}

/// A call of `text` (or `#text`): a function call whose callee's text is one of these.
pub open spec fn is_text_call(t: SyntaxTree) -> bool {
    &&& t.kind == NodeKind::FuncCall
    &&& t.children.len() > 0
    &&& (t.children[0].text == seq!['t', 'e', 'x', 't'] || t.children[0].text == seq![
        '#',
        't',
        'e',
        'x',
        't',
    ])
}

/// The `text` calls of the tree, in pre-order, each with its byte offset.
pub open spec fn text_calls(t: SyntaxTree, off: int) -> Seq<(SyntaxTree, int)>
    decreases t, t.children.len() + 1,
{
    (if is_text_call(t) {
        seq![(t, off)]
    } else {
        Seq::empty()
    }) + text_calls_from(t, off, 0)
}

/// The `text` calls under the children of `t` from child `i` on.
pub open spec fn text_calls_from(t: SyntaxTree, off: int, i: int) -> Seq<(SyntaxTree, int)>
    decreases t, t.children.len() - i,
{
    if i < 0 || i >= t.children.len() {
        Seq::empty()
    } else {
        text_calls(t.children[i], child_offset(t, off, i)) + text_calls_from(t, off, i + 1)
    }
}

/// Whether a node is a call of `text` (the callee is `text` or `#text`).
fn is_text_call_exec(node: &SyntaxNode) -> (r: bool)
    ensures
        r == is_text_call(syntax_contents(*node)),
{
    if node_kind(node) != NodeKind::FuncCall {
        return false;
    }
    let cs = node_children(node);
    if cs.len() == 0 {
        return false;
    }
    let callee = node_text(&cs[0]);
    let a = "text";
    let b = "#text";
    proof {
        reveal_strlit("text");
        reveal_strlit("#text");
        assert(a@ =~= seq!['t', 'e', 'x', 't']);
        assert(b@ =~= seq!['#', 't', 'e', 'x', 't']);
    }
    str_equal(callee.as_str(), a) || str_equal(callee.as_str(), b)
}

/// Appends the `text` calls under `node` (which starts at `off`) in pre-order.
pub fn collect_text_calls(node: &SyntaxNode, off: usize, out: &mut Vec<Located>)
    requires
        off + syntax_contents(*node).len <= usize::MAX,
        all_fit(old(out)@),
    ensures
        located_views(final(out)@) == located_views(old(out)@) + text_calls(
            syntax_contents(*node),
            off as int,
        ),
        all_fit(final(out)@),
    decreases syntax_contents(*node),
{
    let ghost t = syntax_contents(*node);
    let ghost base = located_views(out@);
    let len = node_len(node);
    if is_text_call_exec(node) {
        let c = clone_node(node);
        out.push(Located { node: c, offset: off });
        assert(located_views(out@) =~= base + seq![(t, off as int)]);
    } else {
        assert(located_views(out@) =~= base + Seq::<(SyntaxTree, int)>::empty());
    }
    let ghost mid = located_views(out@);
    let cs = node_children(node);
    let mut o = off;
    let mut i: usize = 0;
    assert(mid + text_calls_from(t, off as int, 0) == base + text_calls(t, off as int));
    while i < cs.len()
        invariant
            cs.len() == t.children.len(),
            forall|q: int| 0 <= q < cs.len() ==> #[trigger] syntax_contents(cs[q]) == t.children[q],
            t == syntax_contents(*node),
            len == t.len,
            cs.len() > 0 ==> len == lens_sum(t.children),
            off + len <= usize::MAX,
            0 <= i <= cs.len(),
            o == off + lens_sum(t.children.take(i as int)),
            located_views(out@) + text_calls_from(t, off as int, i as int) == base + text_calls(
                t,
                off as int,
            ),
            all_fit(out@),
        decreases cs.len() - i,
    {
        proof {
            lemma_lens_sum_prefix(t.children, i as int, i as int);
            lemma_lens_sum_prefix(t.children, (i + 1) as int, t.children.len() as int);
        }
        let clen = node_len(&cs[i]);
        let ghost before = located_views(out@);
        collect_text_calls(&cs[i], o, out);
        assert(located_views(out@) + text_calls_from(t, off as int, i + 1) =~= before
            + text_calls_from(t, off as int, i as int));
        o = o + clen;
        i = i + 1;
    }
    assert(text_calls_from(t, off as int, i as int) =~= Seq::<(SyntaxTree, int)>::empty());
    assert(located_views(out@) =~= base + text_calls(t, off as int));
}

/// The content block of a call: a direct child, or else one inside its first
/// argument list, with its byte offset.
pub open spec fn content_block_of(t: SyntaxTree, off: int) -> Option<(SyntaxTree, int)> {
    match first_kind_child(t, off, NodeKind::ContentBlock, 0) {
        Some(x) => Some(x),
        None => match first_kind_child(t, off, NodeKind::Args, 0) {
            Some((a, ao)) => first_kind_child(a, ao, NodeKind::ContentBlock, 0),
            None => None,
        },
    }
}

/// The byte range inside the brackets of a call's content block.
pub open spec fn body_range(t: SyntaxTree, off: int) -> Option<(int, int)> {
    match content_block_of(t, off) {
        Some((c, co)) => if c.len >= 2 {
            Some((co + 1, co + c.len - 1))
        } else {
            None
        },
        None => None,
    }
}

/// Finds the byte range inside a call's content block.
pub fn get_content_body_range(call: &Located) -> (r: Option<(usize, usize)>)
    requires
        call.fits(),
    ensures
        r matches Some((x, y)) ==> body_range(call.tree(), call.offset as int) == Some(
            (x as int, y as int),
        ),
        r is None ==> body_range(call.tree(), call.offset as int) is None,
{
    let block = match find_kind_child(call, NodeKind::ContentBlock) {
        Some(c) => Some(c),
        None => match find_kind_child(call, NodeKind::Args) {
            Some(args) => find_kind_child(&args, NodeKind::ContentBlock),
            None => None,
        },
    };
    match block {
        Some(c) => {
            let clen = node_len(&c.node);
            if clen >= 2 {
                Some((c.offset + 1, c.offset + clen - 1))
            } else {
                None
            }
        },
        None => None,
    }
}

/// A `set page` rule: a set rule whose first identifier child is `page`.
pub open spec fn is_page_rule(t: SyntaxTree, off: int) -> bool {
    &&& t.kind == NodeKind::SetRule
    &&& match first_kind_child(t, off, NodeKind::Ident, 0) {
        Some((id, _)) => id.text == seq!['p', 'a', 'g', 'e'],
        None => false,
    }
}

/// The first `set page` rule of the tree in pre-order, with its byte offset.
pub open spec fn page_rule(t: SyntaxTree, off: int) -> Option<(SyntaxTree, int)>
    decreases t, t.children.len() + 1,
{
    if is_page_rule(t, off) {
        Some((t, off))
    } else {
        page_rule_from(t, off, 0)
    }
}

/// The first `set page` rule under the children of `t` from child `i` on.
pub open spec fn page_rule_from(t: SyntaxTree, off: int, i: int) -> Option<(SyntaxTree, int)>
    decreases t, t.children.len() - i,
{
    if i < 0 || i >= t.children.len() {
        None
    } else {
        match page_rule(t.children[i], child_offset(t, off, i)) {
            Some(r) => Some(r),
            None => page_rule_from(t, off, i + 1),
        }
    }
}

/// Finds the first `set page` rule under `node` in pre-order.
pub fn find_page_set_rule(node: &Located) -> (r: Option<Located>)
    requires
        node.fits(),
    ensures
        r matches Some(l) ==> page_rule(node.tree(), node.offset as int) == Some(located_view(l))
            && l.fits(),
        r is None ==> page_rule(node.tree(), node.offset as int) is None,
    decreases node.tree(),
{
    let ghost t = node.tree();
    let off = node.offset;
    let len = node_len(&node.node);
    if node_kind(&node.node) == NodeKind::SetRule {
        match find_kind_child(node, NodeKind::Ident) {
            Some(id) => {
                let txt = node_text(&id.node);
                let page = "page";
                proof {
                    reveal_strlit("page");
                    assert(page@ =~= seq!['p', 'a', 'g', 'e']);
                }
                if str_equal(txt.as_str(), page) {
                    let c = clone_node(&node.node);
                    return Some(Located { node: c, offset: off });
                }
            },
            None => {},
        }
    }
    let mut cs = node_children(&node.node);
    let mut o = off;
    let mut i: usize = 0;
    while i < cs.len()
        invariant
            cs.len() == t.children.len(),
            forall|q: int| 0 <= q < cs.len() ==> #[trigger] syntax_contents(cs[q]) == t.children[q],
            t == node.tree(),
            off == node.offset,
            len == t.len,
            cs.len() > 0 ==> len == lens_sum(t.children),
            off + len <= usize::MAX,
            0 <= i <= cs.len(),
            o == off + lens_sum(t.children.take(i as int)),
            !is_page_rule(t, off as int),
            page_rule(t, off as int) == page_rule_from(t, off as int, i as int),
        decreases cs.len() - i,
    {
        proof {
            lemma_lens_sum_prefix(t.children, i as int, i as int);
            lemma_lens_sum_prefix(t.children, (i + 1) as int, t.children.len() as int);
        }
        let clen = node_len(&cs[i]);
        let child = Located { node: clone_node(&cs[i]), offset: o };
        let sub = find_page_set_rule(&child);
        match sub {
            Some(r) => {
                return Some(r);
            },
            None => {},
        }
        o = o + clen;
        i = i + 1;
    }
    None
}

/// Whatever the search for a `set page` rule finds is a set rule whose first
/// identifier, its target, is `page`; a set rule for anything else is never
/// taken.
pub proof fn lemma_page_rule_targets_page(t: SyntaxTree, off: int)
    ensures
        page_rule(t, off) matches Some((r, ro)) ==> (r.kind == NodeKind::SetRule && (first_kind_child(r, ro, NodeKind::Ident, 0) matches Some((id, _)) && id.text == "page"@)),
    decreases t, t.children.len() + 1,
{
    reveal_strlit("page");
    if !is_page_rule(t, off) {
        lemma_page_rule_from_targets_page(t, off, 0);
    }
}

/// `lemma_page_rule_targets_page` for the children of `t` from child `i` on.
proof fn lemma_page_rule_from_targets_page(t: SyntaxTree, off: int, i: int)
    ensures
        page_rule_from(t, off, i) matches Some((r, ro)) ==> (r.kind == NodeKind::SetRule && (first_kind_child(r, ro, NodeKind::Ident, 0) matches Some((id, _)) && id.text == "page"@)),
    decreases t, t.children.len() - i,
{
    if 0 <= i < t.children.len() {
        lemma_page_rule_targets_page(t.children[i], child_offset(t, off, i));
        lemma_page_rule_from_targets_page(t, off, i + 1);
    }
}

} // verus!
