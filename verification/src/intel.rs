//! Completion helpers: where the word under the cursor starts, whether the
//! cursor sits in a length parameter, and the refinement of the compiler's
//! raw completions (prefix filtering, plain apply texts, unit coaching).
use vstd::prelude::*;
use vstd::string::*;
use crate::args::find_char_from;
use crate::text::{
    ascii_lower, byte_len, char_is_alphanumeric, char_is_whitespace, chars_of, is_alphanumeric,
    is_ascii_text, is_white_space, lemma_prefix_boundary, lemma_text_prefix, lowercase, slice_checked, str_equal,
    string_of_range, text_slice, to_lowercase,
};

verus! {

broadcast use vstd::string::group_string_axioms;

/// A portable classification of completion options.
#[derive(Debug, Clone, Copy, PartialEq, Eq, Structural)]
pub enum CompletionKind {
    Func,
    Type,
    Param,
    Constant,
    Symbol,
    /// A coaching suggestion (a length with a unit).
    Unit,
    Text,
}

/// A pre-processed completion, ready for an editor.
#[derive(Debug, Clone)]
pub struct TypastryCompletion {
    pub label: String,
    pub apply: String,
    pub detail: Option<String>,
    pub kind: CompletionKind,
}

/// The classification of a raw completion from the compiler, as far as it
/// matters here; every other kind is `Other`.
#[derive(Debug, Clone, Copy, PartialEq, Eq, Structural)]
pub enum RawCompletionKind {
    Func,
    Type,
    Param,
    Constant,
    Symbol,
    Other,
}

/// A raw completion from the compiler: its label, the snippet it applies (if
/// it differs from the label), its documentation and its kind.
#[derive(Debug, Clone)]
pub struct RawCompletion {
    pub label: String,
    pub apply: Option<String>,
    pub detail: Option<String>,
    pub kind: RawCompletionKind,
}

/// The character at index `i`, if there is one (`Vec::get`).
pub open spec fn char_at(cs: Seq<char>, i: int) -> Option<char> {
    if 0 <= i < cs.len() {
        Some(cs[i])
    } else {
        None
    }
}

/// A character of a word the cursor may be completing.
pub open spec fn is_word_char(c: char) -> bool {
    is_alphanumeric(c) || c == '_' || c == '-' || c == '.'
}

/// The start of the word that ends at character index `w`.
pub open spec fn word_start(cs: Seq<char>, w: int) -> int
    decreases w,
{
    if w > 0 && w - 1 < cs.len() && is_word_char(cs[w - 1]) {
        word_start(cs, w - 1)
    } else {
        w
    }
}

/// The text before byte offset `cursor` (empty where the offset is past the
/// end or not a character boundary of the text).
pub open spec fn text_before(cs: Seq<char>, cursor: int) -> Seq<char> {
    match text_slice(cs, 0, cursor) {
        Some(p) => p,
        None => Seq::empty(),
    }
}

/// Where completion is triggered in `pre`, the text up to the cursor, as a
/// character index: the start of the word that ends at the cursor, or the `#`
/// just before that word, with whether it was a `#`.
pub open spec fn word_trigger(pre: Seq<char>) -> (int, bool) {
    let w = word_start(pre, pre.len() as int);
    if w > 0 && pre[w - 1] == '#' {
        (w - 1, true)
    } else {
        (w, false)
    }
}

/// Where completion is triggered for the cursor at byte offset `cursor`: the
/// byte offset of the start of the word before the cursor, or of the `#` just
/// before that word, with whether it was a `#`. A cursor past the end of the
/// text, or inside a character, has no word before it: the trigger is the
/// cursor itself.
pub open spec fn trigger_info(cs: Seq<char>, cursor: int) -> (int, bool) {
    match text_slice(cs, 0, cursor) {
        Some(pre) => {
            let t = word_trigger(pre);
            (byte_len(pre.take(t.0)) as int, t.1)
        },
        None => (cursor, false),
    }
}

fn word_char(c: char) -> (r: bool)
    ensures
        r == is_word_char(c),
{
    char_is_alphanumeric(c) || c == '_' || c == '-' || c == '.'
}

fn param_char(c: char) -> (r: bool)
    ensures
        r == is_param_char(c),
{
    char_is_alphanumeric(c) || c == '_' || c == '-'
}

/// The word trigger of a text, as a character index into its characters.
fn word_trigger_of(chars: &Vec<char>) -> (r: (usize, bool))
    ensures
        r.0 == word_trigger(chars@).0,
        r.1 == word_trigger(chars@).1,
        r.0 <= chars.len(),
        r.1 ==> r.0 < chars.len(),
{
    let mut w = chars.len();
    while w > 0 && word_char(chars[w - 1])
        invariant
            w <= chars.len(),
            word_start(chars@, chars.len() as int) == word_start(chars@, w as int),
        decreases w,
    {
        w = w - 1;
    }
    if w > 0 && chars[w - 1] == '#' {
        return (w - 1, true);
    }
    (w, false)
}

/// Scans backwards from the cursor (a byte offset) to the start of the word
/// being typed. Returns the byte offset of that start and whether a `#`
/// precedes the word (then the offset is that of the `#`); a cursor past the
/// end or inside a character is returned as it is, with `false`.
pub fn get_trigger_info(content: &str, cursor: usize) -> (r: (usize, bool))
    ensures
        r.0 == trigger_info(content@, cursor as int).0,
        r.1 == trigger_info(content@, cursor as int).1,
        r.0 <= cursor,
        text_slice(content@, 0, cursor as int) is Some ==> text_slice(content@, 0, r.0 as int) is Some,
{
    let pre = match slice_checked(content, 0, cursor) {
        Some(p) => p,
        None => {
            return (cursor, false);
        },
    };
    let chars = chars_of(pre);
    let (t, hash) = word_trigger_of(&chars);
    let head = string_of_range(&chars, 0, t);
    proof {
        lemma_text_prefix(content@, cursor as int);
        lemma_prefix_boundary(pre@, t as int);
        lemma_prefix_boundary(content@, t as int);
        assert(head@ =~= pre@.take(t as int));
        assert(pre@.take(t as int) =~= content@.take(t as int));
        vstd::utf8::encode_utf8_valid_utf8(content@);
    }
    (head.as_str().as_bytes().len(), hash)
}

/// `o` moved back over whitespace.
pub open spec fn skip_ws_back(cs: Seq<char>, o: int) -> int
    decreases o,
{
    if o > 0 && o - 1 < cs.len() && is_white_space(cs[o - 1]) {
        skip_ws_back(cs, o - 1)
    } else {
        o
    }
}

/// A character of a parameter name.
pub open spec fn is_param_char(c: char) -> bool {
    is_alphanumeric(c) || c == '_' || c == '-'
}

/// The start of the parameter name that ends at `o`.
pub open spec fn param_start(cs: Seq<char>, o: int) -> int
    decreases o,
{
    if o > 0 && o - 1 < cs.len() && is_param_char(cs[o - 1]) {
        param_start(cs, o - 1)
    } else {
        o
    }
}

/// The parameters that take a length.
pub open spec fn is_dimension_param(name: Seq<char>) -> bool {
    name == "size"@ || name == "margin"@ || name == "gap"@ || name == "gutter"@ || name == "width"@
        || name == "height"@ || name == "radius"@ || name == "stroke"@ || name == "inset"@
        || name == "outset"@ || name == "spacing"@
}

/// Whether character index `offset` follows `name:` (spaces allowed around the
/// colon) where `name` is a parameter that takes a length.
pub open spec fn dimension_context(cs: Seq<char>, offset: int) -> bool {
    let o1 = skip_ws_back(cs, offset);
    if o1 == 0 || char_at(cs, o1 - 1) != Some(':') {
        false
    } else {
        let o2 = skip_ws_back(cs, o1 - 1);
        let ps = param_start(cs, o2);
        ps < o2 && is_dimension_param(cs.subrange(ps, o2))
    }
}

/// Detects whether the parameter before `offset` (a character index) expects
/// a physical dimension, such as `size:` or `margin:`.
pub fn is_physical_dimension_context(content: &str, offset: usize) -> (r: bool)
    ensures
        r == dimension_context(content@, offset as int),
{
    let chars = chars_of(content);
    let mut o = offset;
    while o > 0 && o - 1 < chars.len() && char_is_whitespace(chars[o - 1])
        invariant
            chars@ == content@,
            skip_ws_back(content@, offset as int) == skip_ws_back(content@, o as int),
        decreases o,
    {
        o = o - 1;
    }
    if o == 0 || !(o - 1 < chars.len() && chars[o - 1] == ':') {
        return false;
    }
    let ghost o1 = o;
    o = o - 1;
    while o > 0 && o - 1 < chars.len() && char_is_whitespace(chars[o - 1])
        invariant
            chars@ == content@,
            skip_ws_back(content@, o1 - 1) == skip_ws_back(content@, o as int),
            o < chars.len(),
        decreases o,
    {
        o = o - 1;
    }
    let mut p = o;
    while p > 0 && p - 1 < chars.len() && param_char(chars[p - 1])
        invariant
            chars@ == content@,
            p <= o,
            o < chars.len(),
            param_start(content@, o as int) == param_start(content@, p as int),
        decreases p,
    {
        p = p - 1;
    }
    if p < o {
        let name = string_of_range(&chars, p, o);
        let n = name.as_str();
        proof {
            reveal_strlit("size");
        }
        str_equal(n, "size") || str_equal(n, "margin") || str_equal(n, "gap") || str_equal(
            n,
            "gutter",
        ) || str_equal(n, "width") || str_equal(n, "height") || str_equal(n, "radius")
            || str_equal(n, "stroke") || str_equal(n, "inset") || str_equal(n, "outset")
            || str_equal(n, "spacing")
    } else {
        false
    }
}

/// An ASCII digit.
pub open spec fn is_digit(c: char) -> bool {
    '0' <= c && c <= '9'
}

/// Only ASCII digits.
pub open spec fn all_digits(s: Seq<char>) -> bool {
    forall|i: int| 0 <= i < s.len() ==> is_digit(#[trigger] s[i])
}

/// `s` equals the lowercase word `lit` up to ASCII case.
pub open spec fn eq_ignore_ascii_case(s: Seq<char>, lit: Seq<char>) -> bool {
    s.len() == lit.len() && forall|i: int| 0 <= i < s.len() ==> ascii_lower(#[trigger] s[i]) == lit[i]
}

/// `s` without one leading `+` or `-`.
pub open spec fn strip_sign(s: Seq<char>) -> Seq<char> {
    if s.len() > 0 && (s[0] == '+' || s[0] == '-') {
        s.drop_first()
    } else {
        s
    }
}

/// Digits with at most one `.` and at least one digit.
pub open spec fn is_mantissa(m: Seq<char>) -> bool {
    match find_char_from(m, '.', 0) {
        None => m.len() > 0 && all_digits(m),
        Some(i) => all_digits(m.take(i)) && all_digits(m.skip(i + 1)) && m.len() >= 2,
    }
}

/// An optional sign followed by at least one digit.
pub open spec fn is_exponent(x: Seq<char>) -> bool {
    strip_sign(x).len() > 0 && all_digits(strip_sign(x))
}

/// The index of the first `e` or `E` at or after `i`.
pub open spec fn find_exp(s: Seq<char>, i: int) -> Option<int>
    decreases s.len() - i,
{
    if i < 0 || i >= s.len() {
        None
    } else if s[i] == 'e' || s[i] == 'E' {
        Some(i)
    } else {
        find_exp(s, i + 1)
    }
}

/// A mantissa with an optional exponent after `e` or `E`.
pub open spec fn is_decimal_number(b: Seq<char>) -> bool {
    match find_exp(b, 0) {
        None => is_mantissa(b),
        Some(i) => is_mantissa(b.take(i)) && is_exponent(b.skip(i + 1)),
    }
}

/// The texts `str::parse::<f64>` accepts, as its documentation gives them:
/// an optional sign, then `inf`, `infinity` or `nan` (in any ASCII case), or a
/// decimal number with an optional exponent.
pub open spec fn is_float_literal(s: Seq<char>) -> bool {
    let b = strip_sign(s);
    eq_ignore_ascii_case(b, seq!['i', 'n', 'f']) || eq_ignore_ascii_case(
        b,
        seq!['i', 'n', 'f', 'i', 'n', 'i', 't', 'y'],
    ) || eq_ignore_ascii_case(b, seq!['n', 'a', 'n']) || is_decimal_number(b)
}

fn lower_ascii_eq(c: char, l: char) -> (r: bool)
    ensures
        r == (ascii_lower(c) == l),
{
    if 'A' <= c && c <= 'Z' {
        (c as u32) + 32 == (l as u32)
    } else {
        c == l
    }
}

fn eq_ignore_case_range(cs: &Vec<char>, lo: usize, lit: &Vec<char>) -> (r: bool)
    requires
        lo <= cs.len(),
    ensures
        r == eq_ignore_ascii_case(cs@.skip(lo as int), lit@),
{
    if cs.len() - lo != lit.len() {
        return false;
    }
    let mut i: usize = 0;
    while i < lit.len()
        invariant
            lo <= cs.len(),
            cs.len() - lo == lit.len(),
            0 <= i <= lit.len(),
            forall|j: int| 0 <= j < i ==> ascii_lower(#[trigger] cs@.skip(lo as int)[j]) == lit@[j],
        decreases lit.len() - i,
    {
        if !lower_ascii_eq(cs[lo + i], lit[i]) {
            assert(cs@.skip(lo as int)[i as int] == cs@[lo + i]);
            return false;
        }
        i = i + 1;
    }
    true
}

fn digits_range(cs: &Vec<char>, lo: usize, hi: usize) -> (r: bool)
    requires
        lo <= hi <= cs.len(),
    ensures
        r == all_digits(cs@.subrange(lo as int, hi as int)),
{
    let mut i = lo;
    while i < hi
        invariant
            lo <= i <= hi <= cs.len(),
            forall|j: int| lo <= j < i ==> is_digit(#[trigger] cs@[j]),
        decreases hi - i,
    {
        if !('0' <= cs[i] && cs[i] <= '9') {
            assert(cs@.subrange(lo as int, hi as int)[i - lo] == cs@[i as int]);
            return false;
        }
        i = i + 1;
    }
    assert forall|j: int| 0 <= j < hi - lo implies is_digit(#[trigger] cs@.subrange(lo as int, hi as int)[j]) by {
        assert(cs@.subrange(lo as int, hi as int)[j] == cs@[lo + j]);
    }
    true
}

fn mantissa_range(cs: &Vec<char>, lo: usize, hi: usize) -> (r: bool)
    requires
        lo <= hi <= cs.len(),
    ensures
        r == is_mantissa(cs@.subrange(lo as int, hi as int)),
{
    let ghost m = cs@.subrange(lo as int, hi as int);
    let mut i = lo;
    while i < hi
        invariant
            lo <= i <= hi <= cs.len(),
            m == cs@.subrange(lo as int, hi as int),
            find_char_from(m, '.', 0) == find_char_from(m, '.', i - lo),
        decreases hi - i,
    {
        if cs[i] == '.' {
            assert(m[i - lo] == '.');
            assert(m.take(i - lo) =~= cs@.subrange(lo as int, i as int));
            assert(m.skip(i - lo + 1) =~= cs@.subrange(i + 1, hi as int));
            return digits_range(cs, lo, i) && digits_range(cs, i + 1, hi) && hi - lo >= 2;
        }
        i = i + 1;
    }
    hi > lo && digits_range(cs, lo, hi)
}

/// Whether `str::parse::<f64>` accepts the text (by the grammar its
/// documentation gives).
pub fn is_float_literal_str(s: &str) -> (r: bool)
    ensures
        r == is_float_literal(s@),
{
    let cs = chars_of(s);
    let n = cs.len();
    let lo: usize = if n > 0 && (cs[0] == '+' || cs[0] == '-') {
        1
    } else {
        0
    };
    assert(strip_sign(s@) =~= cs@.skip(lo as int));
    let inf = vec!['i', 'n', 'f'];
    let infinity = vec!['i', 'n', 'f', 'i', 'n', 'i', 't', 'y'];
    let nan = vec!['n', 'a', 'n'];
    assert(inf@ =~= seq!['i', 'n', 'f']);
    assert(infinity@ =~= seq!['i', 'n', 'f', 'i', 'n', 'i', 't', 'y']);
    assert(nan@ =~= seq!['n', 'a', 'n']);
    if eq_ignore_case_range(&cs, lo, &inf) || eq_ignore_case_range(&cs, lo, &infinity)
        || eq_ignore_case_range(&cs, lo, &nan) {
        return true;
    }
    let ghost b = cs@.skip(lo as int);
    let mut i = lo;
    while i < n
        invariant
            lo <= i <= n,
            n == cs.len(),
            cs@ == s@,
            strip_sign(s@) == b,
            b == cs@.skip(lo as int),
            find_exp(b, 0) == find_exp(b, i - lo),
        decreases n - i,
    {
        if cs[i] == 'e' || cs[i] == 'E' {
            assert(b[i - lo] == cs@[i as int]);
            assert(b.take(i - lo) =~= cs@.subrange(lo as int, i as int));
            let ghost x = b.skip(i - lo + 1);
            assert(x =~= cs@.subrange(i + 1, n as int));
            assert(x.len() > 0 ==> x[0] == cs@[i + 1]);
            assert(find_exp(b, i - lo) == Some(i - lo));
            let mut es = i + 1;
            if es < n && (cs[es] == '+' || cs[es] == '-') {
                es = es + 1;
            }
            assert(strip_sign(x) =~= cs@.subrange(es as int, n as int));
            let r1 = mantissa_range(&cs, lo, i);
            let r2 = es < n && digits_range(&cs, es, n);
            return r1 && r2;
        }
        i = i + 1;
    }
    assert(b =~= cs@.subrange(lo as int, n as int));
    mantissa_range(&cs, lo, n)
}

/// `chars().skip(start).take(n)`.
pub open spec fn skip_take(cs: Seq<char>, start: int, n: int) -> Seq<char> {
    if start >= cs.len() {
        Seq::empty()
    } else if start + n <= cs.len() {
        cs.subrange(start, start + n)
    } else {
        cs.subrange(start, cs.len() as int)
    }
}

/// The lowercased text typed since the completion trigger (after its `#`)
/// up to the cursor at byte offset `cursor`.
pub open spec fn typed_prefix(cs: Seq<char>, cursor: int) -> Seq<char> {
    let pre = text_before(cs, cursor);
    let t = word_trigger(pre);
    let start = if t.1 {
        t.0 + 1
    } else {
        t.0
    };
    lowercase(pre.subrange(start, pre.len() as int))
}

/// `s` starts with `p`.
pub open spec fn starts_with(s: Seq<char>, p: Seq<char>) -> bool {
    p.len() <= s.len() && s.take(p.len() as int) == p
}

/// `str::replace`: every non-overlapping occurrence of `pat`, from the left,
/// replaced by `rep`.
pub open spec fn replace_all(s: Seq<char>, pat: Seq<char>, rep: Seq<char>) -> Seq<char>
    decreases s.len(),
{
    if s.len() == 0 {
        Seq::empty()
    } else if pat.len() > 0 && starts_with(s, pat) {
        rep + replace_all(s.skip(pat.len() as int), pat, rep)
    } else {
        seq![s[0]] + replace_all(s.drop_first(), pat, rep)
    }
}

/// The plain apply text of a snippet: a call becomes `name()`, and the
/// placeholders `${}` and `${1:}` are dropped.
pub open spec fn plain_apply(raw: Seq<char>) -> Seq<char> {
    match find_char_from(raw, '(', 0) {
        Some(i) => raw.take(i) + "()"@,
        None => replace_all(replace_all(raw, "${}"@, ""@), "${1:}"@, ""@),
    }
}

/// The completion kind for a raw completion kind.
pub open spec fn kind_of(k: RawCompletionKind) -> CompletionKind {
    match k {
        RawCompletionKind::Func => CompletionKind::Func,
        RawCompletionKind::Type => CompletionKind::Type,
        RawCompletionKind::Param => CompletionKind::Param,
        RawCompletionKind::Constant => CompletionKind::Constant,
        RawCompletionKind::Symbol => CompletionKind::Symbol,
        RawCompletionKind::Other => CompletionKind::Text,
    }
}

/// A completion as plain values.
pub struct CompletionView {
    pub label: Seq<char>,
    pub apply: Seq<char>,
    pub detail: Option<Seq<char>>,
    pub kind: CompletionKind,
}

/// The text of an optional string.
pub open spec fn opt_view(o: Option<String>) -> Option<Seq<char>> {
    match o {
        Some(s) => Some(s@),
        None => None,
    }
}

impl TypastryCompletion {
    pub open spec fn view_plain(&self) -> CompletionView {
        CompletionView {
            label: self.label@,
            apply: self.apply@,
            detail: opt_view(self.detail),
            kind: self.kind,
        }
    }
}

/// The plain values of completions.
pub open spec fn completion_views(v: Seq<TypastryCompletion>) -> Seq<CompletionView> {
    v.map_values(|c: TypastryCompletion| c.view_plain())
}

/// A raw completion turned into an editor completion.
pub open spec fn refined(c: RawCompletion) -> CompletionView {
    let raw_apply = match c.apply {
        Some(a) => a@,
        None => c.label@,
    };
    CompletionView {
        label: c.label@,
        apply: plain_apply(raw_apply),
        detail: opt_view(c.detail),
        kind: kind_of(c.kind),
    }
}

/// The raw completions whose lowercased label starts with `prefix` (all of
/// them when it is empty), refined, in order.
pub open spec fn refined_list(raws: Seq<RawCompletion>, prefix: Seq<char>) -> Seq<CompletionView>
    decreases raws.len(),
{
    if raws.len() == 0 {
        Seq::empty()
    } else {
        let rest = refined_list(raws.drop_last(), prefix);
        if prefix.len() == 0 || starts_with(lowercase(raws.last().label@), prefix) {
            rest.push(refined(raws.last()))
        } else {
            rest
        }
    }
}

/// A coaching suggestion: the typed number with a unit.
pub open spec fn unit_suggestion(prefix: Seq<char>, unit: Seq<char>) -> CompletionView {
    CompletionView {
        label: prefix + unit,
        apply: prefix + unit,
        detail: Some("Coaching: Insert explicit length ("@ + unit + ")"@),
        kind: CompletionKind::Unit,
    }
}

/// What `enhance_completions` returns: the refined completions, preceded by
/// unit suggestions (`mm`, `cm`, `em`, `pt`, in that order) when the typed
/// text is a number in a length parameter.
pub open spec fn enhanced(cs: Seq<char>, cursor: int, raws: Seq<RawCompletion>) -> Seq<CompletionView> {
    let p = typed_prefix(cs, cursor);
    let base = refined_list(raws, p);
    if p.len() > 0 && dimension_context(text_before(cs, cursor), word_trigger(text_before(cs, cursor)).0)
        && is_float_literal(p) {
        seq![
            unit_suggestion(p, "mm"@),
            unit_suggestion(p, "cm"@),
            unit_suggestion(p, "em"@),
            unit_suggestion(p, "pt"@),
        ] + base
    } else {
        base
    }
}

pub(crate) fn starts_with_str(s: &str, p: &str) -> (r: bool)
    ensures
        r == starts_with(s@, p@),
{
    let a = chars_of(s);
    let b = chars_of(p);
    if b.len() > a.len() {
        return false;
    }
    let mut i: usize = 0;
    while i < b.len()
        invariant
            a@ == s@,
            b@ == p@,
            b.len() <= a.len(),
            0 <= i <= b.len(),
            forall|j: int| 0 <= j < i ==> a@[j] == b@[j],
        decreases b.len() - i,
    {
        if a[i] != b[i] {
            assert(s@.take(p@.len() as int)[i as int] != p@[i as int]);
            return false;
        }
        i = i + 1;
    }
    assert(s@.take(p@.len() as int) =~= p@);
    true
}

/// `str::replace`.
pub fn replace_str(s: &str, pat: &str, rep: &str) -> (r: String)
    ensures
        r@ == replace_all(s@, pat@, rep@),
{
    let cs = chars_of(s);
    let ps = chars_of(pat);
    let n = cs.len();
    let m = ps.len();
    let mut out = String::new();
    let mut i: usize = 0;
    assert(s@.skip(0) =~= s@);
    assert(out@ + replace_all(s@.skip(0), pat@, rep@) =~= replace_all(s@, pat@, rep@));
    while i < n
        invariant
            cs@ == s@,
            ps@ == pat@,
            n == cs.len(),
            m == ps.len(),
            0 <= i <= n,
            out@ + replace_all(s@.skip(i as int), pat@, rep@) == replace_all(s@, pat@, rep@),
        decreases n - i,
    {
        let ghost rest = s@.skip(i as int);
        let mut hit = false;
        if m > 0 && m <= n - i {
            let mut j: usize = 0;
            while j < m && cs[i + j] == ps[j]
                invariant
                    cs@ == s@,
                    ps@ == pat@,
                    n == cs.len(),
                    m == ps.len(),
                    m <= n - i,
                    0 <= j <= m,
                    forall|q: int| 0 <= q < j ==> cs@[i + q] == ps@[q],
                decreases m - j,
            {
                j = j + 1;
            }
            hit = j == m;
            if !hit {
                assert(rest.take(m as int)[j as int] == cs@[i + j]);
            }
        }
        if hit {
            assert(rest.take(m as int) =~= pat@);
            assert(rest.skip(m as int) =~= s@.skip(i + m));
            out.append(rep);
            i = i + m;
        } else {
            assert(rest.drop_first() =~= s@.skip(i + 1));
            proof {
                assert(rest[0] == cs@[i as int]);
            }
            crate::text::push_char(&mut out, cs[i]);
            i = i + 1;
        }
    }
    proof {
        assert(s@.skip(i as int).len() == 0);
    }
    out
}

fn plain_apply_text(raw: &str) -> (r: String)
    ensures
        r@ == plain_apply(raw@),
{
    let cs = chars_of(raw);
    let mut i: usize = 0;
    while i < cs.len()
        invariant
            cs@ == raw@,
            0 <= i <= cs.len(),
            find_char_from(raw@, '(', 0) == find_char_from(raw@, '(', i as int),
        decreases cs.len() - i,
    {
        if cs[i] == '(' {
            let mut base = string_of_range(&cs, 0, i);
            base.append("()");
            assert(cs@.subrange(0, i as int) =~= raw@.take(i as int));
            return base;
        }
        i = i + 1;
    }
    let a = replace_str(raw, "${}", "");
    replace_str(a.as_str(), "${1:}", "")
}

fn clone_opt(o: &Option<String>) -> (r: Option<String>)
    ensures
        opt_view(r) == opt_view(*o),
{
    match o {
        Some(s) => Some(s.clone()),
        None => None,
    }
}

fn refine(c: &RawCompletion) -> (r: TypastryCompletion)
    ensures
        r.view_plain() == refined(*c),
{
    let label = c.label.clone();
    let raw_apply = match &c.apply {
        Some(a) => a.clone(),
        None => c.label.clone(),
    };
    let apply = plain_apply_text(raw_apply.as_str());
    let kind = match c.kind {
        RawCompletionKind::Func => CompletionKind::Func,
        RawCompletionKind::Type => CompletionKind::Type,
        RawCompletionKind::Param => CompletionKind::Param,
        RawCompletionKind::Constant => CompletionKind::Constant,
        RawCompletionKind::Symbol => CompletionKind::Symbol,
        RawCompletionKind::Other => CompletionKind::Text,
    };
    TypastryCompletion { label, apply, detail: clone_opt(&c.detail), kind }
}

fn unit_completion(prefix: &str, unit: &str) -> (r: TypastryCompletion)
    ensures
        r.view_plain() == unit_suggestion(prefix@, unit@),
{
    let mut label = String::from_str(prefix);
    label.append(unit);
    let mut apply = String::from_str(prefix);
    apply.append(unit);
    let mut detail = String::from_str("Coaching: Insert explicit length (");
    detail.append(unit);
    detail.append(")");
    TypastryCompletion { label, apply, detail: Some(detail), kind: CompletionKind::Unit }
}

/// Refines the compiler's raw completions for the cursor (a byte offset):
/// keeps those whose lowercased label starts with the lowercased text typed
/// since the trigger, simplifies their apply texts, and, when that text is a
/// number typed into a length parameter, puts unit suggestions first. Past the
/// end of the text or inside a character nothing counts as typed.
pub fn enhance_completions(content: &str, cursor_index: usize, raw_completions: &Vec<RawCompletion>) -> (r: Vec<TypastryCompletion>)
    ensures
        completion_views(r@) == enhanced(content@, cursor_index as int, raw_completions@),
{
    proof {
        reveal_strlit("");
    }
    let pre = match slice_checked(content, 0, cursor_index) {
        Some(p) => p,
        None => "",
    };
    let chars = chars_of(pre);
    let (trig, hash) = word_trigger_of(&chars);
    let start = if hash {
        trig + 1
    } else {
        trig
    };
    let typed = string_of_range(&chars, start, chars.len());
    let prefix = to_lowercase(typed.as_str());
    assert(prefix@ =~= typed_prefix(content@, cursor_index as int));
    let mut results: Vec<TypastryCompletion> = Vec::new();
    let mut i: usize = 0;
    while i < raw_completions.len()
        invariant
            0 <= i <= raw_completions.len(),
            prefix@ == typed_prefix(content@, cursor_index as int),
            completion_views(results@) == refined_list(raw_completions@.take(i as int), prefix@),
        decreases raw_completions.len() - i,
    {
        let c = &raw_completions[i];
        assert(raw_completions@.take(i + 1).drop_last() =~= raw_completions@.take(i as int));
        assert(raw_completions@.take(i + 1).last() == *c);
        let keep = prefix.as_str().is_empty() || {
            let low = to_lowercase(c.label.as_str());
            starts_with_str(low.as_str(), prefix.as_str())
        };
        if keep {
            let ghost before = results@;
            results.push(refine(c));
            assert(completion_views(results@) =~= completion_views(before).push(refined(*c)));
        }
        i = i + 1;
    }
    assert(raw_completions@.take(raw_completions.len() as int) =~= raw_completions@);
    if !prefix.as_str().is_empty() && is_physical_dimension_context(pre, trig)
        && is_float_literal_str(prefix.as_str()) {
        let units = ["pt", "em", "cm", "mm"];
        let mut k: usize = 0;
        while k < 4
            invariant
                0 <= k <= 4,
                units@ == seq!["pt", "em", "cm", "mm"],
                completion_views(results@) == (if k == 0 {
                    Seq::empty()
                } else if k == 1 {
                    seq![unit_suggestion(prefix@, "pt"@)]
                } else if k == 2 {
                    seq![unit_suggestion(prefix@, "em"@), unit_suggestion(prefix@, "pt"@)]
                } else if k == 3 {
                    seq![
                        unit_suggestion(prefix@, "cm"@),
                        unit_suggestion(prefix@, "em"@),
                        unit_suggestion(prefix@, "pt"@),
                    ]
                } else {
                    seq![
                        unit_suggestion(prefix@, "mm"@),
                        unit_suggestion(prefix@, "cm"@),
                        unit_suggestion(prefix@, "em"@),
                        unit_suggestion(prefix@, "pt"@),
                    ]
                }) + refined_list(raw_completions@, prefix@),
            decreases 4 - k,
        {
            let ghost before = results@;
            let u = unit_completion(prefix.as_str(), units[k]);
            results.insert(0, u);
            assert(completion_views(results@) =~= seq![u.view_plain()] + completion_views(before));
            k = k + 1;
        }
    }
    results
}

/// Every refined completion matches what was typed: its lowercased label
/// starts with the typed prefix (any label does when nothing was typed).
pub proof fn lemma_refined_match_prefix(raws: Seq<RawCompletion>, prefix: Seq<char>)
    ensures
        forall|i: int| 0 <= i < refined_list(raws, prefix).len() ==> prefix.len() == 0 || starts_with(
            lowercase(#[trigger] refined_list(raws, prefix)[i].label),
            prefix,
        ),
        refined_list(raws, prefix).len() <= raws.len(),
    decreases raws.len(),
{
    if raws.len() > 0 {
        lemma_refined_match_prefix(raws.drop_last(), prefix);
        let rest = refined_list(raws.drop_last(), prefix);
        assert forall|i: int| 0 <= i < refined_list(raws, prefix).len() implies prefix.len() == 0 || starts_with(
            lowercase(#[trigger] refined_list(raws, prefix)[i].label),
            prefix,
        ) by {
            if i < rest.len() {
                assert(refined_list(raws, prefix)[i] == rest[i]);
            }
        }
    }
}

/// With nothing typed, every raw completion is offered, in order.
pub proof fn lemma_refined_keeps_all(raws: Seq<RawCompletion>)
    ensures
        refined_list(raws, Seq::empty()) == raws.map_values(|c: RawCompletion| refined(c)),
    decreases raws.len(),
{
    if raws.len() > 0 {
        lemma_refined_keeps_all(raws.drop_last());
        assert(raws.map_values(|c: RawCompletion| refined(c)) =~= raws.drop_last().map_values(
            |c: RawCompletion| refined(c),
        ).push(refined(raws.last())));
    } else {
        assert(raws.map_values(|c: RawCompletion| refined(c)) =~= Seq::<CompletionView>::empty());
    }
}

/// Unit suggestions are offered only for a number typed into a length
/// parameter, and then come first, one per unit.
pub proof fn lemma_units_first(cs: Seq<char>, cursor: int, raws: Seq<RawCompletion>)
    ensures
        ({
            let p = typed_prefix(cs, cursor);
            let pre = text_before(cs, cursor);
            let coached = p.len() > 0 && dimension_context(pre, word_trigger(pre).0) && is_float_literal(p);
            &&& coached ==> enhanced(cs, cursor, raws).len() == refined_list(raws, p).len() + 4
            &&& coached ==> forall|i: int| 0 <= i < 4 ==> (#[trigger] enhanced(cs, cursor, raws)[i]).kind == CompletionKind::Unit
            &&& !coached ==> enhanced(cs, cursor, raws) == refined_list(raws, p)
        }),
{
}

/// `param_start` goes back over a run of parameter characters to the first
/// character that is not one.
proof fn lemma_param_start_over(cs: Seq<char>, lo: int, hi: int)
    requires
        0 <= lo <= hi <= cs.len(),
        forall|i: int| lo <= i < hi ==> is_param_char(#[trigger] cs[i]),
        lo == 0 || !is_param_char(cs[lo - 1]),
    ensures
        param_start(cs, hi) == lo,
    decreases hi,
{
    if hi > lo {
        lemma_param_start_over(cs, lo, hi - 1);
    }
}

/// `word_start` goes back over a run of word characters to the first
/// character that is not one.
proof fn lemma_word_start_over(cs: Seq<char>, lo: int, hi: int)
    requires
        0 <= lo <= hi <= cs.len(),
        forall|i: int| lo <= i < hi ==> is_word_char(#[trigger] cs[i]),
        lo == 0 || !is_word_char(cs[lo - 1]),
    ensures
        word_start(cs, hi) == lo,
    decreases hi,
{
    if hi > lo {
        lemma_word_start_over(cs, lo, hi - 1);
    }
}

/// One of the parameters that take a length, as the editor lists them.
pub open spec fn listed_length_parameter(name: Seq<char>) -> bool {
    ||| name == "size"@
    ||| name == "margin"@
    ||| name == "gap"@
    ||| name == "gutter"@
    ||| name == "width"@
    ||| name == "height"@
    ||| name == "radius"@
    ||| name == "stroke"@
    ||| name == "inset"@
    ||| name == "outset"@
    ||| name == "spacing"@
}

/// The listed length parameters are made of lowercase ASCII letters.
proof fn lemma_length_parameter_letters(name: Seq<char>)
    requires
        listed_length_parameter(name),
    ensures
        name.len() > 0,
        forall|i: int| 0 <= i < name.len() ==> 'a' <= #[trigger] name[i] && name[i] <= 'z',
{
    reveal_strlit("size");
    reveal_strlit("margin");
    reveal_strlit("gap");
    reveal_strlit("gutter");
    reveal_strlit("width");
    reveal_strlit("height");
    reveal_strlit("radius");
    reveal_strlit("stroke");
    reveal_strlit("inset");
    reveal_strlit("outset");
    reveal_strlit("spacing");
}

/// Right after `name: `, where `name` is one of size, margin, gap, gutter,
/// width, height, radius, stroke, inset, outset or spacing (and not the end of
/// a longer name), a length is expected, whatever follows.
pub proof fn lemma_length_parameters_expect_lengths(p: Seq<char>, name: Seq<char>, rest: Seq<char>)
    requires
        listed_length_parameter(name),
        p.len() == 0 || !is_param_char(p.last()),
    ensures
        dimension_context(p + name + ": "@ + rest, (p.len() + name.len() + 2) as int),
{
    reveal_strlit(": ");
    lemma_length_parameter_letters(name);
    let cs = p + name + ": "@ + rest;
    let n = p.len() as int;
    let m = name.len() as int;
    let o = n + m + 2;
    assert(cs[o - 1] == ' ');
    assert(cs[o - 2] == ':');
    assert forall|i: int| n <= i < n + m implies is_param_char(#[trigger] cs[i]) && !is_white_space(cs[i]) by {
        assert(cs[i] == name[i - n]);
    }
    if n > 0 {
        assert(cs[n - 1] == p.last());
    }
    assert(is_white_space(' '));
    assert(!is_white_space(':'));
    assert(skip_ws_back(cs, o - 1) == o - 1);
    assert(skip_ws_back(cs, o) == o - 1);
    assert(skip_ws_back(cs, n + m) == n + m);
    lemma_param_start_over(cs, n, n + m);
    assert(cs.subrange(n, n + m) =~= name);
}

/// No occurrence of `c` at or after `i`: `find_char_from` finds none.
proof fn lemma_find_char_none(s: Seq<char>, c: char, i: int)
    requires
        0 <= i,
        forall|j: int| i <= j < s.len() ==> #[trigger] s[j] != c,
    ensures
        find_char_from(s, c, i) is None,
    decreases s.len() - i,
{
    if i < s.len() {
        lemma_find_char_none(s, c, i + 1);
    }
}

/// No `e` or `E` at or after `i`: `find_exp` finds none.
proof fn lemma_find_exp_none(s: Seq<char>, i: int)
    requires
        0 <= i,
        forall|j: int| i <= j < s.len() ==> #[trigger] s[j] != 'e' && s[j] != 'E',
    ensures
        find_exp(s, i) is None,
    decreases s.len() - i,
{
    if i < s.len() {
        lemma_find_exp_none(s, i + 1);
    }
}

/// A number typed right after `name: `, where `name` is one of the length
/// parameters, gets the four unit suggestions first (`mm`, `cm`, `em`, `pt`,
/// each the number with the unit), then the matching completions.
pub proof fn lemma_numbers_in_length_parameters_get_units(
    p: Seq<char>,
    name: Seq<char>,
    d: Seq<char>,
    raws: Seq<RawCompletion>,
)
    requires
        listed_length_parameter(name),
        p.len() == 0 || !is_param_char(p.last()),
        d.len() > 0,
        forall|i: int| 0 <= i < d.len() ==> '0' <= #[trigger] d[i] && d[i] <= '9',
    ensures
        ({
            let content = p + name + ": "@ + d;
            enhanced(content, byte_len(content) as int, raws) == seq![
                unit_suggestion(d, "mm"@),
                unit_suggestion(d, "cm"@),
                unit_suggestion(d, "em"@),
                unit_suggestion(d, "pt"@),
            ] + refined_list(raws, d)
        }),
{
    reveal_strlit(": ");
    let content = p + name + ": "@ + d;
    let e = Seq::<char>::empty();
    crate::text::lemma_slice_of_concat(e, content, e);
    assert(e + content + e =~= content);
    assert(vstd::utf8::encode_utf8(e) =~= Seq::<u8>::empty());
    assert(text_slice(content, 0, byte_len(content) as int) == Some(content));
    assert(text_before(content, byte_len(content) as int) == content);
    let w = (p.len() + name.len() + 2) as int;
    assert forall|i: int| w <= i < content.len() implies is_word_char(#[trigger] content[i]) by {
        assert(content[i] == d[i - w]);
    }
    assert(content[w - 1] == ' ');
    lemma_word_start_over(content, w, content.len() as int);
    assert(word_trigger(content) == (w, false));
    let typed = content.subrange(w, content.len() as int);
    assert(typed =~= d);
    assert(is_ascii_text(d));
    assert(d.map_values(|c: char| ascii_lower(c)) =~= d);
    assert(typed_prefix(content, byte_len(content) as int) == d);
    // the number is a float literal
    assert(strip_sign(d) == d);
    lemma_find_exp_none(d, 0);
    lemma_find_char_none(d, '.', 0);
    assert(is_float_literal(d));
    lemma_length_parameters_expect_lengths(p, name, d);
}

} // verus!
