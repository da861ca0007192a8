//! Text primitives: character classes, lowercasing, byte offsets and slicing.
use vstd::prelude::*;
use vstd::utf8::*;
use vstd::string::*;

verus! {

broadcast use vstd::string::group_string_axioms;

/// `char::is_whitespace` on characters outside ASCII (the Unicode
/// `White_Space` property).
pub uninterp spec fn unicode_white_space(c: char) -> bool;

/// `char::is_alphanumeric` on characters outside ASCII (Unicode `Alphabetic`
/// or `Numeric`).
pub uninterp spec fn unicode_alphanumeric(c: char) -> bool;

/// `char::is_whitespace`: on ASCII, tab through carriage return and space.
pub open spec fn is_white_space(c: char) -> bool {
    if (c as u32) < 128 {
        is_ascii_white_space(c)
    } else {
        unicode_white_space(c)
    }
}

/// `char::is_alphanumeric`: on ASCII, the letters and digits.
pub open spec fn is_alphanumeric(c: char) -> bool {
    if (c as u32) < 128 {
        is_ascii_alphanumeric(c)
    } else {
        unicode_alphanumeric(c)
    }
}

/// `str::to_lowercase` on text that is not all ASCII (the Unicode lowercase
/// mapping, under which a character may become several).
pub uninterp spec fn unicode_lowercase(s: Seq<char>) -> Seq<char>;

/// ASCII uppercase letters mapped to lowercase, other characters kept.
pub open spec fn ascii_lower(c: char) -> char {
    if 'A' <= c && c <= 'Z' {
        ((c as u32) + 32) as char
    } else {
        c
    }
}

/// Only ASCII characters.
pub open spec fn is_ascii_text(s: Seq<char>) -> bool {
    forall|i: int| 0 <= i < s.len() ==> (#[trigger] s[i] as u32) < 128
}

/// `str::to_lowercase`: on ASCII text each uppercase letter becomes its
/// lowercase letter and every other character stays; other text gets the
/// Unicode lowercase mapping.
pub open spec fn lowercase(s: Seq<char>) -> Seq<char> {
    if is_ascii_text(s) {
        s.map_values(|c: char| ascii_lower(c))
    } else {
        unicode_lowercase(s)
    }
}

/// The ASCII whitespace characters: tab, line feed, vertical tab, form feed,
/// carriage return and space.
pub open spec fn is_ascii_white_space(c: char) -> bool {
    c == ' ' || ('\t' <= c && c <= '\r')
}

/// ASCII letters and digits.
pub open spec fn is_ascii_alphanumeric(c: char) -> bool {
    ('a' <= c && c <= 'z') || ('A' <= c && c <= 'Z') || ('0' <= c && c <= '9')
}

/// Calls `char::is_whitespace`. Claimed: the result is the character's
/// `White_Space` property, which on ASCII holds of exactly tab through carriage
/// return and space (what is true off ASCII is left unnamed).
#[verifier::external_body]
pub(crate) fn char_is_whitespace(c: char) -> (r: bool)
    ensures
        r == is_white_space(c),
        (c as u32) >= 128 ==> r == unicode_white_space(c),
{
    c.is_whitespace()
}

/// Calls `char::is_alphanumeric`. Claimed: the result is the character's
/// `Alphabetic`-or-`Numeric` property, which on ASCII holds of exactly the
/// letters and digits (what is true off ASCII is left unnamed).
#[verifier::external_body]
pub(crate) fn char_is_alphanumeric(c: char) -> (r: bool)
    ensures
        r == is_alphanumeric(c),
        (c as u32) >= 128 ==> r == unicode_alphanumeric(c),
{
    c.is_alphanumeric()
}

/// Calls `str::to_lowercase`. Claimed: on ASCII text the result maps `A`-`Z`
/// to `a`-`z` and keeps every other character; on other text it is the
/// Unicode lowercase mapping of the text, which is left unnamed beyond that.
#[verifier::external_body]
pub(crate) fn to_lowercase(s: &str) -> (r: String)
    ensures
        r@ == lowercase(s@),
        !is_ascii_text(s@) ==> r@ == unicode_lowercase(s@),
{
    s.to_lowercase()
}

/// Calls `String::push`. Claimed: the character is appended.
#[verifier::external_body]
pub(crate) fn push_char(s: &mut String, c: char)
    ensures
        final(s)@ == old(s)@.push(c),
{
    s.push(c)
}

/// The UTF-8 byte length of a text.
pub open spec fn byte_len(s: Seq<char>) -> nat {
    encode_utf8(s).len()
}

/// The text between byte offsets `a` and `b` of a UTF-8 byte sequence, or
/// `None` where indexing a `str` with `a..b` panics (out of order, out of
/// bounds, or not on character boundaries).
pub open spec fn byte_slice(bytes: Seq<u8>, a: int, b: int) -> Option<Seq<char>> {
    if 0 <= a <= b <= bytes.len() && is_char_boundary(bytes, a) && is_char_boundary(bytes, b) {
        Some(decode_utf8(bytes.subrange(a, b)))
    } else {
        None
    }
}

/// `byte_slice` over the UTF-8 encoding of a text.
pub open spec fn text_slice(s: Seq<char>, a: int, b: int) -> Option<Seq<char>> {
    byte_slice(encode_utf8(s), a, b)
}

/// A string of `s` between two byte offsets, or `None` where `&s[a..b]` panics.
pub fn slice_checked(s: &str, a: usize, b: usize) -> (r: Option<&str>)
    ensures
        r matches Some(t) ==> text_slice(s@, a as int, b as int) == Some(t@),
        r is None ==> text_slice(s@, a as int, b as int) is None,
{
    proof {
        encode_utf8_valid_utf8(s@);
    }
    let n = s.as_bytes().len();
    if a <= b && b <= n && s.is_char_boundary(a) && s.is_char_boundary(b) {
        let (left, _) = s.split_at(b);
        proof {
            let bytes = s.spec_bytes();
            valid_utf8_split(bytes, b as int);
            assert(left.spec_bytes() =~= bytes.subrange(0, b as int));
            // a is a boundary of the prefix as well
            lemma_boundary_of_prefix(bytes, a as int, b as int);
        }
        let (_, mid) = left.split_at(a);
        proof {
            let bytes = s.spec_bytes();
            let lb = left.spec_bytes();
            assert(mid.spec_bytes() =~= bytes.subrange(a as int, b as int));
            encode_utf8_decode_utf8(mid@);
        }
        Some(mid)
    } else {
        None
    }
}

/// A character boundary before `b` stays a boundary of the first `b` bytes.
pub proof fn lemma_boundary_of_prefix(bytes: Seq<u8>, a: int, b: int)
    requires
        valid_utf8(bytes),
        0 <= a <= b <= bytes.len(),
        is_char_boundary(bytes, a),
        is_char_boundary(bytes, b),
    ensures
        valid_utf8(bytes.subrange(0, b)),
        is_char_boundary(bytes.subrange(0, b), a),
{
    broadcast use group_utf8_lib;

    valid_utf8_split(bytes, b);
    let pre = bytes.subrange(0, b);
    if a == b {
        is_char_boundary_start_end_of_seq(pre);
        assert(pre.len() == b);
    } else if a == 0 {
    } else {
        is_char_boundary_iff_not_is_continuation_byte(bytes, a);
        is_char_boundary_iff_not_is_continuation_byte(pre, a);
        assert(pre[a] == bytes[a]);
    }
}

/// The first `k` characters end on a character boundary of the text's UTF-8
/// encoding, no further than its end.
pub proof fn lemma_prefix_boundary(cs: Seq<char>, k: int)
    requires
        0 <= k <= cs.len(),
    ensures
        is_char_boundary(encode_utf8(cs), byte_len(cs.take(k)) as int),
        byte_len(cs.take(k)) <= byte_len(cs),
    decreases cs.len(),
{
    encode_utf8_valid_utf8(cs);
    if k == 0 {
        assert(cs.take(0) =~= Seq::<char>::empty());
    } else {
        let rest = cs.drop_first();
        lemma_prefix_boundary(rest, k - 1);
        encode_utf8_first_scalar(cs);
        let bytes = encode_utf8(cs);
        assert(pop_first_scalar(bytes) =~= encode_utf8(rest));
        assert(cs.take(k).drop_first() =~= rest.take(k - 1));
        assert(cs.take(k)[0] == cs[0]);
        assert(encode_utf8(cs.take(k)) == encode_scalar(cs[0] as u32) + encode_utf8(rest.take(k - 1)));
    }
}

/// The text before a byte offset that is a character boundary is the text's
/// first characters, and takes exactly that many bytes.
pub proof fn lemma_text_prefix(cs: Seq<char>, c: int)
    requires
        text_slice(cs, 0, c) is Some,
    ensures
        ({
            let p = text_slice(cs, 0, c)->0;
            &&& p.len() <= cs.len()
            &&& p == cs.take(p.len() as int)
            &&& byte_len(p) == c
        }),
{
    let bytes = encode_utf8(cs);
    encode_utf8_valid_utf8(cs);
    encode_utf8_decode_utf8(cs);
    valid_utf8_split(bytes, c);
    decode_utf8_split(bytes, c);
    let head = bytes.subrange(0, c);
    decode_utf8_encode_utf8(head);
    let p = decode_utf8(head);
    assert(cs == p + decode_utf8(bytes.subrange(c, bytes.len() as int)));
    assert(p =~= cs.take(p.len() as int));
}

/// The encoding of two texts one after the other is their encodings one after
/// the other.
pub proof fn lemma_encode_concat(x: Seq<char>, y: Seq<char>)
    ensures
        encode_utf8(x + y) == encode_utf8(x) + encode_utf8(y),
        byte_len(x + y) == byte_len(x) + byte_len(y),
    decreases x.len(),
{
    if x.len() == 0 {
        assert(x + y =~= y);
        assert(encode_utf8(x) =~= Seq::<u8>::empty());
        assert(encode_utf8(x) + encode_utf8(y) =~= encode_utf8(y));
    } else {
        lemma_encode_concat(x.drop_first(), y);
        assert((x + y).drop_first() =~= x.drop_first() + y);
        assert((x + y)[0] == x[0]);
        assert(encode_utf8(x + y) =~= encode_utf8(x) + encode_utf8(y));
    }
}

/// The middle of three texts put together is the slice between the byte
/// lengths around it, and the first of them the slice before.
pub proof fn lemma_slice_of_concat(x: Seq<char>, m: Seq<char>, y: Seq<char>)
    ensures
        text_slice(x + m + y, byte_len(x) as int, (byte_len(x) + byte_len(m)) as int) == Some(m),
        text_slice(x + m + y, 0, byte_len(x) as int) == Some(x),
        text_slice(x + m + y, (byte_len(x) + byte_len(m)) as int, byte_len(x + m + y) as int) == Some(y),
{
    let s = x + m + y;
    lemma_encode_concat(x, m);
    lemma_encode_concat(x + m, y);
    let bytes = encode_utf8(s);
    assert(s.take(x.len() as int) =~= x);
    assert(s.take((x.len() + m.len()) as int) =~= x + m);
    assert(s.take(s.len() as int) =~= s);
    lemma_prefix_boundary(s, x.len() as int);
    lemma_prefix_boundary(s, (x.len() + m.len()) as int);
    lemma_prefix_boundary(s, s.len() as int);
    lemma_prefix_boundary(s, 0);
    assert(s.take(0) =~= Seq::<char>::empty());
    let bx = byte_len(x) as int;
    let bm = byte_len(m) as int;
    assert(bytes.subrange(bx, bx + bm) =~= encode_utf8(m));
    assert(bytes.subrange(0, bx) =~= encode_utf8(x));
    assert(bytes.subrange(bx + bm, bytes.len() as int) =~= encode_utf8(y));
    encode_utf8_decode_utf8(m);
    encode_utf8_decode_utf8(x);
    encode_utf8_decode_utf8(y);
}

/// A slice of a text splits it in three: the text before, the slice, and the
/// text after, each a slice of its own.
pub proof fn lemma_slice_splits(cs: Seq<char>, a: int, b: int)
    requires
        text_slice(cs, a, b) is Some,
    ensures
        text_slice(cs, 0, a) is Some,
        text_slice(cs, b, byte_len(cs) as int) is Some,
        cs == text_slice(cs, 0, a)->0 + text_slice(cs, a, b)->0 + text_slice(cs, b, byte_len(cs) as int)->0,
        byte_len(text_slice(cs, 0, a)->0) == a,
        byte_len(text_slice(cs, a, b)->0) == b - a,
{
    let bytes = encode_utf8(cs);
    encode_utf8_valid_utf8(cs);
    encode_utf8_decode_utf8(cs);
    is_char_boundary_start_end_of_seq(bytes);
    valid_utf8_split(bytes, b);
    decode_utf8_split(bytes, b);
    lemma_boundary_of_prefix(bytes, a, b);
    let head = bytes.subrange(0, b);
    valid_utf8_split(head, a);
    decode_utf8_split(head, a);
    assert(head.subrange(0, a) =~= bytes.subrange(0, a));
    assert(head.subrange(a, head.len() as int) =~= bytes.subrange(a, b));
    decode_utf8_encode_utf8(bytes.subrange(0, a));
    decode_utf8_encode_utf8(bytes.subrange(a, b));
}

/// The characters of a text, in order.
pub fn chars_of(s: &str) -> (v: Vec<char>)
    ensures
        v@ == s@,
{
    let n = s.unicode_len();
    let mut v: Vec<char> = Vec::new();
    let mut it = s.chars();
    assert(vstd::std_specs::iter::IteratorSpec::remaining(&it) == s@);
    while v.len() < n
        invariant
            n == s@.len(),
            v@ + vstd::std_specs::iter::IteratorSpec::remaining(&it) == s@,
            vstd::std_specs::iter::IteratorSpec::obeys_prophetic_iter_laws(&it),
        decreases n - v.len(),
    {
        let ghost before = vstd::std_specs::iter::IteratorSpec::remaining(&it);
        match it.next() {
            Some(c) => {
                proof {
                    assert(before.len() > 0);
                    assert(before == seq![c] + vstd::std_specs::iter::IteratorSpec::remaining(&it));
                }
                v.push(c);
                assert(v@ + vstd::std_specs::iter::IteratorSpec::remaining(&it) =~= s@);
            },
            None => {
                assert(false);
            },
        }
    }
    assert(v@ =~= s@);
    v
}

/// Whether two texts are equal.
pub fn str_equal(a: &str, b: &str) -> (r: bool)
    ensures
        r == (a@ == b@),
{
    let x = chars_of(a);
    let y = chars_of(b);
    if x.len() != y.len() {
        return false;
    }
    let mut i: usize = 0;
    while i < x.len()
        invariant
            x@ == a@,
            y@ == b@,
            x.len() == y.len(),
            0 <= i <= x.len(),
            forall|j: int| 0 <= j < i ==> x@[j] == y@[j],
        decreases x.len() - i,
    {
        if x[i] != y[i] {
            return false;
        }
        i = i + 1;
    }
    assert(a@ =~= b@);
    true
}

/// A `String` holding the given characters.
pub fn string_of_chars(cs: &Vec<char>) -> (s: String)
    ensures
        s@ == cs@,
{
    let mut s = String::new();
    let mut i: usize = 0;
    while i < cs.len()
        invariant
            0 <= i <= cs.len(),
            s@ == cs@.take(i as int),
        decreases cs.len() - i,
    {
        push_char(&mut s, cs[i]);
        assert(cs@.take(i as int).push(cs@[i as int]) =~= cs@.take(i + 1));
        i = i + 1;
    }
    assert(cs@.take(cs.len() as int) =~= cs@);
    s
}

/// A `String` holding the characters `cs[lo..hi]`.
pub fn string_of_range(cs: &Vec<char>, lo: usize, hi: usize) -> (s: String)
    requires
        lo <= hi <= cs.len(),
    ensures
        s@ == cs@.subrange(lo as int, hi as int),
{
    let mut s = String::new();
    let mut i: usize = lo;
    while i < hi
        invariant
            lo <= i <= hi <= cs.len(),
            s@ == cs@.subrange(lo as int, i as int),
        decreases hi - i,
    {
        push_char(&mut s, cs[i]);
        assert(cs@.subrange(lo as int, i as int).push(cs@[i as int]) =~= cs@.subrange(
            lo as int,
            i + 1,
        ));
        i = i + 1;
    }
    s
}

/// The decimal digit `d`.
pub open spec fn digit_char(d: nat) -> char {
    ((48 + d) as u32) as char
}

/// The decimal text of `n`, as `{}` prints an unsigned integer.
pub open spec fn decimal(n: nat) -> Seq<char>
    decreases n,
{
    if n < 10 {
        seq![digit_char(n)]
    } else {
        decimal(n / 10).push(digit_char(n % 10))
    }
}

fn digit_of(d: usize) -> (c: char)
    requires
        d < 10,
    ensures
        c == digit_char(d as nat),
{
    match d {
        0 => '0',
        1 => '1',
        2 => '2',
        3 => '3',
        4 => '4',
        5 => '5',
        6 => '6',
        7 => '7',
        8 => '8',
        _ => '9',
    }
}

/// The decimal text of `n` (`n.to_string()`).
pub fn usize_to_string(n: usize) -> (s: String)
    ensures
        s@ == decimal(n as nat),
{
    let mut tail: Vec<char> = Vec::new();
    let mut m = n;
    while m >= 10
        invariant
            decimal(n as nat) == decimal(m as nat) + tail@,
        decreases m,
    {
        let d = digit_of(m % 10);
        let ghost old_tail = tail@;
        tail.insert(0, d);
        assert(decimal(m as nat) == decimal((m / 10) as nat).push(d));
        assert(decimal((m / 10) as nat) + tail@ =~= decimal(m as nat) + old_tail);
        m = m / 10;
    }
    let first = digit_of(m);
    tail.insert(0, first);
    string_of_chars(&tail)
}

} // verus!
