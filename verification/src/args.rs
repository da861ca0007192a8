//! Argument lists written as text, such as `font: "Inter", size: 14pt`:
//! splitting, trimming, reading, removing and merging `key: value` entries.
use vstd::prelude::*;
use vstd::string::*;
use crate::text::{char_is_whitespace, chars_of, is_white_space, str_equal, string_of_chars, string_of_range};

verus! {

broadcast use vstd::string::group_string_axioms;

/// The pieces of `s` between occurrences of `c` (`str::split` with a char
/// pattern): the empty text gives one empty piece.
pub open spec fn split_on(s: Seq<char>, c: char) -> Seq<Seq<char>>
    decreases s.len(),
{
    if s.len() == 0 {
        seq![Seq::empty()]
    } else {
        let rest = split_on(s.drop_first(), c);
        if s[0] == c {
            seq![Seq::<char>::empty()] + rest
        } else {
            rest.update(0, seq![s[0]] + rest[0])
        }
    }
}

/// `s` without its leading whitespace.
pub open spec fn trim_start(s: Seq<char>) -> Seq<char>
    decreases s.len(),
{
    if s.len() > 0 && is_white_space(s[0]) {
        trim_start(s.drop_first())
    } else {
        s
    }
}

/// `s` without its trailing whitespace.
pub open spec fn trim_end(s: Seq<char>) -> Seq<char>
    decreases s.len(),
{
    if s.len() > 0 && is_white_space(s.last()) {
        trim_end(s.drop_last())
    } else {
        s
    }
}

/// `str::trim`: `s` without leading and trailing whitespace.
pub open spec fn trim(s: Seq<char>) -> Seq<char> {
    trim_end(trim_start(s))
}

/// The index of the first occurrence of `c` in `s` at or after `i`.
pub open spec fn find_char_from(s: Seq<char>, c: char, i: int) -> Option<int>
    decreases s.len() - i,
{
    if i < 0 || i >= s.len() {
        None
    } else if s[i] == c {
        Some(i)
    } else {
        find_char_from(s, c, i + 1)
    }
}

/// `str::split_once` with a char pattern: the text before and after the first
/// occurrence of `c`.
pub open spec fn split_once(s: Seq<char>, c: char) -> Option<(Seq<char>, Seq<char>)> {
    match find_char_from(s, c, 0) {
        Some(i) => Some((s.take(i), s.skip(i + 1))),
        None => None,
    }
}

/// The pieces joined with `sep` between them (`[T]::join`).
pub open spec fn join(ps: Seq<Seq<char>>, sep: Seq<char>) -> Seq<char>
    decreases ps.len(),
{
    if ps.len() == 0 {
        Seq::empty()
    } else if ps.len() == 1 {
        ps[0]
    } else {
        join(ps.drop_last(), sep) + sep + ps.last()
    }
}

/// The key of an argument entry: the trimmed text before its first `:`.
pub open spec fn entry_key(p: Seq<char>) -> Option<Seq<char>> {
    match split_once(p, ':') {
        Some((k, _)) => Some(trim(k)),
        None => None,
    }
}

/// The value of the first entry whose key is `key`, trimmed.
pub open spec fn first_value(ps: Seq<Seq<char>>, key: Seq<char>) -> Option<Seq<char>>
    decreases ps.len(),
{
    if ps.len() == 0 {
        None
    } else {
        match first_value(ps.drop_last(), key) {
            Some(v) => Some(v),
            None => match split_once(trim(ps.last()), ':') {
                Some((k, v)) => if trim(k) == key {
                    Some(trim(v))
                } else {
                    None
                },
                None => None,
            },
        }
    }
}

/// What `get_arg_value` returns.
pub open spec fn arg_value(args: Seq<char>, key: Seq<char>) -> Option<Seq<char>> {
    first_value(split_on(args, ','), key)
}

/// The trimmed, non-empty entries of `ps`, except those whose key is `key`.
pub open spec fn kept_entries(ps: Seq<Seq<char>>, key: Seq<char>) -> Seq<Seq<char>>
    decreases ps.len(),
{
    if ps.len() == 0 {
        Seq::empty()
    } else {
        let t = trim(ps.last());
        let rest = kept_entries(ps.drop_last(), key);
        if t.len() == 0 || entry_key(t) == Some(key) {
            rest
        } else {
            rest.push(t)
        }
    }
}

/// The text `remove_arg` returns.
pub open spec fn args_without(args: Seq<char>, key: Seq<char>) -> Seq<char> {
    join(kept_entries(split_on(args, ','), key), seq![',', ' '])
}

/// The trimmed, non-empty entries of `ps`.
pub open spec fn entries(ps: Seq<Seq<char>>) -> Seq<Seq<char>>
    decreases ps.len(),
{
    if ps.len() == 0 {
        Seq::empty()
    } else {
        let t = trim(ps.last());
        let rest = entries(ps.drop_last());
        if t.len() == 0 {
            rest
        } else {
            rest.push(t)
        }
    }
}

/// The entry `key: value`.
pub open spec fn entry(key: Seq<char>, value: Seq<char>) -> Seq<char> {
    key + seq![':', ' '] + value
}

/// Each entry whose key is `key` replaced by `entry`.
pub open spec fn replace_entries(ps: Seq<Seq<char>>, key: Seq<char>, e: Seq<char>) -> Seq<Seq<char>> {
    ps.map_values(|p: Seq<char>| if entry_key(p) == Some(key) { e } else { p })
}

/// Whether some entry has key `key`.
pub open spec fn has_key(ps: Seq<Seq<char>>, key: Seq<char>) -> bool {
    exists|i: int| 0 <= i < ps.len() && entry_key(#[trigger] ps[i]) == Some(key)
}

/// The text `merge_args` returns: the entries of `args` with every entry for
/// `key` set to `value`, or `key: value` appended where there was none.
pub open spec fn merged_args(args: Seq<char>, key: Seq<char>, value: Seq<char>) -> Seq<char> {
    let ps = entries(split_on(args, ','));
    let replaced = replace_entries(ps, key, entry(key, value));
    if has_key(ps, key) {
        join(replaced, seq![',', ' '])
    } else {
        join(replaced.push(entry(key, value)), seq![',', ' '])
    }
}

/// The texts of a sequence of strings.
pub open spec fn string_views(v: Seq<String>) -> Seq<Seq<char>> {
    v.map_values(|x: String| x@)
}

/// `s` split at every `c` (`str::split`).
pub fn split_str(s: &str, c: char) -> (r: Vec<String>)
    ensures
        string_views(r@) == split_on(s@, c),
{
    let cs = chars_of(s);
    let n = cs.len();
    let mut done: Vec<String> = Vec::new();
    let mut cur: Vec<char> = Vec::new();
    let mut i: usize = n;
    assert(s@.skip(n as int) =~= Seq::<char>::empty());
    assert(string_views(done@) =~= Seq::<Seq<char>>::empty());
    // Walk from the end, so that `split_on` unfolds one character per step.
    while i > 0
        invariant
            cs@ == s@,
            n == cs.len(),
            0 <= i <= n,
            split_on(s@.skip(i as int), c) == seq![cur@] + string_views(done@),
        decreases i,
    {
        let ch = cs[i - 1];
        assert(s@.skip(i - 1).drop_first() =~= s@.skip(i as int));
        assert(s@.skip(i - 1)[0] == ch);
        if ch == c {
            let piece = string_of_chars(&cur);
            let ghost olddone = done@;
            let mut nd = Vec::new();
            nd.push(piece);
            nd.append(&mut done);
            assert(string_views(nd@) =~= seq![piece@] + string_views(olddone)) by {
                assert(nd@ =~= seq![piece] + olddone);
            }
            done = nd;
            cur = Vec::new();
            assert(seq![cur@] + string_views(done@) =~= seq![Seq::<char>::empty()] + split_on(s@.skip(i as int), c));
        } else {
            let ghost oldcur = cur@;
            let mut nc = Vec::new();
            nc.push(ch);
            nc.append(&mut cur);
            cur = nc;
            assert(cur@ =~= seq![ch] + oldcur);
            assert(seq![cur@] + string_views(done@) =~= split_on(s@.skip(i as int), c).update(0, seq![ch] + split_on(s@.skip(i as int), c)[0]));
        }
        i = i - 1;
    }
    let piece = string_of_chars(&cur);
    let ghost olddone = done@;
    let mut r = Vec::new();
    r.push(piece);
    r.append(&mut done);
    assert(s@.skip(0) =~= s@);
    assert(string_views(r@) =~= seq![piece@] + string_views(olddone)) by {
        assert(r@ =~= seq![piece] + olddone);
    }
    r
}

/// `str::trim`.
pub fn trim_str(s: &str) -> (r: String)
    ensures
        r@ == trim(s@),
{
    let cs = chars_of(s);
    let n = cs.len();
    let mut lo: usize = 0;
    assert(s@.skip(0) =~= s@);
    while lo < n && char_is_whitespace(cs[lo])
        invariant
            cs@ == s@,
            n == cs.len(),
            0 <= lo <= n,
            trim_start(s@) == trim_start(s@.skip(lo as int)),
        decreases n - lo,
    {
        assert(s@.skip(lo as int).drop_first() =~= s@.skip(lo + 1));
        lo = lo + 1;
    }
    assert(trim_start(s@) == s@.skip(lo as int)) by {
        if lo < n {
            assert(s@.skip(lo as int)[0] == s@[lo as int]);
        } else {
            assert(s@.skip(lo as int).len() == 0);
        }
    }
    let ghost t = s@.skip(lo as int);
    let mut hi: usize = n;
    assert(t.take(n - lo) =~= t);
    while hi > lo && char_is_whitespace(cs[hi - 1])
        invariant
            cs@ == s@,
            n == cs.len(),
            0 <= lo <= hi <= n,
            t == s@.skip(lo as int),
            trim_end(t) == trim_end(t.take(hi - lo)),
        decreases hi,
    {
        assert(t.take(hi - lo).drop_last() =~= t.take(hi - 1 - lo));
        assert(t.take(hi - lo).last() == cs@[hi - 1]);
        hi = hi - 1;
    }
    assert(trim_end(t) == s@.subrange(lo as int, hi as int)) by {
        assert(t.take(hi - lo) =~= s@.subrange(lo as int, hi as int));
        if hi > lo {
            assert(t.take(hi - lo).last() == cs@[hi - 1]);
        }
    }
    string_of_range(&cs, lo, hi)
}

/// `str::split_once` with a char pattern.
pub fn split_once_str(s: &str, c: char) -> (r: Option<(String, String)>)
    ensures
        r matches Some((a, b)) ==> split_once(s@, c) == Some((a@, b@)),
        r is None ==> split_once(s@, c) is None,
{
    let cs = chars_of(s);
    let n = cs.len();
    let mut i: usize = 0;
    while i < n
        invariant
            cs@ == s@,
            n == cs.len(),
            0 <= i <= n,
            find_char_from(s@, c, 0) == find_char_from(s@, c, i as int),
        decreases n - i,
    {
        if cs[i] == c {
            let a = string_of_range(&cs, 0, i);
            let b = string_of_range(&cs, i + 1, n);
            assert(a@ =~= s@.take(i as int));
            assert(b@ =~= s@.skip(i + 1));
            return Some((a, b));
        }
        i = i + 1;
    }
    None
}

/// The pieces joined with `sep` between them.
pub fn join_strs(ps: &Vec<String>, sep: &str) -> (r: String)
    ensures
        r@ == join(string_views(ps@), sep@),
{
    let mut r = String::new();
    let mut i: usize = 0;
    while i < ps.len()
        invariant
            0 <= i <= ps.len(),
            r@ == join(string_views(ps@.take(i as int)), sep@),
        decreases ps.len() - i,
    {
        let ghost before = r@;
        if i > 0 {
            r.append(sep);
        }
        r.append(ps[i].as_str());
        proof {
            let vs = string_views(ps@.take(i + 1));
            assert(vs.drop_last() =~= string_views(ps@.take(i as int)));
            assert(vs.last() == ps@[i as int]@);
            if i == 0 {
                assert(vs =~= seq![ps@[0]@]);
            }
        }
        i = i + 1;
    }
    assert(ps@.take(ps.len() as int) =~= ps@);
    r
}

/// The trimmed value of the first `key: value` entry of `inner_args` whose
/// trimmed key is `key`.
pub fn get_arg_value(inner_args: &str, key: &str) -> (r: Option<String>)
    ensures
        r matches Some(v) ==> arg_value(inner_args@, key@) == Some(v@),
        r is None ==> arg_value(inner_args@, key@) is None,
{
    let params = split_str(inner_args, ',');
    let ghost ps = split_on(inner_args@, ',');
    let mut i: usize = 0;
    assert(ps.take(0) =~= Seq::<Seq<char>>::empty());
    while i < params.len()
        invariant
            string_views(params@) == ps,
            ps == split_on(inner_args@, ','),
            0 <= i <= params.len(),
            first_value(ps.take(i as int), key@) is None,
        decreases params.len() - i,
    {
        assert(ps.take(i + 1).drop_last() =~= ps.take(i as int));
        assert(ps.take(i + 1).last() == params@[i as int]@);
        let trimmed = trim_str(params[i].as_str());
        match split_once_str(trimmed.as_str(), ':') {
            Some((k, v)) => {
                let tk = trim_str(k.as_str());
                if str_equal(tk.as_str(), key) {
                    let tv = trim_str(v.as_str());
                    proof {
                        lemma_first_value_prefix(ps, i as int + 1, key@);
                    }
                    return Some(tv);
                }
            },
            None => {},
        }
        i = i + 1;
    }
    assert(ps.take(params.len() as int) =~= ps);
    None
}

/// A first match in a prefix is the first match of the whole.
pub proof fn lemma_first_value_prefix(ps: Seq<Seq<char>>, i: int, key: Seq<char>)
    requires
        0 <= i <= ps.len(),
        first_value(ps.take(i), key) is Some,
    ensures
        first_value(ps, key) == first_value(ps.take(i), key),
    decreases ps.len() - i,
{
    if i < ps.len() {
        assert(ps.take(i + 1).drop_last() =~= ps.take(i));
        lemma_first_value_prefix(ps, i + 1, key);
    } else {
        assert(ps.take(i) =~= ps);
    }
}

/// Removes every `key: ...` entry from `inner_args` (dropping empty entries and
/// trimming the others). Returns the remaining entries joined with `", "` and
/// whether that text is empty.
pub fn remove_arg(inner_args: &str, key: &str) -> (r: (String, bool))
    ensures
        r.0@ == args_without(inner_args@, key@),
        r.1 == (args_without(inner_args@, key@).len() == 0),
{
    let params = split_str(inner_args, ',');
    let ghost ps = split_on(inner_args@, ',');
    let mut parts: Vec<String> = Vec::new();
    let mut i: usize = 0;
    assert(ps.take(0) =~= Seq::<Seq<char>>::empty());
    while i < params.len()
        invariant
            string_views(params@) == ps,
            0 <= i <= params.len(),
            string_views(parts@) == kept_entries(ps.take(i as int), key@),
        decreases params.len() - i,
    {
        assert(ps.take(i + 1).drop_last() =~= ps.take(i as int));
        assert(ps.take(i + 1).last() == params@[i as int]@);
        let trimmed = trim_str(params[i].as_str());
        if trimmed.as_str().is_empty() {
        } else {
            let keep = match split_once_str(trimmed.as_str(), ':') {
                Some((k, _)) => {
                    let tk = trim_str(k.as_str());
                    !str_equal(tk.as_str(), key)
                },
                None => true,
            };
            if keep {
                let ghost before = parts@;
                parts.push(trimmed);
                assert(string_views(parts@) =~= string_views(before).push(trimmed@));
            }
        }
        i = i + 1;
    }
    assert(ps.take(params.len() as int) =~= ps);
    let sep = ", ";
    proof {
        reveal_strlit(", ");
    }
    let updated = join_strs(&parts, sep);
    assert(sep@ =~= seq![',', ' ']);
    let is_empty = updated.as_str().is_empty();
    (updated, is_empty)
}

/// Sets `key: value` in an argument list: every entry for `key` is replaced,
/// or the entry is appended where there is none; empty entries are dropped and
/// the others trimmed.
pub fn merge_args(args_block: &str, key: &str, value: &str) -> (r: String)
    ensures
        r@ == merged_args(args_block@, key@, value@),
{
    let pieces = split_str(args_block, ',');
    let ghost ps = split_on(args_block@, ',');
    let mut params: Vec<String> = Vec::new();
    let mut i: usize = 0;
    assert(ps.take(0) =~= Seq::<Seq<char>>::empty());
    while i < pieces.len()
        invariant
            string_views(pieces@) == ps,
            0 <= i <= pieces.len(),
            string_views(params@) == entries(ps.take(i as int)),
        decreases pieces.len() - i,
    {
        assert(ps.take(i + 1).drop_last() =~= ps.take(i as int));
        assert(ps.take(i + 1).last() == pieces@[i as int]@);
        let t = trim_str(pieces[i].as_str());
        if !t.as_str().is_empty() {
            let ghost before = params@;
            params.push(t);
            assert(string_views(params@) =~= string_views(before).push(t@));
        }
        i = i + 1;
    }
    assert(ps.take(pieces.len() as int) =~= ps);
    let ghost es = entries(ps);
    let sep = ", ";
    let colon = ": ";
    proof {
        reveal_strlit(", ");
        reveal_strlit(": ");
    }
    let mut e = String::from_str(key);
    e.append(colon);
    e.append(value);
    assert(e@ =~= entry(key@, value@));
    let mut out: Vec<String> = Vec::new();
    let mut key_replaced = false;
    let mut j: usize = 0;
    while j < params.len()
        invariant
            string_views(params@) == es,
            e@ == entry(key@, value@),
            0 <= j <= params.len(),
            string_views(out@) == replace_entries(es, key@, e@).take(j as int),
            key_replaced == exists|q: int| 0 <= q < j && entry_key(#[trigger] es[q]) == Some(key@),
        decreases params.len() - j,
    {
        let ghost before = out@;
        let hit = match split_once_str(params[j].as_str(), ':') {
            Some((k, _)) => {
                let tk = trim_str(k.as_str());
                str_equal(tk.as_str(), key)
            },
            None => false,
        };
        assert(hit == (entry_key(es[j as int]) == Some(key@)));
        let ghost re = replace_entries(es, key@, e@);
        assert(re.take(j + 1) =~= re.take(j as int).push(re[j as int]));
        if hit {
            let e2 = String::from_str(e.as_str());
            out.push(e2);
            key_replaced = true;
            assert(string_views(out@) =~= string_views(before).push(e2@));
        } else {
            let p2 = String::from_str(params[j].as_str());
            out.push(p2);
            assert(string_views(out@) =~= string_views(before).push(p2@));
        }
        assert(string_views(out@) =~= replace_entries(es, key@, e@).take(j + 1));
        j = j + 1;
    }
    assert(replace_entries(es, key@, e@).take(params.len() as int) =~= replace_entries(es, key@, e@));
    if !key_replaced {
        let ghost before = out@;
        out.push(e);
        assert(string_views(out@) =~= replace_entries(es, key@, entry(key@, value@)).push(entry(key@, value@)));
    }
    assert(sep@ =~= seq![',', ' ']);
    join_strs(&out, sep)
}

/// Where `trim_start` cuts: `s` without its first characters, all whitespace,
/// up to a character that is not whitespace.
pub proof fn lemma_trim_start_shape(s: Seq<char>)
    ensures
        trim_start(s).len() <= s.len(),
        trim_start(s) == s.skip(s.len() - trim_start(s).len()),
        forall|j: int| 0 <= j < s.len() - trim_start(s).len() ==> is_white_space(#[trigger] s[j]),
        trim_start(s).len() > 0 ==> !is_white_space(trim_start(s)[0]),
    decreases s.len(),
{
    if s.len() > 0 && is_white_space(s[0]) {
        lemma_trim_start_shape(s.drop_first());
        let t = trim_start(s.drop_first());
        assert(s.drop_first().skip(s.drop_first().len() - t.len()) =~= s.skip(s.len() - t.len()));
        assert forall|j: int| 0 <= j < s.len() - t.len() implies is_white_space(#[trigger] s[j]) by {
            if j > 0 {
                assert(s[j] == s.drop_first()[j - 1]);
            }
        }
    } else {
        assert(s.skip(0) =~= s);
    }
}

/// Where `trim_end` cuts: the first characters of `s`, the rest all
/// whitespace, ending with a character that is not whitespace.
pub proof fn lemma_trim_end_shape(s: Seq<char>)
    ensures
        trim_end(s).len() <= s.len(),
        trim_end(s) == s.take(trim_end(s).len() as int),
        forall|j: int| trim_end(s).len() <= j < s.len() ==> is_white_space(#[trigger] s[j]),
        trim_end(s).len() > 0 ==> !is_white_space(trim_end(s).last()),
    decreases s.len(),
{
    if s.len() > 0 && is_white_space(s.last()) {
        lemma_trim_end_shape(s.drop_last());
        let t = trim_end(s.drop_last());
        assert(s.drop_last().take(t.len() as int) =~= s.take(t.len() as int));
        assert forall|j: int| t.len() <= j < s.len() implies is_white_space(#[trigger] s[j]) by {
            if j < s.len() - 1 {
                assert(s[j] == s.drop_last()[j]);
            }
        }
    } else {
        assert(s.take(s.len() as int) =~= s);
    }
}

/// `trim_start` cuts exactly the leading whitespace.
pub proof fn lemma_trim_start_at(s: Seq<char>, a: int)
    requires
        0 <= a <= s.len(),
        forall|j: int| 0 <= j < a ==> is_white_space(#[trigger] s[j]),
        a < s.len() ==> !is_white_space(s[a]),
    ensures
        trim_start(s) == s.skip(a),
    decreases a,
{
    if a > 0 {
        assert(is_white_space(s[0]));
        assert forall|j: int| 0 <= j < a - 1 implies is_white_space(#[trigger] s.drop_first()[j]) by {
            assert(s.drop_first()[j] == s[j + 1]);
        }
        if a - 1 < s.drop_first().len() {
            assert(s.drop_first()[a - 1] == s[a]);
        }
        lemma_trim_start_at(s.drop_first(), a - 1);
        assert(s.drop_first().skip(a - 1) =~= s.skip(a));
    } else {
        assert(s.skip(0) =~= s);
    }
}

/// `trim_end` cuts exactly the trailing whitespace.
pub proof fn lemma_trim_end_at(s: Seq<char>, m: int)
    requires
        0 <= m <= s.len(),
        forall|j: int| m <= j < s.len() ==> is_white_space(#[trigger] s[j]),
        m > 0 ==> !is_white_space(s[m - 1]),
    ensures
        trim_end(s) == s.take(m),
    decreases s.len() - m,
{
    if m < s.len() {
        assert(is_white_space(s.last()));
        assert forall|j: int| m <= j < s.drop_last().len() implies is_white_space(#[trigger] s.drop_last()[j]) by {
            assert(s.drop_last()[j] == s[j]);
        }
        lemma_trim_end_at(s.drop_last(), m);
        assert(s.drop_last().take(m) =~= s.take(m));
    } else {
        assert(s.take(m) =~= s);
    }
}

/// `trim`: the text between the leading and the trailing whitespace.
pub proof fn lemma_trim_shape(s: Seq<char>)
    ensures
        trim(s).len() == 0 || (!is_white_space(trim(s)[0]) && !is_white_space(trim(s).last())),
{
    lemma_trim_start_shape(s);
    let t = trim_start(s);
    lemma_trim_end_shape(t);
}

/// Trimming twice is trimming once.
pub proof fn lemma_trim_idempotent(s: Seq<char>)
    ensures
        trim(trim(s)) == trim(s),
{
    let t = trim(s);
    lemma_trim_shape(s);
    lemma_trim_start_at(t, 0);
    assert(t.skip(0) =~= t);
    lemma_trim_end_at(t, t.len() as int);
    assert(t.take(t.len() as int) =~= t);
}

/// A leading space does not change what `trim` gives.
pub proof fn lemma_trim_leading_space(x: Seq<char>)
    ensures
        trim(seq![' '] + x) == trim(x),
{
    let s = seq![' '] + x;
    assert(s.drop_first() =~= x);
    assert(is_white_space(' '));
}

/// Trimming the end first does not change what `trim` gives.
pub proof fn lemma_trim_after_trim_end(w: Seq<char>)
    ensures
        trim(trim_end(w)) == trim(w),
{
    lemma_trim_start_shape(w);
    lemma_trim_end_shape(w);
    let a = w.len() - trim_start(w).len();
    let m = trim_end(w).len() as int;
    let e = trim_end(w);
    if a == w.len() {
        // all whitespace: both sides are empty
        if m > 0 {
            assert(!is_white_space(w[m - 1]));
            assert(is_white_space(w[m - 1]));
        }
        assert(e.len() == 0);
        assert(trim_start(w).len() == 0);
    } else {
        assert(!is_white_space(w[a]));
        assert(a < m);
        // trim_start(e) == w[a..m]
        assert forall|j: int| 0 <= j < a implies is_white_space(#[trigger] e[j]) by {
            assert(e[j] == w[j]);
        }
        assert(e[a] == w[a]);
        lemma_trim_start_at(e, a);
        assert(e.skip(a) =~= w.subrange(a, m));
        let u = w.subrange(a, m);
        assert(u.last() == w[m - 1]);
        lemma_trim_end_at(u, u.len() as int);
        assert(u.take(u.len() as int) =~= u);
        // trim_end(trim_start(w)) == w[a..m]
        let ts = trim_start(w);
        assert forall|j: int| m - a <= j < ts.len() implies is_white_space(#[trigger] ts[j]) by {
            assert(ts[j] == w[j + a]);
        }
        assert(ts[m - a - 1] == w[m - 1]);
        lemma_trim_end_at(ts, m - a);
        assert(ts.take(m - a) =~= u);
    }
}

/// `trim_end` of a text after a part ending in a non-space keeps that part.
pub proof fn lemma_trim_end_concat(a: Seq<char>, w: Seq<char>)
    requires
        a.len() > 0,
        !is_white_space(a.last()),
    ensures
        trim_end(a + w) == a + trim_end(w),
    decreases w.len(),
{
    if w.len() > 0 && is_white_space(w.last()) {
        assert((a + w).drop_last() =~= a + w.drop_last());
        lemma_trim_end_concat(a, w.drop_last());
    } else if w.len() == 0 {
        assert(a + w =~= a);
    }
}

/// `find_char_from` finds the first `c` at or after `i`.
pub proof fn lemma_find_char_at(s: Seq<char>, c: char, i: int, p: int)
    requires
        0 <= i <= p < s.len(),
        s[p] == c,
        forall|j: int| i <= j < p ==> s[j] != c,
    ensures
        find_char_from(s, c, i) == Some(p),
    decreases p - i,
{
    if i < p {
        lemma_find_char_at(s, c, i + 1, p);
    }
}

/// A text without `c` is one piece.
pub proof fn lemma_split_no_sep(s: Seq<char>, c: char)
    requires
        forall|j: int| 0 <= j < s.len() ==> s[j] != c,
    ensures
        split_on(s, c) == seq![s],
    decreases s.len(),
{
    if s.len() > 0 {
        lemma_split_no_sep(s.drop_first(), c);
        assert(seq![s[0]] + s.drop_first() =~= s);
        assert(split_on(s, c) =~= seq![s]);
    } else {
        assert(s =~= Seq::<char>::empty());
    }
}

/// A split has at least one piece.
pub proof fn lemma_split_nonempty(s: Seq<char>, c: char)
    ensures
        split_on(s, c).len() >= 1,
    decreases s.len(),
{
    if s.len() > 0 {
        lemma_split_nonempty(s.drop_first(), c);
    }
}

/// Splitting at a separator between two texts splits each of them.
pub proof fn lemma_split_concat(a: Seq<char>, b: Seq<char>, c: char)
    ensures
        split_on(a + seq![c] + b, c) == split_on(a, c) + split_on(b, c),
    decreases a.len(),
{
    let s = a + seq![c] + b;
    if a.len() == 0 {
        assert(s.drop_first() =~= b);
    } else {
        assert(s.drop_first() =~= a.drop_first() + seq![c] + b);
        lemma_split_concat(a.drop_first(), b, c);
        lemma_split_nonempty(a.drop_first(), c);
        if a[0] != c {
            assert(split_on(s, c) =~= split_on(a, c) + split_on(b, c));
        } else {
            assert(split_on(s, c) =~= split_on(a, c) + split_on(b, c));
        }
    }
}

/// No piece holds a comma.
pub open spec fn comma_free(ps: Seq<Seq<char>>) -> bool {
    forall|i: int, j: int| 0 <= i < ps.len() && 0 <= j < ps[i].len() ==> #[trigger] ps[i][j] != ','
}

/// The pieces of the pieces joined with `", "`, split again at commas.
pub open spec fn rejoined(ps: Seq<Seq<char>>) -> Seq<Seq<char>> {
    split_on(join(ps, seq![',', ' ']), ',')
}

/// Splitting joined pieces at commas gives the pieces back, all but the first
/// with the space of the separator in front.
pub proof fn lemma_split_join(ps: Seq<Seq<char>>)
    requires
        ps.len() >= 1,
        comma_free(ps),
    ensures
        rejoined(ps).len() == ps.len(),
        rejoined(ps)[0] == ps[0],
        forall|i: int| 1 <= i < ps.len() ==> #[trigger] rejoined(ps)[i] == seq![' '] + ps[i],
    decreases ps.len(),
{
    if ps.len() == 1 {
        assert(ps[0].len() >= 0);
        assert forall|j: int| 0 <= j < ps[0].len() implies ps[0][j] != ',' by {
            assert(ps[0][j] != ',');
        }
        lemma_split_no_sep(ps[0], ',');
    } else {
        let dl = ps.drop_last();
        assert(comma_free(dl)) by {
            assert forall|i: int, j: int| 0 <= i < dl.len() && 0 <= j < dl[i].len() implies #[trigger] dl[i][j] != ',' by {
                assert(dl[i] == ps[i]);
            }
        }
        lemma_split_join(dl);
        let last = seq![' '] + ps.last();
        assert(join(ps, seq![',', ' ']) =~= join(dl, seq![',', ' ']) + seq![','] + last);
        lemma_split_concat(join(dl, seq![',', ' ']), last, ',');
        assert forall|j: int| 0 <= j < last.len() implies last[j] != ',' by {
            if j > 0 {
                assert(last[j] == ps[ps.len() - 1][j - 1]);
            }
        }
        lemma_split_no_sep(last, ',');
    }
}

/// What `first_value` looks at in one entry.
pub open spec fn entry_match(p: Seq<char>, key: Seq<char>) -> Option<Seq<char>> {
    match split_once(trim(p), ':') {
        Some((k, v)) => if trim(k) == key {
            Some(trim(v))
        } else {
            None
        },
        None => None,
    }
}

/// `first_value` looks at each entry only through its trimmed text.
pub proof fn lemma_first_value_congruent(q: Seq<Seq<char>>, ps: Seq<Seq<char>>, key: Seq<char>)
    requires
        q.len() == ps.len(),
        forall|i: int| 0 <= i < q.len() ==> #[trigger] trim(q[i]) == trim(ps[i]),
    ensures
        first_value(q, key) == first_value(ps, key),
    decreases q.len(),
{
    if q.len() > 0 {
        lemma_first_value_congruent(q.drop_last(), ps.drop_last(), key);
        assert(trim(q.last()) == trim(ps.last()));
    }
}

/// No entry matches: no value.
pub proof fn lemma_first_value_none(ps: Seq<Seq<char>>, key: Seq<char>)
    requires
        forall|j: int| 0 <= j < ps.len() ==> entry_match(#[trigger] ps[j], key) is None,
    ensures
        first_value(ps, key) is None,
    decreases ps.len(),
{
    if ps.len() > 0 {
        assert forall|j: int| 0 <= j < ps.drop_last().len() implies entry_match(#[trigger] ps.drop_last()[j], key) is None by {
            assert(ps.drop_last()[j] == ps[j]);
        }
        lemma_first_value_none(ps.drop_last(), key);
        assert(entry_match(ps[ps.len() - 1], key) is None);
    }
}

/// No piece of a split holds the separator.
pub proof fn lemma_split_pieces(s: Seq<char>, c: char)
    ensures
        forall|i: int, j: int| 0 <= i < split_on(s, c).len() && 0 <= j < split_on(s, c)[i].len() ==> #[trigger] split_on(s, c)[i][j] != c,
    decreases s.len(),
{
    if s.len() > 0 {
        lemma_split_pieces(s.drop_first(), c);
        lemma_split_nonempty(s.drop_first(), c);
        let rest = split_on(s.drop_first(), c);
        if s[0] != c {
            let first = seq![s[0]] + rest[0];
            assert forall|j: int| 0 <= j < first.len() implies first[j] != c by {
                if j > 0 {
                    assert(first[j] == rest[0][j - 1]);
                }
            }
        }
    }
}

/// Trimming keeps a text free of a character.
pub proof fn lemma_trim_keeps_free(p: Seq<char>, c: char)
    requires
        forall|j: int| 0 <= j < p.len() ==> p[j] != c,
    ensures
        forall|j: int| 0 <= j < trim(p).len() ==> #[trigger] trim(p)[j] != c,
{
    lemma_trim_start_shape(p);
    let t = trim_start(p);
    lemma_trim_end_shape(t);
    assert forall|j: int| 0 <= j < trim(p).len() implies #[trigger] trim(p)[j] != c by {
        assert(trim(p)[j] == t[j]);
        assert(t[j] == p[j + p.len() - t.len()]);
    }
}

/// The entries `remove_arg` keeps are trimmed, non-empty, free of commas and
/// not for `key`.
pub proof fn lemma_kept_entries(ps: Seq<Seq<char>>, key: Seq<char>)
    requires
        comma_free(ps),
    ensures
        comma_free(kept_entries(ps, key)),
        forall|i: int| 0 <= i < kept_entries(ps, key).len() ==> #[trigger] trim(kept_entries(ps, key)[i]) == kept_entries(ps, key)[i]
            && entry_key(kept_entries(ps, key)[i]) != Some(key),
    decreases ps.len(),
{
    if ps.len() > 0 {
        let dl = ps.drop_last();
        assert(comma_free(dl)) by {
            assert forall|i: int, j: int| 0 <= i < dl.len() && 0 <= j < dl[i].len() implies #[trigger] dl[i][j] != ',' by {
                assert(dl[i] == ps[i]);
            }
        }
        lemma_kept_entries(dl, key);
        let t = trim(ps.last());
        lemma_trim_idempotent(ps.last());
        assert forall|j: int| 0 <= j < ps.last().len() implies ps.last()[j] != ',' by {
            assert(ps[ps.len() - 1][j] != ',');
        }
        lemma_trim_keeps_free(ps.last(), ',');
    }
}

/// The entries `merge_args` starts from are trimmed, non-empty and free of
/// commas.
pub proof fn lemma_entries(ps: Seq<Seq<char>>)
    requires
        comma_free(ps),
    ensures
        comma_free(entries(ps)),
        forall|i: int| 0 <= i < entries(ps).len() ==> #[trigger] trim(entries(ps)[i]) == entries(ps)[i]
            && entries(ps)[i].len() > 0,
    decreases ps.len(),
{
    if ps.len() > 0 {
        let dl = ps.drop_last();
        assert(comma_free(dl)) by {
            assert forall|i: int, j: int| 0 <= i < dl.len() && 0 <= j < dl[i].len() implies #[trigger] dl[i][j] != ',' by {
                assert(dl[i] == ps[i]);
            }
        }
        lemma_entries(dl);
        lemma_trim_idempotent(ps.last());
        assert forall|j: int| 0 <= j < ps.last().len() implies ps.last()[j] != ',' by {
            assert(ps[ps.len() - 1][j] != ',');
        }
        lemma_trim_keeps_free(ps.last(), ',');
    }
}

/// Reading back a list of entries joined with `", "` reads the entries.
pub proof fn lemma_arg_value_of_join(ps: Seq<Seq<char>>, key: Seq<char>)
    requires
        ps.len() >= 1,
        comma_free(ps),
    ensures
        arg_value(join(ps, seq![',', ' ']), key) == first_value(ps, key),
{
    lemma_split_join(ps);
    let q = rejoined(ps);
    assert forall|i: int| 0 <= i < q.len() implies #[trigger] trim(q[i]) == trim(ps[i]) by {
        if i > 0 {
            lemma_trim_leading_space(ps[i]);
        }
    }
    lemma_first_value_congruent(q, ps, key);
}

/// An entry that is trimmed and not for `key` does not match `key`.
pub proof fn lemma_other_entry_no_match(p: Seq<char>, key: Seq<char>)
    requires
        trim(p) == p,
        entry_key(p) != Some(key),
    ensures
        entry_match(p, key) is None,
{
}

/// The entry `key: value` reads back as the trimmed value.
pub proof fn lemma_entry_match_written(key: Seq<char>, value: Seq<char>)
    requires
        trim(key) == key,
        forall|j: int| 0 <= j < key.len() ==> key[j] != ':',
    ensures
        entry_match(entry(key, value), key) == Some(trim(value)),
{
    let e = entry(key, value);
    let a = key + seq![':'];
    let w = seq![' '] + value;
    assert(e =~= a + w);
    assert(!is_white_space(':'));
    lemma_trim_shape(key);
    assert(!is_white_space(e[0])) by {
        if key.len() > 0 {
            assert(e[0] == key[0]);
            assert(trim(key)[0] == key[0]);
        } else {
            assert(e[0] == ':');
        }
    }
    lemma_trim_start_at(e, 0);
    assert(e.skip(0) =~= e);
    assert(a.last() == ':');
    lemma_trim_end_concat(a, w);
    let r = trim_end(w);
    assert(trim(e) == a + r);
    let te = a + r;
    assert(te[key.len() as int] == ':');
    assert forall|j: int| 0 <= j < key.len() implies te[j] != ':' by {
        assert(te[j] == key[j]);
    }
    lemma_find_char_at(te, ':', 0, key.len() as int);
    assert(te.take(key.len() as int) =~= key);
    assert(te.skip(key.len() + 1int) =~= r);
    lemma_trim_after_trim_end(w);
    lemma_trim_leading_space(value);
}

/// Every entry is `key: value` or a trimmed entry for another key; one of
/// them is `key: value`: the first match is that entry.
pub proof fn lemma_first_value_written(ps: Seq<Seq<char>>, key: Seq<char>, value: Seq<char>)
    requires
        trim(key) == key,
        forall|j: int| 0 <= j < key.len() ==> key[j] != ':',
        forall|i: int| 0 <= i < ps.len() ==> #[trigger] ps[i] == entry(key, value) || (trim(ps[i]) == ps[i]
            && entry_key(ps[i]) != Some(key)),
        exists|i: int| 0 <= i < ps.len() && ps[i] == entry(key, value),
    ensures
        first_value(ps, key) == Some(trim(value)),
    decreases ps.len(),
{
    lemma_entry_match_written(key, value);
    let dl = ps.drop_last();
    if exists|i: int| 0 <= i < dl.len() && dl[i] == entry(key, value) {
        let i = choose|i: int| 0 <= i < dl.len() && dl[i] == entry(key, value);
        assert(dl[i] == ps[i]);
        assert forall|k: int| 0 <= k < dl.len() implies #[trigger] dl[k] == entry(key, value) || (trim(dl[k]) == dl[k]
            && entry_key(dl[k]) != Some(key)) by {
            assert(dl[k] == ps[k]);
        }
        lemma_first_value_written(dl, key, value);
    } else {
        assert forall|k: int| 0 <= k < dl.len() implies entry_match(#[trigger] dl[k], key) is None by {
            assert(dl[k] == ps[k]);
            assert(ps[k] != entry(key, value));
            lemma_other_entry_no_match(dl[k], key);
        }
        lemma_first_value_none(dl, key);
        let i = choose|i: int| 0 <= i < ps.len() && ps[i] == entry(key, value);
        if i < ps.len() - 1 {
            assert(dl[i] == ps[i]);
        }
        assert(ps.last() == entry(key, value));
    }
}

/// After removing `key` from an argument list, the list has no value for it.
pub proof fn lemma_get_after_remove(args: Seq<char>, key: Seq<char>)
    ensures
        arg_value(args_without(args, key), key) is None,
{
    let ps = split_on(args, ',');
    lemma_split_pieces(args, ',');
    let kept = kept_entries(ps, key);
    lemma_kept_entries(ps, key);
    if kept.len() == 0 {
        assert(args_without(args, key) =~= Seq::<char>::empty());
        assert(split_on(Seq::<char>::empty(), ',') == seq![Seq::<char>::empty()]);
        let e = Seq::<char>::empty();
        assert(trim(e) =~= e);
        assert(find_char_from(e, ':', 0) is None);
        assert(entry_match(e, key) is None);
        assert forall|j: int| 0 <= j < seq![e].len() implies entry_match(#[trigger] seq![e][j], key) is None by {
            assert(seq![e][j] == e);
        }
        lemma_first_value_none(seq![e], key);
    } else {
        lemma_arg_value_of_join(kept, key);
        assert forall|i: int| 0 <= i < kept.len() implies entry_match(#[trigger] kept[i], key) is None by {
            lemma_other_entry_no_match(kept[i], key);
        }
        lemma_first_value_none(kept, key);
    }
}

/// After setting `key` to `value`, the argument list reads back the trimmed
/// value, provided the key is trimmed and neither holds a comma nor the key a
/// colon (which would split the entry differently when read).
pub proof fn lemma_get_after_merge(args: Seq<char>, key: Seq<char>, value: Seq<char>)
    requires
        trim(key) == key,
        forall|j: int| 0 <= j < key.len() ==> key[j] != ':' && key[j] != ',',
        forall|j: int| 0 <= j < value.len() ==> value[j] != ',',
    ensures
        arg_value(merged_args(args, key, value), key) == Some(trim(value)),
{
    let ps = split_on(args, ',');
    lemma_split_pieces(args, ',');
    let es = entries(ps);
    lemma_entries(ps);
    let e = entry(key, value);
    let replaced = replace_entries(es, key, e);
    let list = if has_key(es, key) {
        replaced
    } else {
        replaced.push(e)
    };
    assert(merged_args(args, key, value) == join(list, seq![',', ' ']));
    assert forall|j: int| 0 <= j < e.len() implies e[j] != ',' by {
        if j < key.len() {
            assert(e[j] == key[j]);
        } else if j >= key.len() + 2 {
            assert(e[j] == value[j - key.len() - 2]);
        }
    }
    assert(comma_free(list)) by {
        assert forall|i: int, j: int| 0 <= i < list.len() && 0 <= j < list[i].len() implies #[trigger] list[i][j] != ',' by {
            if i < es.len() {
                if entry_key(es[i]) == Some(key) {
                    assert(list[i] == e);
                } else {
                    assert(list[i] == es[i]);
                }
            } else {
                assert(list[i] == e);
            }
        }
    }
    assert forall|i: int| 0 <= i < list.len() implies #[trigger] list[i] == e || (trim(list[i]) == list[i]
        && entry_key(list[i]) != Some(key)) by {
        if i < es.len() {
            assert(trim(es[i]) == es[i]);
        }
    }
    if has_key(es, key) {
        let i = choose|i: int| 0 <= i < es.len() && entry_key(#[trigger] es[i]) == Some(key);
        assert(list[i] == e);
    } else {
        assert(list[list.len() - 1] == e);
    }
    lemma_first_value_written(list, key, value);
    lemma_arg_value_of_join(list, key);
}

/// Pieces that are not blank all count as entries, trimmed.
pub proof fn lemma_entries_of_filled(q: Seq<Seq<char>>)
    requires
        forall|i: int| 0 <= i < q.len() ==> (#[trigger] trim(q[i])).len() > 0,
    ensures
        entries(q) == q.map_values(|p: Seq<char>| trim(p)),
    decreases q.len(),
{
    if q.len() == 0 {
        assert(q.map_values(|p: Seq<char>| trim(p)) =~= Seq::<Seq<char>>::empty());
    } else {
        let dl = q.drop_last();
        assert forall|i: int| 0 <= i < dl.len() implies (#[trigger] trim(dl[i])).len() > 0 by {
            assert(dl[i] == q[i]);
        }
        lemma_entries_of_filled(dl);
        assert(trim(q[q.len() - 1]).len() > 0);
        assert(q.map_values(|p: Seq<char>| trim(p)) =~= dl.map_values(|p: Seq<char>| trim(p)).push(
            trim(q.last()),
        ));
    }
}

/// Setting `key` to `value` a second time changes nothing, provided the key is
/// trimmed and neither holds a comma nor the key a colon (which would split
/// the entry differently when read again).
pub proof fn lemma_merge_idempotent(args: Seq<char>, key: Seq<char>, value: Seq<char>)
    requires
        trim(key) == key,
        forall|j: int| 0 <= j < key.len() ==> key[j] != ':' && key[j] != ',',
        forall|j: int| 0 <= j < value.len() ==> value[j] != ',',
    ensures
        merged_args(merged_args(args, key, value), key, value) == merged_args(args, key, value),
{
    let ps = split_on(args, ',');
    lemma_split_pieces(args, ',');
    let es = entries(ps);
    lemma_entries(ps);
    let e = entry(key, value);
    let replaced = replace_entries(es, key, e);
    let list = if has_key(es, key) {
        replaced
    } else {
        replaced.push(e)
    };
    let m = merged_args(args, key, value);
    assert(m == join(list, seq![',', ' ']));
    assert forall|j: int| 0 <= j < e.len() implies e[j] != ',' by {
        if j < key.len() {
            assert(e[j] == key[j]);
        } else if j >= key.len() + 2 {
            assert(e[j] == value[j - key.len() - 2]);
        }
    }
    assert(comma_free(list)) by {
        assert forall|i: int, j: int| 0 <= i < list.len() && 0 <= j < list[i].len() implies #[trigger] list[i][j] != ',' by {
            if i < es.len() {
                if entry_key(es[i]) == Some(key) {
                    assert(list[i] == e);
                } else {
                    assert(list[i] == es[i]);
                }
            } else {
                assert(list[i] == e);
            }
        }
    }
    assert forall|i: int| 0 <= i < list.len() implies #[trigger] list[i] == e || (trim(list[i]) == list[i]
        && list[i].len() > 0 && entry_key(list[i]) != Some(key)) by {
        if i < es.len() {
            assert(trim(es[i]) == es[i]);
        }
    }
    let w = if has_key(es, key) {
        choose|i: int| 0 <= i < es.len() && entry_key(#[trigger] es[i]) == Some(key)
    } else {
        list.len() - 1
    };
    assert(0 <= w < list.len() && list[w] == e);
    lemma_entry_match_written(key, value);
    let te = trim(e);
    assert(entry_key(te) == Some(key));
    lemma_trim_idempotent(e);
    lemma_split_join(list);
    let q = rejoined(list);
    assert forall|i: int| 0 <= i < q.len() implies #[trigger] trim(q[i]) == trim(list[i]) by {
        if i > 0 {
            lemma_trim_leading_space(list[i]);
        }
    }
    assert forall|i: int| 0 <= i < q.len() implies (#[trigger] trim(q[i])).len() > 0 by {
        assert(trim(q[i]) == trim(list[i]));
        if list[i] != e {
            assert(trim(list[i]) == list[i]);
        }
    }
    lemma_entries_of_filled(q);
    let ps2 = entries(q);
    assert(split_on(m, ',') == q);
    assert(ps2.len() == list.len());
    assert forall|i: int| 0 <= i < ps2.len() implies #[trigger] ps2[i] == trim(list[i]) by {
        assert(ps2[i] == trim(q[i]));
    }
    assert(entry_key(ps2[w]) == Some(key));
    assert(has_key(ps2, key));
    let r2 = replace_entries(ps2, key, e);
    assert forall|i: int| 0 <= i < list.len() implies #[trigger] r2[i] == list[i] by {
        assert(ps2[i] == trim(list[i]));
        if list[i] == e {
            assert(ps2[i] == te);
        } else {
            assert(ps2[i] == list[i]);
        }
    }
    assert(r2 =~= list);
}

} // verus!
