//! Character-level text utilities: conversion between `str`/`String` and
//! character vectors, trimming, splitting, and decimal number parsing and
//! printing, each stated over `Seq<char>`.
use vstd::prelude::*;

verus! {

/// Appends one character to the end of a `String`.
///
/// Trusted: calls std's `String::push`, which the std documentation says
/// appends the given char to the end of the string.
#[verifier::external_body]
pub(crate) fn push_char(s: &mut String, c: char)
    ensures
        final(s)@ == old(s)@.push(c),
{
    s.push(c);
}

/// The characters of `s`, in order.
pub fn chars_of(s: &str) -> (v: Vec<char>)
    ensures
        v@ == s@,
{
    let mut v: Vec<char> = Vec::new();
    for c in it: s.chars()
        invariant
            v@ == it.seq().take(it.index() as int),
    {
        v.push(c);
    }
    v
}

/// A `String` made of the characters of `v`.
pub fn string_from_chars(v: &Vec<char>) -> (s: String)
    ensures
        s@ == v@,
{
    let mut s = String::new();
    let mut i: usize = 0;
    while i < v.len()
        invariant
            i <= v.len(),
            s@ == v@.subrange(0, i as int),
        decreases v.len() - i,
    {
        push_char(&mut s, v[i]);
        i = i + 1;
        assert(s@ =~= v@.subrange(0, i as int));
    }
    assert(v@.subrange(0, v.len() as int) =~= v@);
    s
}

/// Whether two character vectors hold the same characters.
pub fn chars_eq(a: &Vec<char>, b: &Vec<char>) -> (r: bool)
    ensures
        r == (a@ == b@),
{
    if a.len() != b.len() {
        return false;
    }
    let mut i: usize = 0;
    while i < a.len()
        invariant
            a.len() == b.len(),
            i <= a.len(),
            forall|k: int| 0 <= k < i ==> a@[k] == b@[k],
        decreases a.len() - i,
    {
        if a[i] != b[i] {
            return false;
        }
        i = i + 1;
    }
    assert(a@ =~= b@);
    true
}

/// Whether two string slices hold the same characters.
pub fn str_eq(a: &str, b: &str) -> (r: bool)
    ensures
        r == (a@ == b@),
{
    let x = a.to_owned();
    let y = b.to_owned();
    x == y
}

/// `s` starts with `p`.
pub open spec fn starts_with(s: Seq<char>, p: Seq<char>) -> bool {
    p.len() <= s.len() && s.subrange(0, p.len() as int) == p
}

/// `s` ends with `p`.
pub open spec fn ends_with(s: Seq<char>, p: Seq<char>) -> bool {
    p.len() <= s.len() && s.subrange(s.len() - p.len(), s.len() as int) == p
}

/// `p` occurs in `s` as a contiguous run.
pub open spec fn contains_run(s: Seq<char>, p: Seq<char>) -> bool {
    exists|i: int| 0 <= i <= s.len() - p.len() && #[trigger] s.subrange(i, i + p.len()) == p
}

pub fn vec_starts_with(s: &Vec<char>, p: &Vec<char>) -> (r: bool)
    ensures
        r == starts_with(s@, p@),
{
    if p.len() > s.len() {
        return false;
    }
    let mut i: usize = 0;
    while i < p.len()
        invariant
            p.len() <= s.len(),
            i <= p.len(),
            forall|k: int| 0 <= k < i ==> s@[k] == p@[k],
        decreases p.len() - i,
    {
        if s[i] != p[i] {
            assert(s@.subrange(0, p.len() as int)[i as int] != p@[i as int]);
            return false;
        }
        i = i + 1;
    }
    assert(s@.subrange(0, p.len() as int) =~= p@);
    true
}

pub fn vec_ends_with(s: &Vec<char>, p: &Vec<char>) -> (r: bool)
    ensures
        r == ends_with(s@, p@),
{
    if p.len() > s.len() {
        return false;
    }
    let off = s.len() - p.len();
    let mut i: usize = 0;
    while i < p.len()
        invariant
            p.len() <= s.len(),
            off == s.len() - p.len(),
            i <= p.len(),
            forall|k: int| 0 <= k < i ==> s@[off + k] == p@[k],
        decreases p.len() - i,
    {
        if s[off + i] != p[i] {
            assert(s@.subrange(off as int, s.len() as int)[i as int] != p@[i as int]);
            return false;
        }
        i = i + 1;
    }
    assert(s@.subrange(off as int, s.len() as int) =~= p@);
    true
}

/// Whether `p` occurs in `s`.
pub fn vec_contains_run(s: &Vec<char>, p: &Vec<char>) -> (r: bool)
    ensures
        r == contains_run(s@, p@),
{
    if p.len() > s.len() {
        assert forall|i: int| 0 <= i <= s@.len() - p@.len() implies #[trigger] s@.subrange(i, i + p@.len()) != p@ by {}
        return false;
    }
    if p.len() == 0 {
        assert(s@.subrange(0int, 0int + p@.len()) =~= p@);
        return true;
    }
    let mut i: usize = 0;
    while i <= s.len() - p.len()
        invariant
            1 <= p.len() <= s.len(),
            i <= s.len() - p.len() + 1,
            forall|j: int| 0 <= j < i ==> #[trigger] s@.subrange(j, j + p@.len()) != p@,
        decreases s.len() - p.len() + 1 - i,
    {
        let mut k: usize = 0;
        let mut ok = true;
        while k < p.len()
            invariant
                p.len() <= s.len(),
                i <= s.len() - p.len(),
                k <= p.len(),
                ok ==> forall|m: int| 0 <= m < k ==> s@[i + m] == p@[m],
                !ok ==> s@.subrange(i as int, i + p@.len()) != p@,
            decreases p.len() - k,
        {
            if ok && s[i + k] != p[k] {
                assert(s@.subrange(i as int, i + p@.len())[k as int] != p@[k as int]);
                ok = false;
            }
            k = k + 1;
        }
        if ok {
            assert(s@.subrange(i as int, i + p@.len()) =~= p@);
            return true;
        }
        i = i + 1;
    }
    false
}

/// The characters that `str::trim` and friends treat as whitespace
/// (the Unicode `White_Space` property, as `char::is_whitespace` documents).
pub open spec fn is_ws(c: char) -> bool {
    let u = c as u32;
    ||| 0x09 <= u <= 0x0D
    ||| u == 0x20
    ||| u == 0x85
    ||| u == 0xA0
    ||| u == 0x1680
    ||| 0x2000 <= u <= 0x200A
    ||| u == 0x2028
    ||| u == 0x2029
    ||| u == 0x202F
    ||| u == 0x205F
    ||| u == 0x3000
}

pub fn char_is_ws(c: char) -> (r: bool)
    ensures
        r == is_ws(c),
{
    let u = c as u32;
    (0x09 <= u && u <= 0x0D) || u == 0x20 || u == 0x85 || u == 0xA0 || u == 0x1680 || (0x2000
        <= u && u <= 0x200A) || u == 0x2028 || u == 0x2029 || u == 0x202F || u == 0x205F || u
        == 0x3000
}

/// What is stripped from the ends of a text.
pub enum CharPattern {
    Whitespace,
    Exact(char),
}

pub open spec fn pattern_holds(p: CharPattern, c: char) -> bool {
    match p {
        CharPattern::Whitespace => is_ws(c),
        CharPattern::Exact(x) => c == x,
    }
}

pub fn pattern_matches(p: &CharPattern, c: char) -> (r: bool)
    ensures
        r == pattern_holds(*p, c),
{
    match p {
        CharPattern::Whitespace => char_is_ws(c),
        CharPattern::Exact(x) => c == *x,
    }
}

/// `s` without its leading characters that match `p`.
pub open spec fn strip_left(s: Seq<char>, p: CharPattern) -> Seq<char>
    decreases s.len(),
{
    if s.len() > 0 && pattern_holds(p, s[0]) {
        strip_left(s.drop_first(), p)
    } else {
        s
    }
}

/// `s` without its trailing characters that match `p`.
pub open spec fn strip_right(s: Seq<char>, p: CharPattern) -> Seq<char>
    decreases s.len(),
{
    if s.len() > 0 && pattern_holds(p, s.last()) {
        strip_right(s.drop_last(), p)
    } else {
        s
    }
}

/// `s` without the characters matching `p` at either end: `str::trim` for
/// whitespace, `str::trim_matches` for a char.
pub open spec fn strip(s: Seq<char>, p: CharPattern) -> Seq<char> {
    strip_right(strip_left(s, p), p)
}

pub open spec fn trim(s: Seq<char>) -> Seq<char> {
    strip(s, CharPattern::Whitespace)
}

pub open spec fn trim_matches(s: Seq<char>, c: char) -> Seq<char> {
    strip(s, CharPattern::Exact(c))
}

proof fn lemma_strip_left_skip(s: Seq<char>, p: CharPattern, i: int)
    requires
        0 <= i <= s.len(),
        forall|k: int| 0 <= k < i ==> pattern_holds(p, #[trigger] s[k]),
    ensures
        strip_left(s, p) == strip_left(s.subrange(i, s.len() as int), p),
    decreases i,
{
    if i == 0 {
        assert(s.subrange(0, s.len() as int) =~= s);
    } else {
        let t = s.drop_first();
        assert forall|k: int| 0 <= k < i - 1 implies pattern_holds(p, #[trigger] t[k]) by {
            assert(t[k] == s[k + 1]);
        }
        lemma_strip_left_skip(t, p, i - 1);
        assert(t.subrange(i - 1, t.len() as int) =~= s.subrange(i, s.len() as int));
    }
}

proof fn lemma_strip_right_cut(s: Seq<char>, p: CharPattern, j: int)
    requires
        0 <= j <= s.len(),
        forall|k: int| j <= k < s.len() ==> pattern_holds(p, #[trigger] s[k]),
    ensures
        strip_right(s, p) == strip_right(s.subrange(0, j), p),
    decreases s.len() - j,
{
    if j == s.len() {
        assert(s.subrange(0, j) =~= s);
    } else {
        let t = s.drop_last();
        assert forall|k: int| j <= k < t.len() implies pattern_holds(p, #[trigger] t[k]) by {
            assert(t[k] == s[k]);
        }
        lemma_strip_right_cut(t, p, j);
        assert(t.subrange(0, j) =~= s.subrange(0, j));
    }
}

/// The characters of `s[start..end]` with the matches of `p` removed from both
/// ends.
pub fn strip_vec(s: &Vec<char>, p: &CharPattern) -> (r: Vec<char>)
    ensures
        r@ == strip(s@, *p),
{
    let mut i: usize = 0;
    while i < s.len() && pattern_matches(p, s[i])
        invariant
            i <= s.len(),
            forall|k: int| 0 <= k < i ==> pattern_holds(*p, #[trigger] s@[k]),
        decreases s.len() - i,
    {
        i = i + 1;
    }
    proof {
        lemma_strip_left_skip(s@, *p, i as int);
    }
    let ghost left = s@.subrange(i as int, s@.len() as int);
    assert(strip_left(left, *p) == left);
    let mut j: usize = s.len();
    while j > i && pattern_matches(p, s[j - 1])
        invariant
            i <= j <= s.len(),
            forall|k: int| j <= k < s.len() ==> pattern_holds(*p, #[trigger] s@[k]),
        decreases j,
    {
        j = j - 1;
    }
    let ghost mid = s@.subrange(i as int, j as int);
    proof {
        assert forall|k: int| (j - i) <= k < left.len() implies pattern_holds(
            *p,
            #[trigger] left[k],
        ) by {
            assert(left[k] == s@[k + i]);
        }
        lemma_strip_right_cut(left, *p, (j - i) as int);
        assert(left.subrange(0, (j - i) as int) =~= mid);
        if mid.len() > 0 {
            assert(mid.last() == s@[j - 1]);
        }
        assert(strip_right(mid, *p) == mid);
    }
    let mut r: Vec<char> = Vec::new();
    let mut k: usize = i;
    while k < j
        invariant
            i <= k <= j <= s.len(),
            r@ == s@.subrange(i as int, k as int),
        decreases j - k,
    {
        r.push(s[k]);
        k = k + 1;
        assert(r@ =~= s@.subrange(i as int, k as int));
    }
    r
}

/// `str::trim` on a character vector.
pub fn trim_vec(s: &Vec<char>) -> (r: Vec<char>)
    ensures
        r@ == trim(s@),
{
    strip_vec(s, &CharPattern::Whitespace)
}

/// `str::trim_matches(c)` on a character vector.
pub fn trim_matches_vec(s: &Vec<char>, c: char) -> (r: Vec<char>)
    ensures
        r@ == trim_matches(s@, c),
{
    strip_vec(s, &CharPattern::Exact(c))
}

/// A copy of `s[start..end]`.
pub fn sub_vec(s: &Vec<char>, start: usize, end: usize) -> (r: Vec<char>)
    requires
        start <= end <= s.len(),
    ensures
        r@ == s@.subrange(start as int, end as int),
{
    let mut r: Vec<char> = Vec::new();
    let mut k: usize = start;
    while k < end
        invariant
            start <= k <= end <= s.len(),
            r@ == s@.subrange(start as int, k as int),
        decreases end - k,
    {
        r.push(s[k]);
        k = k + 1;
        assert(r@ =~= s@.subrange(start as int, k as int));
    }
    r
}

/// `s` with every occurrence of `from` replaced by `to`.
pub open spec fn replace_char(s: Seq<char>, from: char, to: char) -> Seq<char> {
    s.map_values(|c: char| if c == from { to } else { c })
}

pub fn replace_char_vec(s: &Vec<char>, from: char, to: char) -> (r: Vec<char>)
    ensures
        r@ == replace_char(s@, from, to),
{
    let mut r: Vec<char> = Vec::new();
    let mut k: usize = 0;
    while k < s.len()
        invariant
            k <= s.len(),
            r@ == replace_char(s@.subrange(0, k as int), from, to),
        decreases s.len() - k,
    {
        let c = s[k];
        r.push(if c == from { to } else { c });
        k = k + 1;
        assert(r@ =~= replace_char(s@.subrange(0, k as int), from, to));
    }
    assert(s@.subrange(0, s.len() as int) =~= s@);
    r
}

/// Index of the first `c` in `s`, if any.
pub open spec fn first_index_of(s: Seq<char>, c: char) -> Option<int>
    decreases s.len(),
{
    if s.len() == 0 {
        None
    } else if s[0] == c {
        Some(0)
    } else {
        match first_index_of(s.drop_first(), c) {
            Some(i) => Some(i + 1),
            None => None,
        }
    }
}

/// The pieces of `s` between occurrences of `c`: `str::split(c)`.
pub open spec fn split_on(s: Seq<char>, c: char) -> Seq<Seq<char>>
    decreases s.len(),
{
    match first_index_of(s, c) {
        Some(i) => if 0 <= i < s.len() {
            seq![s.subrange(0, i)] + split_on(s.subrange(i + 1, s.len() as int), c)
        } else {
            seq![s]
        },
        None => seq![s],
    }
}

pub proof fn lemma_first_index_of(s: Seq<char>, c: char, i: int)
    requires
        0 <= i < s.len(),
        s[i] == c,
        forall|k: int| 0 <= k < i ==> s[k] != c,
    ensures
        first_index_of(s, c) == Some(i),
    decreases i,
{
    if i > 0 {
        lemma_first_index_of(s.drop_first(), c, i - 1);
    }
}

pub proof fn lemma_first_index_none(s: Seq<char>, c: char)
    requires
        forall|k: int| 0 <= k < s.len() ==> s[k] != c,
    ensures
        first_index_of(s, c) is None,
    decreases s.len(),
{
    if s.len() > 0 {
        lemma_first_index_none(s.drop_first(), c);
    }
}

/// `str::split(c)` on a character vector.
pub fn split_vec(s: &Vec<char>, c: char) -> (r: Vec<Vec<char>>)
    ensures
        r@.map_values(|v: Vec<char>| v@) == split_on(s@, c),
{
    let mut r: Vec<Vec<char>> = Vec::new();
    let mut start: usize = 0;
    let mut i: usize = 0;
    assert(s@.subrange(0, s.len() as int) =~= s@);
    assert(r@.map_values(|v: Vec<char>| v@) =~= Seq::<Seq<char>>::empty());
    while i < s.len()
        invariant
            start <= i <= s.len(),
            forall|k: int| start <= k < i ==> s@[k] != c,
            r@.map_values(|v: Vec<char>| v@) + split_on(s@.subrange(start as int, s.len() as int), c)
                == split_on(s@, c),
        decreases s.len() - i,
    {
        if s[i] == c {
            let ghost rest = s@.subrange(start as int, s.len() as int);
            proof {
                assert forall|k: int| 0 <= k < i - start implies rest[k] != c by {
                    assert(rest[k] == s@[start + k]);
                }
                lemma_first_index_of(rest, c, (i - start) as int);
                assert(rest.subrange(0, (i - start) as int) =~= s@.subrange(start as int, i as int));
                assert(rest.subrange((i - start + 1) as int, rest.len() as int) =~= s@.subrange(
                    i + 1,
                    s.len() as int,
                ));
            }
            let piece = sub_vec(s, start, i);
            let ghost old_r = r@;
            r.push(piece);
            proof {
                assert(r@.map_values(|v: Vec<char>| v@) =~= old_r.map_values(|v: Vec<char>| v@)
                    + seq![piece@]);
                assert(split_on(rest, c) == seq![piece@] + split_on(
                    s@.subrange(i + 1, s.len() as int),
                    c,
                ));
                assert(r@.map_values(|v: Vec<char>| v@) + split_on(
                    s@.subrange(i + 1, s.len() as int),
                    c,
                ) =~= old_r.map_values(|v: Vec<char>| v@) + split_on(rest, c));
            }
            start = i + 1;
        }
        i = i + 1;
    }
    let ghost rest = s@.subrange(start as int, s.len() as int);
    proof {
        assert forall|k: int| 0 <= k < rest.len() implies rest[k] != c by {
            assert(rest[k] == s@[start + k]);
        }
        lemma_first_index_none(rest, c);
    }
    let piece = sub_vec(s, start, s.len());
    let ghost old_r = r@;
    r.push(piece);
    assert(r@.map_values(|v: Vec<char>| v@) =~= old_r.map_values(|v: Vec<char>| v@) + seq![
        piece@,
    ]);
    r
}

pub open spec fn is_digit(c: char) -> bool {
    '0' <= c <= '9'
}

pub open spec fn digit_value(c: char) -> int {
    (c as u32) - ('0' as u32)
}

/// The number that the decimal digits `s` spell.
pub open spec fn digits_value(s: Seq<char>) -> int
    decreases s.len(),
{
    if s.len() == 0 {
        0
    } else {
        digits_value(s.drop_last()) * 10 + digit_value(s.last())
    }
}

pub open spec fn all_digits(s: Seq<char>) -> bool {
    forall|k: int| 0 <= k < s.len() ==> is_digit(#[trigger] s[k])
}

/// What `str::parse::<u64>` returns: an optional `+`, then one or more ASCII
/// digits, of value at most `u64::MAX`.
pub open spec fn spec_parse_u64(s: Seq<char>) -> Option<u64> {
    let d = if s.len() > 0 && s[0] == '+' {
        s.drop_first()
    } else {
        s
    };
    if d.len() > 0 && all_digits(d) && digits_value(d) <= u64::MAX {
        Some(digits_value(d) as u64)
    } else {
        None
    }
}

/// What `str::parse::<i64>` returns: an optional `+` or `-`, then one or more
/// ASCII digits, of signed value within the range of `i64`.
pub open spec fn spec_parse_i64(s: Seq<char>) -> Option<i64> {
    let neg = s.len() > 0 && s[0] == '-';
    let d = if s.len() > 0 && (s[0] == '+' || s[0] == '-') {
        s.drop_first()
    } else {
        s
    };
    let v = if neg {
        -digits_value(d)
    } else {
        digits_value(d)
    };
    if d.len() > 0 && all_digits(d) && i64::MIN <= v <= i64::MAX {
        Some(v as i64)
    } else {
        None
    }
}

proof fn lemma_digits_value_nonneg(s: Seq<char>)
    requires
        all_digits(s),
    ensures
        digits_value(s) >= 0,
    decreases s.len(),
{
    if s.len() > 0 {
        assert(all_digits(s.drop_last())) by {
            assert forall|k: int| 0 <= k < s.drop_last().len() implies is_digit(
                #[trigger] s.drop_last()[k],
            ) by {
                assert(s.drop_last()[k] == s[k]);
            }
        }
        lemma_digits_value_nonneg(s.drop_last());
        assert(is_digit(s[s.len() - 1]));
    }
}

/// Reads the digits `s[start..end]` as a number no larger than `limit`, or
/// `None` where a character is not a digit, the run is empty or the value
/// exceeds `limit`.
fn read_digits(s: &Vec<char>, start: usize, limit: u64) -> (r: Option<u64>)
    requires
        start <= s.len(),
        limit >= 9,
    ensures
        ({
            let d = s@.subrange(start as int, s.len() as int);
            match r {
                Some(v) => d.len() > 0 && all_digits(d) && digits_value(d) == v && v <= limit,
                None => !(d.len() > 0 && all_digits(d) && digits_value(d) <= limit),
            }
        }),
{
    let ghost d = s@.subrange(start as int, s.len() as int);
    if start == s.len() {
        return None;
    }
    let mut acc: u64 = 0;
    let mut i: usize = start;
    while i < s.len()
        invariant
            start <= i <= s.len(),
            d == s@.subrange(start as int, s.len() as int),
            all_digits(s@.subrange(start as int, i as int)),
            digits_value(s@.subrange(start as int, i as int)) == acc,
            acc <= limit,
            limit >= 9,
        decreases s.len() - i,
    {
        let c = s[i];
        let ghost pre = s@.subrange(start as int, i as int);
        let ghost nxt = s@.subrange(start as int, i + 1);
        assert(nxt.drop_last() =~= pre);
        assert(nxt.last() == c);
        if !('0' <= c && c <= '9') {
            assert(d[i - start] == c);
            assert(!is_digit(d[i - start]));
            return None;
        }
        let dv = (c as u32 - '0' as u32) as u64;
        if acc > (limit - dv) / 10 {
            proof {
                assert(all_digits(nxt)) by {
                    assert forall|k: int| 0 <= k < nxt.len() implies is_digit(#[trigger] nxt[k]) by {
                        if k < pre.len() {
                            assert(nxt[k] == pre[k]);
                        }
                    }
                }
                assert(d.subrange(0, (i + 1 - start) as int) =~= nxt);
                assert(digits_value(nxt) == acc * 10 + dv);
                assert(acc * 10 + dv > limit) by (nonlinear_arith)
                    requires
                        acc > (limit - dv) / 10,
                        dv <= 9,
                        dv <= limit || true,
                ;
                lemma_prefix_value_bound(d, (i + 1 - start) as int);
            }
            return None;
        }
        assert(acc * 10 + dv <= limit) by (nonlinear_arith)
            requires
                acc <= (limit - dv) / 10,
                dv <= limit,
        ;
        acc = acc * 10 + dv;
        assert(all_digits(nxt)) by {
            assert forall|k: int| 0 <= k < nxt.len() implies is_digit(#[trigger] nxt[k]) by {
                if k < pre.len() {
                    assert(nxt[k] == pre[k]);
                }
            }
        }
        i = i + 1;
    }
    assert(s@.subrange(start as int, s.len() as int) == d);
    Some(acc)
}

/// The value of a digit run is at least the value of any prefix of it.
proof fn lemma_prefix_value_bound(d: Seq<char>, n: int)
    requires
        0 <= n <= d.len(),
        all_digits(d.subrange(0, n)) || !all_digits(d),
    ensures
        all_digits(d) ==> digits_value(d) >= digits_value(d.subrange(0, n)),
    decreases d.len() - n,
{
    if all_digits(d) && n < d.len() {
        let e = d.drop_last();
        assert(all_digits(e)) by {
            assert forall|k: int| 0 <= k < e.len() implies is_digit(#[trigger] e[k]) by {
                assert(e[k] == d[k]);
            }
        }
        assert(e.subrange(0, n) =~= d.subrange(0, n));
        lemma_prefix_value_bound(e, n);
        lemma_digits_value_nonneg(e);
        assert(is_digit(d[d.len() - 1]));
        assert(digits_value(e) * 10 >= digits_value(e)) by (nonlinear_arith)
            requires
                digits_value(e) >= 0,
        ;
    } else if all_digits(d) {
        assert(d.subrange(0, n) =~= d);
    }
}

/// `str::parse::<u64>` on a character vector.
pub fn parse_u64_chars(s: &Vec<char>) -> (r: Option<u64>)
    ensures
        r == spec_parse_u64(s@),
{
    let start: usize = if s.len() > 0 && s[0] == '+' {
        1
    } else {
        0
    };
    assert(s@.subrange(start as int, s.len() as int) =~= if s@.len() > 0 && s@[0] == '+' {
        s@.drop_first()
    } else {
        s@
    });
    read_digits(s, start, u64::MAX)
}

/// `str::parse::<i64>` on a character vector.
pub fn parse_i64_chars(s: &Vec<char>) -> (r: Option<i64>)
    ensures
        r == spec_parse_i64(s@),
{
    let neg = s.len() > 0 && s[0] == '-';
    let start: usize = if s.len() > 0 && (s[0] == '+' || s[0] == '-') {
        1
    } else {
        0
    };
    let ghost d = s@.subrange(start as int, s.len() as int);
    assert(d =~= if s@.len() > 0 && (s@[0] == '+' || s@[0] == '-') {
        s@.drop_first()
    } else {
        s@
    });
    let limit: u64 = if neg {
        0x8000_0000_0000_0000u64
    } else {
        0x7fff_ffff_ffff_ffffu64
    };
    match read_digits(s, start, limit) {
        Some(v) => {
            if neg {
                if v == 0x8000_0000_0000_0000u64 {
                    Some(i64::MIN)
                } else {
                    Some(-(v as i64))
                }
            } else {
                Some(v as i64)
            }
        },
        None => {
            proof {
                if d.len() > 0 && all_digits(d) {
                    lemma_digits_value_nonneg(d);
                }
            }
            None
        },
    }
}

pub open spec fn digit_char(d: int) -> char {
    ((d + ('0' as u32)) as u32) as char
}

/// The decimal digits of `n`, most significant first, with no leading zeros
/// (a single `0` for zero): what `u64::to_string` prints.
pub open spec fn decimal(n: nat) -> Seq<char>
    decreases n,
{
    if n < 10 {
        seq![digit_char(n as int)]
    } else {
        decimal(n / 10).push(digit_char((n % 10) as int))
    }
}

/// What `i64::to_string` prints.
pub open spec fn signed_decimal(n: int) -> Seq<char> {
    if n < 0 {
        seq!['-'] + decimal((-n) as nat)
    } else {
        decimal(n as nat)
    }
}

/// The decimal text of `n`.
pub fn u64_to_chars(n: u64) -> (r: Vec<char>)
    ensures
        r@ == decimal(n as nat),
    decreases n,
{
    if n < 10 {
        let mut r: Vec<char> = Vec::new();
        let c = char_of_digit(n as u32);
        r.push(c);
        assert(r@ =~= decimal(n as nat));
        r
    } else {
        let mut r = u64_to_chars(n / 10);
        let c = char_of_digit((n % 10) as u32);
        r.push(c);
        r
    }
}

fn char_of_digit(d: u32) -> (c: char)
    requires
        d < 10,
    ensures
        c == digit_char(d as int),
{
    if d == 0 {
        '0'
    } else if d == 1 {
        '1'
    } else if d == 2 {
        '2'
    } else if d == 3 {
        '3'
    } else if d == 4 {
        '4'
    } else if d == 5 {
        '5'
    } else if d == 6 {
        '6'
    } else if d == 7 {
        '7'
    } else if d == 8 {
        '8'
    } else {
        '9'
    }
}

/// The decimal text of `n`, with a leading `-` where it is negative.
pub fn i64_to_chars(n: i64) -> (r: Vec<char>)
    ensures
        r@ == signed_decimal(n as int),
{
    if n < 0 {
        let m: u64 = if n == i64::MIN {
            0x8000_0000_0000_0000u64
        } else {
            (-n) as u64
        };
        let digits = u64_to_chars(m);
        let mut r: Vec<char> = Vec::new();
        r.push('-');
        let mut k: usize = 0;
        while k < digits.len()
            invariant
                k <= digits.len(),
                r@ == seq!['-'] + digits@.subrange(0, k as int),
            decreases digits.len() - k,
        {
            r.push(digits[k]);
            k = k + 1;
            assert(r@ =~= seq!['-'] + digits@.subrange(0, k as int));
        }
        assert(digits@.subrange(0, digits.len() as int) =~= digits@);
        r
    } else {
        u64_to_chars(n as u64)
    }
}

/// `a` followed by `b`.
pub fn concat_vec(a: &Vec<char>, b: &Vec<char>) -> (r: Vec<char>)
    ensures
        r@ == a@ + b@,
{
    let mut r: Vec<char> = Vec::new();
    let mut k: usize = 0;
    while k < a.len()
        invariant
            k <= a.len(),
            r@ == a@.subrange(0, k as int),
        decreases a.len() - k,
    {
        r.push(a[k]);
        k = k + 1;
        assert(r@ =~= a@.subrange(0, k as int));
    }
    let mut j: usize = 0;
    while j < b.len()
        invariant
            j <= b.len(),
            r@ == a@ + b@.subrange(0, j as int),
        decreases b.len() - j,
    {
        r.push(b[j]);
        j = j + 1;
        assert(r@ =~= a@ + b@.subrange(0, j as int));
    }
    assert(b@.subrange(0, b.len() as int) =~= b@);
    r
}

} // verus!
