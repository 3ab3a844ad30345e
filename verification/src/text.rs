//! Character-level text helpers shared by the rest of the library.
//!
//! Strings are reasoned about through their views (`Seq<char>`); the helpers
//! here convert between `&str`/`String` and `Vec<char>` and implement the few
//! text operations (trimming, comparison, searching) the library relies on.
use vstd::prelude::*;

verus! {

/// Unicode `White_Space`, the set `char::is_whitespace` and `str::trim` use.
pub open spec fn is_ws(c: char) -> bool {
    ('\u{9}' <= c && c <= '\u{d}') || c == ' ' || c == '\u{85}' || c == '\u{a0}' || c
        == '\u{1680}' || ('\u{2000}' <= c && c <= '\u{200a}') || c == '\u{2028}' || c
        == '\u{2029}' || c == '\u{202f}' || c == '\u{205f}' || c == '\u{3000}'
}

/// Index of the first non-whitespace character at or after `i` (or `s.len()`).
pub open spec fn skip_ws_from(s: Seq<char>, i: int) -> int
    decreases s.len() - i,
{
    if 0 <= i < s.len() && is_ws(s[i]) {
        skip_ws_from(s, i + 1)
    } else {
        i
    }
}

/// End of `s[lo..j]` once trailing whitespace is removed.
pub open spec fn back_ws_from(s: Seq<char>, lo: int, j: int) -> int
    decreases j - lo,
{
    if lo < j && j <= s.len() && is_ws(s[j - 1]) {
        back_ws_from(s, lo, j - 1)
    } else {
        j
    }
}

/// Start index of `trim(s)`.
pub open spec fn trim_lo(s: Seq<char>) -> int {
    skip_ws_from(s, 0)
}

/// End index of `trim(s)`.
pub open spec fn trim_hi(s: Seq<char>) -> int {
    back_ws_from(s, trim_lo(s), s.len() as int)
}

/// `s` with leading and trailing whitespace removed (what `str::trim` gives).
pub open spec fn trim(s: Seq<char>) -> Seq<char> {
    s.subrange(trim_lo(s), trim_hi(s))
}

pub proof fn lemma_skip_ws_bounds(s: Seq<char>, i: int)
    requires
        0 <= i <= s.len(),
    ensures
        i <= skip_ws_from(s, i) <= s.len(),
        forall|k: int| i <= k < skip_ws_from(s, i) ==> is_ws(#[trigger] s[k]),
        skip_ws_from(s, i) < s.len() ==> !is_ws(s[skip_ws_from(s, i)]),
    decreases s.len() - i,
{
    if i < s.len() && is_ws(s[i]) {
        lemma_skip_ws_bounds(s, i + 1);
    }
}

pub proof fn lemma_back_ws_bounds(s: Seq<char>, lo: int, j: int)
    requires
        0 <= lo <= j <= s.len(),
    ensures
        lo <= back_ws_from(s, lo, j) <= j,
        forall|k: int| back_ws_from(s, lo, j) <= k < j ==> is_ws(#[trigger] s[k]),
        lo < back_ws_from(s, lo, j) ==> !is_ws(s[back_ws_from(s, lo, j) - 1]),
    decreases j - lo,
{
    if lo < j && is_ws(s[j - 1]) {
        lemma_back_ws_bounds(s, lo, j - 1);
    }
}

/// Bounds facts about `trim`.
pub proof fn lemma_trim_bounds(s: Seq<char>)
    ensures
        0 <= trim_lo(s) <= trim_hi(s) <= s.len(),
        forall|k: int| 0 <= k < trim_lo(s) ==> is_ws(#[trigger] s[k]),
        forall|k: int| trim_hi(s) <= k < s.len() ==> is_ws(#[trigger] s[k]),
        trim_lo(s) < trim_hi(s) ==> !is_ws(s[trim_lo(s)]) && !is_ws(s[trim_hi(s) - 1]),
{
    lemma_skip_ws_bounds(s, 0);
    lemma_back_ws_bounds(s, trim_lo(s), s.len() as int);
}

pub fn is_ws_char(c: char) -> (res: bool)
    ensures
        res == is_ws(c),
{
    ('\u{9}' <= c && c <= '\u{d}') || c == ' ' || c == '\u{85}' || c == '\u{a0}' || c
        == '\u{1680}' || ('\u{2000}' <= c && c <= '\u{200a}') || c == '\u{2028}' || c
        == '\u{2029}' || c == '\u{202f}' || c == '\u{205f}' || c == '\u{3000}'
}

/// The characters of `s`, in order.
pub fn chars_of(s: &str) -> (res: Vec<char>)
    ensures
        res@ == s@,
{
    let mut out: Vec<char> = Vec::new();
    for c in it: s.chars()
        invariant
            out@ == it.seq().take(it.index() as int),
    {
        out.push(c);
    }
    out
}

/// Builds a `String` from its characters (std `FromIterator<char>` for `String`).
#[verifier::external_body]
pub(crate) fn string_from_chars(v: &[char]) -> (res: String)
    ensures
        res@ == v@,
{
    v.iter().collect()
}

/// Whether `pat` occurs in `s` as a contiguous piece.
pub open spec fn seq_contains(s: Seq<char>, pat: Seq<char>) -> bool {
    exists|i: int| 0 <= i <= s.len() - pat.len() && #[trigger] s.subrange(i, i + pat.len()) == pat
}

/// `str::contains` with a string pattern.
pub fn contains_str(s: &str, pat: &str) -> (res: bool)
    ensures
        res == seq_contains(s@, pat@),
{
    let sv = chars_of(s);
    let pv = chars_of(pat);
    if pv.len() > sv.len() {
        return false;
    }
    let last = sv.len() - pv.len();
    let mut i: usize = 0;
    while i <= last
        invariant
            sv@ == s@,
            pv@ == pat@,
            last == sv.len() - pv.len(),
            i <= last + 1,
            forall|j: int| 0 <= j < i ==> #[trigger] sv@.subrange(j, j + pv.len()) != pv@,
        decreases last + 1 - i,
    {
        let mut k: usize = 0;
        while k < pv.len() && sv[i + k] == pv[k]
            invariant
                i <= last,
                last == sv.len() - pv.len(),
                k <= pv.len(),
                forall|t: int| 0 <= t < k ==> sv@[i + t] == pv@[t],
            decreases pv.len() - k,
        {
            k += 1;
        }
        if k == pv.len() {
            assert(sv@.subrange(i as int, i + pv.len()) =~= pv@);
            return true;
        }
        assert(sv@.subrange(i as int, i + pv.len())[k as int] != pv@[k as int]);
        i += 1;
    }
    false
}

/// `prefix` followed by `rest`.
pub fn concat(prefix: &str, rest: &str) -> (res: String)
    ensures
        res@ == prefix@ + rest@,
{
    let mut m = String::from_str(prefix);
    m.append(rest);
    m
}

/// A copy of `v[lo..hi]`.
pub fn slice_chars(v: &Vec<char>, lo: usize, hi: usize) -> (res: Vec<char>)
    requires
        lo <= hi <= v.len(),
    ensures
        res@ == v@.subrange(lo as int, hi as int),
{
    let mut out: Vec<char> = Vec::new();
    let mut i = lo;
    while i < hi
        invariant
            lo <= i <= hi <= v.len(),
            out@ == v@.subrange(lo as int, i as int),
        decreases hi - i,
    {
        out.push(v[i]);
        i += 1;
    }
    out
}

/// Bounds of the trimmed part of `v`.
pub fn trim_bounds(v: &Vec<char>) -> (res: (usize, usize))
    ensures
        res.0 == trim_lo(v@),
        res.1 == trim_hi(v@),
        res.0 <= res.1 <= v.len(),
{
    let ghost s = v@;
    let n = v.len();
    let mut lo: usize = 0;
    while lo < n && is_ws_char(v[lo])
        invariant
            0 <= lo <= n == s.len(),
            s == v@,
            skip_ws_from(s, lo as int) == skip_ws_from(s, 0),
        decreases n - lo,
    {
        lo += 1;
    }
    let mut hi: usize = n;
    while hi > lo && is_ws_char(v[hi - 1])
        invariant
            lo <= hi <= n == s.len(),
            s == v@,
            lo == trim_lo(s),
            back_ws_from(s, lo as int, hi as int) == back_ws_from(s, lo as int, n as int),
        decreases hi,
    {
        hi -= 1;
    }
    (lo, hi)
}

/// `trim(v)` as a new vector.
pub fn trim_chars(v: &Vec<char>) -> (res: Vec<char>)
    ensures
        res@ == trim(v@),
{
    let (lo, hi) = trim_bounds(v);
    slice_chars(v, lo, hi)
}

/// The trimmed characters of `s`.
pub fn trimmed(s: &str) -> (res: Vec<char>)
    ensures
        res@ == trim(s@),
{
    let v = chars_of(s);
    trim_chars(&v)
}

/// Whether two character sequences are equal.
pub fn chars_eq(a: &[char], b: &[char]) -> (res: bool)
    ensures
        res == (a@ == b@),
{
    if a.len() != b.len() {
        return false;
    }
    let mut i: usize = 0;
    while i < a.len()
        invariant
            a.len() == b.len(),
            i <= a.len(),
            forall|k: int| 0 <= k < i ==> a@[k] == b@[k],
        decreases a.len() - i,
    {
        if a[i] != b[i] {
            return false;
        }
        i += 1;
    }
    assert(a@ =~= b@);
    true
}

/// Whether `c` occurs in `v`.
pub fn contains_char(v: &[char], c: char) -> (res: bool)
    ensures
        res == v@.contains(c),
{
    let mut i: usize = 0;
    while i < v.len()
        invariant
            i <= v.len(),
            forall|k: int| 0 <= k < i ==> v@[k] != c,
        decreases v.len() - i,
    {
        if v[i] == c {
            assert(v@[i as int] == c);
            return true;
        }
        i += 1;
    }
    false
}

/// Whether `p` is a prefix of `v`.
pub fn starts_with_chars(v: &[char], p: &[char]) -> (res: bool)
    ensures
        res == (p@.len() <= v@.len() && v@.subrange(0, p@.len() as int) == p@),
{
    if p.len() > v.len() {
        return false;
    }
    let mut i: usize = 0;
    while i < p.len()
        invariant
            p.len() <= v.len(),
            i <= p.len(),
            forall|k: int| 0 <= k < i ==> v@[k] == p@[k],
        decreases p.len() - i,
    {
        if v[i] != p[i] {
            assert(v@.subrange(0, p@.len() as int)[i as int] != p@[i as int]);
            return false;
        }
        i += 1;
    }
    assert(v@.subrange(0, p@.len() as int) =~= p@);
    true
}


/// The lower-case form of `s` under Unicode case rules: what
/// `str::to_lowercase` returns.
pub uninterp spec fn str_lowercase(s: Seq<char>) -> Seq<char>;

/// The upper-case form of `s` under Unicode case rules: what
/// `str::to_uppercase` returns.
pub uninterp spec fn str_uppercase(s: Seq<char>) -> Seq<char>;

/// `str::to_lowercase`: its result is named `str_lowercase` of the argument.
#[verifier::external_body]
pub(crate) fn to_lowercase(s: &str) -> (res: String)
    ensures
        res@ == str_lowercase(s@),
{
    s.to_lowercase()
}

/// `str::to_uppercase`: its result is named `str_uppercase` of the argument.
#[verifier::external_body]
pub(crate) fn to_uppercase(s: &str) -> (res: String)
    ensures
        res@ == str_uppercase(s@),
{
    s.to_uppercase()
}

/// The lower-case form of the characters in `v`.
pub fn lower_chars(v: &Vec<char>) -> (res: Vec<char>)
    ensures
        res@ == str_lowercase(v@),
{
    let s = string_from_chars(v.as_slice());
    let l = to_lowercase(s.as_str());
    chars_of(l.as_str())
}

/// Whether `p` is a prefix of `s`.
pub open spec fn seq_starts_with(s: Seq<char>, p: Seq<char>) -> bool {
    p.len() <= s.len() && s.subrange(0, p.len() as int) == p
}

/// Whether `s` starts with the literal `p`.
pub fn starts_with_str(s: &Vec<char>, p: &str) -> (res: bool)
    ensures
        res == seq_starts_with(s@, p@),
{
    let pv = chars_of(p);
    starts_with_chars(s.as_slice(), pv.as_slice())
}

/// Number of bytes `c` takes in UTF-8.
pub open spec fn utf8_width(c: char) -> nat {
    if (c as u32) < 0x80 {
        1
    } else if (c as u32) < 0x800 {
        2
    } else if (c as u32) < 0x10000 {
        3
    } else {
        4
    }
}

/// Number of bytes `s` takes in UTF-8 (`str::len`).
pub open spec fn utf8_len(s: Seq<char>) -> nat
    decreases s.len(),
{
    if s.len() == 0 {
        0
    } else {
        utf8_len(s.drop_last()) + utf8_width(s.last())
    }
}

pub proof fn lemma_utf8_len_bound(s: Seq<char>)
    ensures
        utf8_len(s) <= 4 * s.len(),
    decreases s.len(),
{
    if s.len() > 0 {
        lemma_utf8_len_bound(s.drop_last());
    }
}

pub fn utf8_width_of(c: char) -> (res: u128)
    ensures
        res == utf8_width(c),
{
    let x = c as u32;
    if x < 0x80 {
        1
    } else if x < 0x800 {
        2
    } else if x < 0x10000 {
        3
    } else {
        4
    }
}

/// The UTF-8 length of `v`.
pub fn utf8_len_of(v: &Vec<char>) -> (res: u128)
    ensures
        res == utf8_len(v@),
        res <= 4 * v.len(),
{
    let mut total: u128 = 0;
    let mut i: usize = 0;
    while i < v.len()
        invariant
            i <= v.len(),
            total == utf8_len(v@.take(i as int)),
            total <= 4 * i,
        decreases v.len() - i,
    {
        let w = utf8_width_of(v[i]);
        total = total + w;
        i += 1;
        assert(v@.take(i as int).drop_last() == v@.take(i - 1 as int));
    }
    assert(v@.take(v.len() as int) == v@);
    total
}

} // verus!
