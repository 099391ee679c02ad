//! Character-level text helpers shared by the rest of the library.

use vstd::prelude::*;

verus! {

/// Unicode `White_Space`: the characters for which `char::is_whitespace` holds.
pub open spec fn is_ws(c: char) -> bool {
    let u = c as u32;
    ||| 0x09 <= u <= 0x0d
    ||| u == 0x20
    ||| u == 0x85
    ||| u == 0xa0
    ||| u == 0x1680
    ||| 0x2000 <= u <= 0x200a
    ||| u == 0x2028
    ||| u == 0x2029
    ||| u == 0x202f
    ||| u == 0x205f
    ||| u == 0x3000
}

/// Whether `c` has the Unicode `White_Space` property.
pub fn is_whitespace_char(c: char) -> (b: bool)
    ensures
        b == is_ws(c),
{
    let u = c as u32;
    (0x09 <= u && u <= 0x0d) || u == 0x20 || u == 0x85 || u == 0xa0 || u == 0x1680 || (0x2000
        <= u && u <= 0x200a) || u == 0x2028 || u == 0x2029 || u == 0x202f || u == 0x205f || u
        == 0x3000
}

/// `s` without its leading whitespace.
pub open spec fn trim_start_ws(s: Seq<char>) -> Seq<char>
    decreases s.len(),
{
    if s.len() > 0 && is_ws(s[0]) {
        trim_start_ws(s.drop_first())
    } else {
        s
    }
}

/// `s` without its trailing whitespace.
pub open spec fn trim_end_ws(s: Seq<char>) -> Seq<char>
    decreases s.len(),
{
    if s.len() > 0 && is_ws(s.last()) {
        trim_end_ws(s.drop_last())
    } else {
        s
    }
}

/// `s` without leading and trailing whitespace, as `str::trim` gives it.
pub open spec fn trim_ws(s: Seq<char>) -> Seq<char> {
    trim_end_ws(trim_start_ws(s))
}

pub proof fn lemma_trim_start_at(s: Seq<char>, lo: int)
    requires
        0 <= lo <= s.len(),
        forall|i: int| 0 <= i < lo ==> is_ws(#[trigger] s[i]),
        lo == s.len() || !is_ws(s[lo]),
    ensures
        trim_start_ws(s) == s.subrange(lo, s.len() as int),
    decreases lo,
{
    if lo == 0 {
        assert(s.subrange(0, s.len() as int) =~= s);
    } else {
        let t = s.drop_first();
        assert forall|i: int| 0 <= i < lo - 1 implies is_ws(#[trigger] t[i]) by {
            assert(t[i] == s[i + 1]);
        }
        lemma_trim_start_at(t, lo - 1);
        assert(t.subrange(lo - 1, t.len() as int) =~= s.subrange(lo, s.len() as int));
    }
}

pub proof fn lemma_trim_end_at(s: Seq<char>, hi: int)
    requires
        0 <= hi <= s.len(),
        forall|i: int| hi <= i < s.len() ==> is_ws(#[trigger] s[i]),
        hi == 0 || !is_ws(s[hi - 1]),
    ensures
        trim_end_ws(s) == s.subrange(0, hi),
    decreases s.len() - hi,
{
    if hi == s.len() {
        assert(s.subrange(0, hi) =~= s);
    } else {
        let t = s.drop_last();
        assert forall|i: int| hi <= i < t.len() implies is_ws(#[trigger] t[i]) by {
            assert(t[i] == s[i]);
        }
        lemma_trim_end_at(t, hi);
        assert(t.subrange(0, hi) =~= s.subrange(0, hi));
    }
}

/// Trimming `s[lo..hi]` when `lo` is the first and `hi - 1` the last non-whitespace position.
pub proof fn lemma_trim_bounds(s: Seq<char>, lo: int, hi: int)
    requires
        0 <= lo <= hi <= s.len(),
        forall|i: int| 0 <= i < lo ==> is_ws(#[trigger] s[i]),
        forall|i: int| hi <= i < s.len() ==> is_ws(#[trigger] s[i]),
        lo == hi ==> lo == s.len(),
        lo < hi ==> !is_ws(s[lo]) && !is_ws(s[hi - 1]),
    ensures
        trim_ws(s) == s.subrange(lo, hi),
{
    lemma_trim_start_at(s, lo);
    let t = s.subrange(lo, s.len() as int);
    assert forall|i: int| hi - lo <= i < t.len() implies is_ws(#[trigger] t[i]) by {
        assert(t[i] == s[i + lo]);
    }
    if lo < hi {
        assert(t[hi - lo - 1] == s[hi - 1]);
    }
    lemma_trim_end_at(t, hi - lo);
    assert(t.subrange(0, hi - lo) =~= s.subrange(lo, hi));
}

proof fn lemma_trim_start_shape(s: Seq<char>) -> (lo: int)
    ensures
        0 <= lo <= s.len(),
        trim_start_ws(s) == s.subrange(lo, s.len() as int),
        forall|i: int| 0 <= i < lo ==> is_ws(#[trigger] s[i]),
        lo == s.len() || !is_ws(s[lo]),
    decreases s.len(),
{
    if s.len() > 0 && is_ws(s[0]) {
        let t = s.drop_first();
        let l = lemma_trim_start_shape(t);
        assert(t.subrange(l, t.len() as int) =~= s.subrange(l + 1, s.len() as int));
        assert forall|i: int| 0 <= i < l + 1 implies is_ws(#[trigger] s[i]) by {
            if i > 0 {
                assert(s[i] == t[i - 1]);
            }
        }
        l + 1
    } else {
        assert(s.subrange(0, s.len() as int) =~= s);
        0
    }
}

proof fn lemma_trim_end_shape(s: Seq<char>) -> (hi: int)
    ensures
        0 <= hi <= s.len(),
        trim_end_ws(s) == s.subrange(0, hi),
        forall|i: int| hi <= i < s.len() ==> is_ws(#[trigger] s[i]),
        hi == 0 || !is_ws(s[hi - 1]),
    decreases s.len(),
{
    if s.len() > 0 && is_ws(s.last()) {
        let t = s.drop_last();
        let h = lemma_trim_end_shape(t);
        assert(t.subrange(0, h) =~= s.subrange(0, h));
        assert forall|i: int| h <= i < s.len() implies is_ws(#[trigger] s[i]) by {
            if i < s.len() - 1 {
                assert(s[i] == t[i]);
            }
        }
        h
    } else {
        assert(s.subrange(0, s.len() as int) =~= s);
        s.len() as int
    }
}

/// Trimming keeps a contiguous part of `s` that neither starts nor ends with
/// whitespace, and is empty exactly when `s` is all whitespace.
pub proof fn lemma_trim_shape(s: Seq<char>) -> (r: (int, int))
    ensures
        0 <= r.0 <= r.1 <= s.len(),
        trim_ws(s) == s.subrange(r.0, r.1),
        trim_ws(s).len() > 0 ==> !is_ws(trim_ws(s)[0]) && !is_ws(trim_ws(s).last()),
        trim_ws(s).len() == 0 <==> forall|i: int| 0 <= i < s.len() ==> is_ws(#[trigger] s[i]),
{
    let lo = lemma_trim_start_shape(s);
    let t = s.subrange(lo, s.len() as int);
    let h = lemma_trim_end_shape(t);
    assert(t.subrange(0, h) =~= s.subrange(lo, lo + h));
    if lo < s.len() {
        assert(t[0] == s[lo]);
        assert(h > 0) by {
            if h == 0 {
                assert(is_ws(t[0]));
            }
        }
        assert(trim_ws(s)[0] == s[lo]);
        assert(trim_ws(s).last() == t[h - 1]);
        assert(!(forall|i: int| 0 <= i < s.len() ==> is_ws(#[trigger] s[i])));
    }
    (lo, lo + h)
}

/// `String`'s `FromIterator<char>` (`collect`) over `chars[lo..hi]`: the
/// string holds exactly those characters, in order.
#[verifier::external_body]
pub(crate) fn string_from_chars(chars: &[char], lo: usize, hi: usize) -> (s: String)
    requires
        lo <= hi <= chars@.len(),
    ensures
        s@ == chars@.subrange(lo as int, hi as int),
{
    chars[lo..hi].iter().collect()
}

/// The characters of `s`, in order.
pub fn str_to_chars(s: &str) -> (v: Vec<char>)
    ensures
        v@ == s@,
{
    broadcast use vstd::string::group_string_axioms;

    let mut v: Vec<char> = Vec::new();
    for c in it: s.chars()
        invariant
            it.seq() == s@,
            v@ == s@.take(it.index()),
    {
        v.push(c);
        assert(v@ =~= s@.take(it.index() + 1));
    }
    assert(v@ =~= s@);
    v
}

/// `s[lo..hi]` trimmed of whitespace, as a `String`.
pub fn trimmed_range(s: &[char], lo: usize, hi: usize) -> (r: String)
    requires
        lo <= hi <= s@.len(),
    ensures
        r@ == trim_ws(s@.subrange(lo as int, hi as int)),
{
    let ghost t = s@.subrange(lo as int, hi as int);
    let mut a = lo;
    while a < hi && is_whitespace_char(s[a])
        invariant
            lo <= a <= hi <= s@.len(),
            t == s@.subrange(lo as int, hi as int),
            forall|i: int| 0 <= i < a - lo ==> is_ws(#[trigger] t[i]),
        decreases hi - a,
    {
        a = a + 1;
    }
    let mut b = hi;
    while b > a && is_whitespace_char(s[b - 1])
        invariant
            lo <= a <= b <= hi <= s@.len(),
            t == s@.subrange(lo as int, hi as int),
            forall|i: int| b - lo <= i < t.len() ==> is_ws(#[trigger] t[i]),
            a < hi ==> !is_ws(s@[a as int]),
        decreases b - a,
    {
        b = b - 1;
    }
    proof {
        if a == b {
            assert forall|i: int| a - lo <= i < t.len() implies is_ws(#[trigger] t[i]) by {
                if i >= b - lo {
                } else {
                    assert(false);
                }
            }
            lemma_trim_bounds(t, t.len() as int, t.len() as int);
            assert(t.subrange(t.len() as int, t.len() as int) =~= s@.subrange(a as int, b as int));
        } else {
            assert(t[a - lo] == s@[a as int]);
            assert(t[b - lo - 1] == s@[b - 1]);
            lemma_trim_bounds(t, a - lo, b - lo);
            assert(t.subrange(a - lo, b - lo) =~= s@.subrange(a as int, b as int));
        }
    }
    string_from_chars(s, a, b)
}


/// What `str::to_uppercase` returns for a string with characters `s`.
pub uninterp spec fn str_to_uppercase(s: Seq<char>) -> Seq<char>;

/// What `str::to_lowercase` returns for a string with characters `s`.
pub uninterp spec fn str_to_lowercase(s: Seq<char>) -> Seq<char>;

/// An ASCII character.
pub open spec fn is_ascii_char(c: char) -> bool {
    (c as u32) < 128
}

/// Every character of `s` is ASCII.
pub open spec fn is_ascii(s: Seq<char>) -> bool {
    forall|i: int| 0 <= i < s.len() ==> is_ascii_char(#[trigger] s[i])
}

/// `c` with `a`..`z` mapped to `A`..`Z`.
pub open spec fn ascii_upper_char(c: char) -> char {
    if 'a' <= c && c <= 'z' {
        ((c as u32) - 32) as char
    } else {
        c
    }
}

/// `c` with `A`..`Z` mapped to `a`..`z`.
pub open spec fn ascii_lower_char(c: char) -> char {
    if 'A' <= c && c <= 'Z' {
        ((c as u32) + 32) as char
    } else {
        c
    }
}

/// `s` with its ASCII letters uppercased, as `str::to_ascii_uppercase` gives it.
pub open spec fn ascii_upper(s: Seq<char>) -> Seq<char> {
    s.map_values(|c: char| ascii_upper_char(c))
}

/// `s` with its ASCII letters lowercased, as `str::to_ascii_lowercase` gives it.
pub open spec fn ascii_lower(s: Seq<char>) -> Seq<char> {
    s.map_values(|c: char| ascii_lower_char(c))
}

/// `str::to_uppercase`: the Unicode uppercase mapping of `s`. Its result is
/// named, not spelled out: the case tables are std's. The one fact stated is
/// what std documents for ASCII text (`to_ascii_uppercase`: "To uppercase
/// ASCII characters in addition to non-ASCII characters, use
/// `to_uppercase`"): on ASCII text both map `a`..`z` to `A`..`Z` and leave
/// every other character as it is.
#[verifier::external_body]
pub(crate) fn to_uppercase(s: &str) -> (r: String)
    ensures
        r@ == str_to_uppercase(s@),
        is_ascii(s@) ==> r@ == ascii_upper(s@),
{
    s.to_uppercase()
}

/// `str::to_lowercase`: the Unicode lowercase mapping of `s`. Its result is
/// named, not spelled out: the case tables are std's. The one fact stated is
/// what std documents for ASCII text (`to_ascii_lowercase`: "To lowercase
/// ASCII characters in addition to non-ASCII characters, use
/// `to_lowercase`"): on ASCII text both map `A`..`Z` to `a`..`z` and leave
/// every other character as it is.
#[verifier::external_body]
pub(crate) fn to_lowercase(s: &str) -> (r: String)
    ensures
        r@ == str_to_lowercase(s@),
        is_ascii(s@) ==> r@ == ascii_lower(s@),
{
    s.to_lowercase()
}

/// ASCII uppercasing keeps text ASCII, changes nothing the second time, and
/// works piece by piece.
pub proof fn lemma_ascii_upper(a: Seq<char>, b: Seq<char>)
    ensures
        is_ascii(a) ==> is_ascii(ascii_upper(a)),
        ascii_upper(ascii_upper(a)) == ascii_upper(a),
        ascii_upper(a + b) == ascii_upper(a) + ascii_upper(b),
{
    assert(ascii_upper(ascii_upper(a)) =~= ascii_upper(a));
    assert(ascii_upper(a + b) =~= ascii_upper(a) + ascii_upper(b));
}

/// Lowercasing text with no lowercase ASCII letters and uppercasing it again
/// gives it back.
pub proof fn lemma_upper_of_lower(t: Seq<char>)
    requires
        ascii_upper(t) == t,
    ensures
        ascii_upper(ascii_lower(t)) == t,
{
    assert forall|i: int| 0 <= i < t.len() implies ascii_upper_char(ascii_lower_char(t[i])) == t[i] by {
        assert(ascii_upper(t)[i] == t[i]);
    }
    assert(ascii_upper(ascii_lower(t)) =~= t);
}

/// `s` ends with `p`.
pub open spec fn ends_with(s: Seq<char>, p: Seq<char>) -> bool {
    p.len() <= s.len() && s.subrange(s.len() - p.len(), s.len() as int) == p
}

/// `s` with every trailing repetition of the non-empty pattern `p` removed,
/// as `str::trim_end_matches` gives it.
pub open spec fn trim_end_matches(s: Seq<char>, p: Seq<char>) -> Seq<char>
    decreases s.len(),
{
    if p.len() > 0 && ends_with(s, p) {
        trim_end_matches(s.subrange(0, s.len() - p.len()), p)
    } else {
        s
    }
}

/// Whether `s[lo..hi]` equals `p`.
pub fn range_eq(s: &[char], lo: usize, hi: usize, p: &[char]) -> (b: bool)
    requires
        lo <= hi <= s@.len(),
    ensures
        b == (s@.subrange(lo as int, hi as int) == p@),
{
    if hi - lo != p.len() {
        return false;
    }
    let mut i: usize = 0;
    while i < p.len()
        invariant
            lo <= hi <= s@.len(),
            hi - lo == p@.len(),
            i <= p@.len(),
            forall|j: int| 0 <= j < i ==> s@[lo + j] == p@[j],
        decreases p@.len() - i,
    {
        if s[lo + i] != p[i] {
            assert(s@.subrange(lo as int, hi as int)[i as int] != p@[i as int]);
            return false;
        }
        i = i + 1;
    }
    assert(s@.subrange(lo as int, hi as int) =~= p@);
    true
}

/// Whether `s[lo..hi]` equals the characters of `lit`.
pub fn range_eq_str(s: &[char], lo: usize, hi: usize, lit: &str) -> (b: bool)
    requires
        lo <= hi <= s@.len(),
    ensures
        b == (s@.subrange(lo as int, hi as int) == lit@),
{
    let p = str_to_chars(lit);
    range_eq(s, lo, hi, p.as_slice())
}

/// The end of `s[..end]` once every trailing repetition of `p` is removed.
pub fn trim_end_matches_len(s: &[char], end: usize, p: &str) -> (r: usize)
    requires
        end <= s@.len(),
    ensures
        r <= end,
        s@.subrange(0, r as int) == trim_end_matches(s@.subrange(0, end as int), p@),
{
    let pat = str_to_chars(p);
    let k = pat.len();
    let mut e = end;
    if k == 0 {
        return e;
    }
    while e >= k && range_eq(s, e - k, e, pat.as_slice())
        invariant
            e <= end <= s@.len(),
            k == p@.len(),
            pat@ == p@,
            k > 0,
            trim_end_matches(s@.subrange(0, e as int), p@) == trim_end_matches(
                s@.subrange(0, end as int),
                p@,
            ),
        decreases e,
    {
        assert(s@.subrange(0, e as int).subrange(e - k, e as int) =~= s@.subrange(
            e - k,
            e as int,
        ));
        assert(s@.subrange(0, e as int).subrange(0, e - k) =~= s@.subrange(0, e - k));
        e = e - k;
    }
    proof {
        if e >= k {
            assert(s@.subrange(0, e as int).subrange(e - k, e as int) =~= s@.subrange(
                e - k,
                e as int,
            ));
        }
    }
    e
}


/// `p` occurs in `t` at position `i`.
pub open spec fn matches_at(t: Seq<char>, p: Seq<char>, i: int) -> bool {
    0 <= i && i + p.len() <= t.len() && t.subrange(i, i + p.len()) == p
}

/// The first position at or after `i` where `p` occurs in `t`.
pub open spec fn first_match_from(t: Seq<char>, p: Seq<char>, i: int) -> Option<int>
    decreases t.len() + 1 - i,
{
    if i < 0 || i + p.len() > t.len() {
        None
    } else if matches_at(t, p, i) {
        Some(i)
    } else {
        first_match_from(t, p, i + 1)
    }
}

/// The last position before `n` where `p` occurs in `t`.
pub open spec fn last_match_before(t: Seq<char>, p: Seq<char>, n: nat) -> Option<int>
    decreases n,
{
    if n == 0 {
        None
    } else if matches_at(t, p, n - 1) {
        Some(n - 1)
    } else {
        last_match_before(t, p, (n - 1) as nat)
    }
}

pub proof fn lemma_first_match_bounds(t: Seq<char>, p: Seq<char>, i: int)
    ensures
        first_match_from(t, p, i) matches Some(k) ==> i <= k && matches_at(t, p, k),
        first_match_from(t, p, i) matches Some(k) ==> forall|j: int|
            i <= j < k ==> !#[trigger] matches_at(t, p, j),
        first_match_from(t, p, i) is None && 0 <= i ==> forall|j: int|
            i <= j ==> !#[trigger] matches_at(t, p, j),
    decreases t.len() + 1 - i,
{
    if !(i < 0 || i + p.len() > t.len()) && !matches_at(t, p, i) {
        lemma_first_match_bounds(t, p, i + 1);
    }
}

pub proof fn lemma_last_match_bounds(t: Seq<char>, p: Seq<char>, n: nat)
    ensures
        last_match_before(t, p, n) matches Some(k) ==> k < n && matches_at(t, p, k),
    decreases n,
{
    if n > 0 && !matches_at(t, p, n - 1) {
        lemma_last_match_bounds(t, p, (n - 1) as nat);
    }
}

proof fn lemma_last_match_skip(t: Seq<char>, p: Seq<char>, m: nat, n: nat)
    requires
        n <= m,
        t.len() < n + p.len(),
    ensures
        last_match_before(t, p, m) == last_match_before(t, p, n),
    decreases m - n,
{
    if m > n {
        lemma_last_match_skip(t, p, (m - 1) as nat, n);
    }
}

/// The first position at or after `from` where `p` occurs in `t`.
pub fn find_from(t: &[char], p: &[char], from: usize) -> (r: Option<usize>)
    ensures
        match r {
            Some(k) => first_match_from(t@, p@, from as int) == Some(k as int),
            None => first_match_from(t@, p@, from as int) is None,
        },
{
    let mut i = from;
    while i <= t.len() && p.len() <= t.len() - i
        invariant
            from <= i,
            first_match_from(t@, p@, from as int) == first_match_from(t@, p@, i as int),
        decreases t@.len() + 1 - i,
    {
        assert(p@.len() == 0 ==> t@.subrange(i as int, i as int) =~= p@);
        if range_eq(t, i, i + p.len(), p) {
            return Some(i);
        }
        i = i + 1;
    }
    None
}

/// The last position where `p` occurs in `t`.
pub fn rfind(t: &[char], p: &[char]) -> (r: Option<usize>)
    ensures
        match r {
            Some(k) => last_match_before(t@, p@, (t@.len() + 1) as nat) == Some(k as int),
            None => last_match_before(t@, p@, (t@.len() + 1) as nat) is None,
        },
{
    if p.len() > t.len() {
        proof {
            assert forall|n: nat| n <= t@.len() + 1 implies last_match_before(t@, p@, n) is None by {
                lemma_last_match_bounds(t@, p@, n);
            }
        }
        return None;
    }
    if p.len() == 0 {
        assert(t@.subrange(t@.len() as int, t@.len() as int) =~= p@);
        return Some(t.len());
    }
    let mut n = t.len() - p.len() + 1;
    proof {
        lemma_last_match_skip(t@, p@, (t@.len() + 1) as nat, n as nat);
    }
    while n > 0
        invariant
            n <= t@.len() - p@.len() + 1,
            p@.len() <= t@.len(),
            last_match_before(t@, p@, (t@.len() + 1) as nat) == last_match_before(t@, p@, n as nat),
        decreases n,
    {
        let lo = n - 1;
        let plen = p.len();
        let tlen = t.len();
        assert(lo + plen <= tlen);
        let hi = lo + plen;
        if range_eq(t, lo, hi, p) {
            return Some(lo);
        }
        n = n - 1;
    }
    None
}


/// The first occurrence at or after `i`, once every position from `i` to `k`
/// (exclusive) is known not to match and `k` matches.
pub proof fn lemma_first_from(t: Seq<char>, p: Seq<char>, i: int, k: int)
    requires
        0 <= i <= k,
        matches_at(t, p, k),
        forall|j: int| i <= j < k ==> !#[trigger] matches_at(t, p, j),
    ensures
        first_match_from(t, p, i) == Some(k),
    decreases k - i,
{
    if i < k {
        lemma_first_from(t, p, i + 1, k);
    }
}

/// Searching from `i` in `t` is searching from 0 in `t[i..]`, shifted by `i`.
pub proof fn lemma_first_match_shift(t: Seq<char>, p: Seq<char>, i: int, j: int)
    requires
        0 <= i <= t.len(),
        0 <= j,
    ensures
        first_match_from(t, p, i + j) == (match first_match_from(t.subrange(i, t.len() as int), p, j) {
            Some(k) => Some(k + i),
            None => None::<int>,
        }),
    decreases t.len() + 1 - (i + j),
{
    let u = t.subrange(i, t.len() as int);
    if i + j + p.len() <= t.len() {
        assert(t.subrange(i + j, i + j + p.len()) =~= u.subrange(j, j + p.len()));
        assert(matches_at(t, p, i + j) == matches_at(u, p, j));
        if !matches_at(t, p, i + j) {
            lemma_first_match_shift(t, p, i, j + 1);
        }
    }
}

/// A first occurrence in `a` is still the first occurrence in `a + c`.
pub proof fn lemma_first_match_extend(a: Seq<char>, c: Seq<char>, p: Seq<char>)
    requires
        first_match_from(a, p, 0) is Some,
    ensures
        first_match_from(a + c, p, 0) == first_match_from(a, p, 0),
{
    lemma_first_match_bounds(a, p, 0);
    let k = first_match_from(a, p, 0)->0;
    let t = a + c;
    assert(t.subrange(k, k + p.len()) =~= a.subrange(k, k + p.len()));
    assert forall|j: int| 0 <= j < k implies !#[trigger] matches_at(t, p, j) by {
        assert(t.subrange(j, j + p.len()) =~= a.subrange(j, j + p.len()));
        assert(!matches_at(a, p, j));
    }
    lemma_first_from(t, p, 0, k);
}

/// `s` starts with `p`.
pub open spec fn starts_with(s: Seq<char>, p: Seq<char>) -> bool {
    p.len() <= s.len() && s.subrange(0, p.len() as int) == p
}

} // verus!
