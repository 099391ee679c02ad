//! Splitting document text into overlapping chunks for retrieval.
//!
//! Token counts are approximated as four characters per token. Text is first
//! collapsed so that words are separated by single spaces; chunks are then cut
//! at sentence ends where one lies in the last third of the window.

use vstd::prelude::*;
use crate::text::{is_ws, is_whitespace_char, lemma_trim_bounds, lemma_trim_shape, str_to_chars, trim_ws, trimmed_range};

verus! {

/// The whitespace-collapsed prefix `s[..n]`, with a flag telling whether a
/// word separator is owed before the next word.
pub open spec fn collapse_prefix(s: Seq<char>, n: nat) -> (Seq<char>, bool)
    decreases n,
{
    if n == 0 || n > s.len() {
        (Seq::empty(), false)
    } else {
        let (out, gap) = collapse_prefix(s, (n - 1) as nat);
        let c = s[n - 1];
        if is_ws(c) {
            (out, out.len() > 0)
        } else if gap {
            (out.push(' ').push(c), false)
        } else {
            (out.push(c), false)
        }
    }
}

/// The words of `s` (maximal runs of non-whitespace) joined by single spaces,
/// as `s.split_whitespace().collect::<Vec<_>>().join(" ")` gives it.
pub open spec fn collapse_whitespace(s: Seq<char>) -> Seq<char> {
    collapse_prefix(s, s.len()).0
}

/// No leading or trailing whitespace, and the only whitespace is a single
/// space between two non-whitespace characters.
pub open spec fn well_spaced(s: Seq<char>) -> bool {
    forall|i: int|
        0 <= i < s.len() && is_ws(#[trigger] s[i]) ==> s[i] == ' ' && 0 < i < s.len() - 1 && !is_ws(
            s[i - 1],
        ) && !is_ws(s[i + 1])
}

proof fn lemma_collapse_prefix(s: Seq<char>, n: nat)
    requires
        n <= s.len(),
    ensures
        well_spaced(collapse_prefix(s, n).0),
        collapse_prefix(s, n).0.len() + (if collapse_prefix(s, n).1 { 1int } else { 0int }) <= n,
        collapse_prefix(s, n).1 ==> collapse_prefix(s, n).0.len() > 0,
        collapse_prefix(s, n).0.len() == 0 <==> forall|i: int| 0 <= i < n ==> is_ws(#[trigger] s[i]),
    decreases n,
{
    if n > 0 {
        lemma_collapse_prefix(s, (n - 1) as nat);
        let (out, gap) = collapse_prefix(s, (n - 1) as nat);
        let c = s[n - 1];
        if !is_ws(c) {
            assert(!(forall|i: int| 0 <= i < n ==> is_ws(#[trigger] s[i])));
            if gap {
                let o2 = out.push(' ').push(c);
                assert(out.len() > 0);
                assert(!is_ws(out.last())) by {
                    if is_ws(out[out.len() - 1]) {
                    }
                }
                assert forall|i: int| 0 <= i < o2.len() && is_ws(#[trigger] o2[i]) implies o2[i]
                    == ' ' && 0 < i < o2.len() - 1 && !is_ws(o2[i - 1]) && !is_ws(o2[i + 1]) by {
                    if i < out.len() {
                        assert(o2[i] == out[i]);
                        assert(o2[i - 1] == out[i - 1]);
                        if i < out.len() - 1 {
                            assert(o2[i + 1] == out[i + 1]);
                        }
                    }
                }
            } else {
                let o2 = out.push(c);
                assert forall|i: int| 0 <= i < o2.len() && is_ws(#[trigger] o2[i]) implies o2[i]
                    == ' ' && 0 < i < o2.len() - 1 && !is_ws(o2[i - 1]) && !is_ws(o2[i + 1]) by {
                    assert(o2[i] == out[i]);
                    assert(o2[i - 1] == out[i - 1]);
                    if i < out.len() - 1 {
                        assert(o2[i + 1] == out[i + 1]);
                    }
                }
            }
        }
    }
}

/// The whitespace-collapsed text is well spaced and no longer than the input.
pub proof fn lemma_collapse_whitespace(s: Seq<char>)
    ensures
        well_spaced(collapse_whitespace(s)),
        collapse_whitespace(s).len() <= s.len(),
        collapse_whitespace(s).len() == 0 <==> forall|i: int| 0 <= i < s.len() ==> is_ws(#[trigger] s[i]),
{
    lemma_collapse_prefix(s, s.len());
}

/// The whitespace-collapsed characters of `text`.
pub fn collapse_whitespace_chars(text: &str) -> (out: Vec<char>)
    ensures
        out@ == collapse_whitespace(text@),
{
    let chars = str_to_chars(text);
    let n = chars.len();
    let mut out: Vec<char> = Vec::new();
    let mut gap = false;
    let mut i: usize = 0;
    while i < n
        invariant
            n == chars@.len(),
            chars@ == text@,
            i <= n,
            (out@, gap) == collapse_prefix(chars@, i as nat),
        decreases n - i,
    {
        let c = chars[i];
        if is_whitespace_char(c) {
            if out.len() > 0 {
                gap = true;
            }
        } else {
            if gap {
                out.push(' ');
                gap = false;
            }
            out.push(c);
        }
        i = i + 1;
    }
    out
}


/// A character after which a chunk may end.
pub open spec fn is_sentence_end(c: char) -> bool {
    c == '.' || c == '!' || c == '?' || c == '\n'
}

/// The largest `i` in `lo..hi` where `b[i]` ends a sentence.
pub open spec fn last_sentence_end(b: Seq<char>, lo: int, hi: int) -> Option<int>
    decreases hi - lo,
{
    if hi <= lo {
        None
    } else if is_sentence_end(b[hi - 1]) {
        Some(hi - 1)
    } else {
        last_sentence_end(b, lo, hi - 1)
    }
}

proof fn lemma_last_sentence_end_bounds(b: Seq<char>, lo: int, hi: int)
    ensures
        last_sentence_end(b, lo, hi) matches Some(i) ==> lo <= i < hi && is_sentence_end(b[i]),
    decreases hi - lo,
{
    if hi > lo && !is_sentence_end(b[hi - 1]) {
        lemma_last_sentence_end_bounds(b, lo, hi - 1);
    }
}

/// Where the chunk that starts at `start` ends: `tc` characters on, or just
/// after the last sentence end in the final third of that window, or the end
/// of the text.
pub open spec fn split_point(b: Seq<char>, start: int, tc: int) -> int {
    if start + tc < b.len() {
        match last_sentence_end(b, start + (tc * 2) / 3, start + tc) {
            Some(i) => i + 1,
            None => start + tc,
        }
    } else {
        b.len() as int
    }
}

/// Where the chunk after the one at `start` begins: `oc` characters before
/// the split point, but not before the start of the text.
pub open spec fn next_start(b: Seq<char>, start: int, tc: int, oc: int) -> int {
    let split = split_point(b, start, tc);
    if split - oc > 0 {
        split - oc
    } else {
        0
    }
}

/// The chunk that starts at `start`, trimmed.
pub open spec fn chunk_at(b: Seq<char>, start: int, tc: int) -> Seq<char> {
    trim_ws(b.subrange(start, split_point(b, start, tc)))
}

/// Chunking from `start` stops within `fuel` further steps.
pub open spec fn chunking_halts(b: Seq<char>, start: int, tc: int, oc: int, fuel: nat) -> bool
    decreases fuel,
{
    ||| start >= b.len()
    ||| split_point(b, start, tc) >= b.len()
    ||| fuel > 0 && chunking_halts(b, next_start(b, start, tc, oc), tc, oc, (fuel - 1) as nat)
}

/// The non-empty chunks produced from `start` on, within `fuel` steps.
pub open spec fn chunks_from(b: Seq<char>, start: int, tc: int, oc: int, fuel: nat) -> Seq<
    Seq<char>,
>
    decreases fuel,
{
    if start >= b.len() {
        Seq::empty()
    } else {
        let c = chunk_at(b, start, tc);
        let here = if c.len() > 0 {
            seq![c]
        } else {
            Seq::empty()
        };
        if split_point(b, start, tc) >= b.len() || fuel == 0 {
            here
        } else {
            here + chunks_from(b, next_start(b, start, tc, oc), tc, oc, (fuel - 1) as nat)
        }
    }
}

/// Chunking `text` with the given token sizes comes to an end.
pub open spec fn chunk_text_halts(text: Seq<char>, target_tokens: nat, overlap_tokens: nat) -> bool {
    exists|fuel: nat|
        #[trigger] chunking_halts(
            collapse_whitespace(text),
            0,
            (target_tokens * 4) as int,
            (overlap_tokens * 4) as int,
            fuel,
        )
}

/// The chunks of `text`: the whitespace-collapsed text cut into windows of
/// `target_tokens * 4` characters, each ended early at a sentence end where
/// one lies in its last third, consecutive windows overlapping by
/// `overlap_tokens * 4` characters, each trimmed, empty ones dropped.
pub open spec fn chunk_text_spec(text: Seq<char>, target_tokens: nat, overlap_tokens: nat) -> Seq<
    Seq<char>,
> {
    let b = collapse_whitespace(text);
    let tc = (target_tokens * 4) as int;
    let oc = (overlap_tokens * 4) as int;
    chunks_from(b, 0, tc, oc, choose|fuel: nat| #[trigger] chunking_halts(b, 0, tc, oc, fuel))
}

/// The views of a vector of strings.
pub open spec fn strings_view(v: Seq<String>) -> Seq<Seq<char>> {
    v.map_values(|s: String| s@)
}

/// The largest `i` in `lo..hi` where `b[i]` ends a sentence.
fn find_last_sentence_end(b: &Vec<char>, lo: usize, hi: usize) -> (r: Option<usize>)
    requires
        hi <= b@.len(),
    ensures
        match r {
            Some(i) => last_sentence_end(b@, lo as int, hi as int) == Some(i as int) && lo <= i
                < hi,
            None => last_sentence_end(b@, lo as int, hi as int) is None,
        },
{
    let mut j = hi;
    while j > lo
        invariant
            j <= hi <= b@.len(),
            last_sentence_end(b@, lo as int, hi as int) == last_sentence_end(
                b@,
                lo as int,
                j as int,
            ),
        decreases j,
    {
        proof {
            lemma_last_sentence_end_bounds(b@, lo as int, j as int);
        }
        let c = b[j - 1];
        if c == '.' || c == '!' || c == '?' || c == '\n' {
            return Some(j - 1);
        }
        j = j - 1;
    }
    None
}

/// Split text into chunks of about `target_tokens` tokens with
/// `overlap_tokens` tokens of overlap (one token taken as four characters),
/// preferring sentence ends as chunk ends.
pub fn chunk_text(text: &str, target_tokens: usize, overlap_tokens: usize) -> (chunks: Vec<String>)
    requires
        target_tokens * 4 <= usize::MAX,
        overlap_tokens * 4 <= usize::MAX,
        chunk_text_halts(text@, target_tokens as nat, overlap_tokens as nat),
    ensures
        strings_view(chunks@) == chunk_text_spec(text@, target_tokens as nat, overlap_tokens as nat),
{
    let target_chars = target_tokens * 4;
    let overlap_chars = overlap_tokens * 4;
    let bytes = collapse_whitespace_chars(text);
    let ghost b = bytes@;
    let ghost tc = target_chars as int;
    let ghost oc = overlap_chars as int;
    let ghost fuel0: nat = choose|fuel: nat| #[trigger] chunking_halts(b, 0, tc, oc, fuel);
    let ghost total = chunks_from(b, 0, tc, oc, fuel0);
    let mut chunks: Vec<String> = Vec::new();
    if bytes.len() == 0 {
        assert(strings_view(chunks@) =~= total);
        return chunks;
    }
    let n = bytes.len();
    let mut start: usize = 0;
    let ghost mut fuel: nat = fuel0;
    loop
        invariant
            n == b.len(),
            bytes@ == b,
            tc == target_chars,
            oc == overlap_chars,
            start < n,
            chunking_halts(b, start as int, tc, oc, fuel),
            strings_view(chunks@) + chunks_from(b, start as int, tc, oc, fuel) == total,
            total == chunk_text_spec(text@, target_tokens as nat, overlap_tokens as nat),
        decreases fuel,
    {
        let end = if target_chars < n - start {
            start + target_chars
        } else {
            n
        };
        let mut split = end;
        if end < n {
            let two_thirds = 2 * (target_chars / 3) + (2 * (target_chars % 3)) / 3;
            assert(two_thirds == (tc * 2) / 3);
            let window_start = start + two_thirds;
            match find_last_sentence_end(&bytes, window_start, end) {
                Some(i) => {
                    split = i + 1;
                },
                None => {},
            }
        }
        assert(split as int == split_point(b, start as int, tc));
        let chunk = trimmed_range(&bytes, start, split);
        let ghost here = chunk_at(b, start as int, tc);
        assert(chunk@ == here);
        let ghost before = strings_view(chunks@);
        if !chunk.as_str().is_empty() {
            chunks.push(chunk);
            assert(strings_view(chunks@) =~= before + seq![here]);
        }
        if split >= n {
            assert(strings_view(chunks@) =~= total);
            return chunks;
        }
        let next = if split > overlap_chars {
            split - overlap_chars
        } else {
            0
        };
        proof {
            assert(next as int == next_start(b, start as int, tc, oc));
            assert(fuel > 0);
            fuel = (fuel - 1) as nat;
        }
        start = next;
        assert(start < n);
    }
}


/// `t` is a contiguous part of `b`.
pub open spec fn is_substring(t: Seq<char>, b: Seq<char>) -> bool {
    exists|lo: int, hi: int| 0 <= lo <= hi <= b.len() && t == #[trigger] b.subrange(lo, hi)
}

/// `c` is a proper chunk of `b`: non-empty, at most `tc` characters, starting
/// and ending with non-whitespace, and a contiguous part of `b`.
pub open spec fn is_chunk_of(c: Seq<char>, b: Seq<char>, tc: int) -> bool {
    &&& 0 < c.len() <= tc
    &&& !is_ws(c[0])
    &&& !is_ws(c.last())
    &&& is_substring(c, b)
}

proof fn lemma_split_point_bounds(b: Seq<char>, start: int, tc: int)
    requires
        0 <= start < b.len(),
        0 <= tc,
    ensures
        start <= split_point(b, start, tc) <= b.len(),
        split_point(b, start, tc) <= start + tc,
        tc >= 1 ==> split_point(b, start, tc) > start,
        split_point(b, start, tc) < b.len() ==> split_point(b, start, tc) >= start + (tc * 2) / 3
            + 1 || split_point(b, start, tc) == start + tc,
{
    if start + tc < b.len() {
        lemma_last_sentence_end_bounds(b, start + (tc * 2) / 3, start + tc);
    }
}

proof fn lemma_chunk_at_shape(b: Seq<char>, start: int, tc: int)
    requires
        0 <= start < b.len(),
        0 <= tc,
    ensures
        chunk_at(b, start, tc).len() > 0 ==> is_chunk_of(chunk_at(b, start, tc), b, tc),
{
    lemma_split_point_bounds(b, start, tc);
    let split = split_point(b, start, tc);
    let sub = b.subrange(start, split);
    let (lo, hi) = lemma_trim_shape(sub);
    assert(sub.subrange(lo, hi) =~= b.subrange(start + lo, start + hi));
}

proof fn lemma_chunks_from_shape(b: Seq<char>, start: int, tc: int, oc: int, fuel: nat)
    requires
        0 <= start,
        0 <= tc,
        0 <= oc,
    ensures
        forall|k: int|
            0 <= k < chunks_from(b, start, tc, oc, fuel).len() ==> is_chunk_of(
                #[trigger] chunks_from(b, start, tc, oc, fuel)[k],
                b,
                tc,
            ),
    decreases fuel,
{
    if start < b.len() {
        lemma_chunk_at_shape(b, start, tc);
        let c = chunk_at(b, start, tc);
        let here = if c.len() > 0 {
            seq![c]
        } else {
            Seq::<Seq<char>>::empty()
        };
        if !(split_point(b, start, tc) >= b.len() || fuel == 0) {
            let next = next_start(b, start, tc, oc);
            let f1 = (fuel - 1) as nat;
            lemma_chunks_from_shape(b, next, tc, oc, f1);
            let rest = chunks_from(b, next, tc, oc, f1);
            let all = chunks_from(b, start, tc, oc, fuel);
            assert(all == here + rest);
            assert forall|k: int| 0 <= k < all.len() implies is_chunk_of(#[trigger] all[k], b, tc) by {
                if k < here.len() {
                    assert(all[k] == c);
                } else {
                    assert(all[k] == rest[k - here.len()]);
                }
            }
        }
    }
}

/// Every chunk is non-empty, at most `target_tokens * 4` characters long,
/// starts and ends with a non-whitespace character, and is a contiguous part
/// of the whitespace-collapsed text.
pub proof fn lemma_chunks_are_bounded_parts(text: Seq<char>, target_tokens: nat, overlap_tokens: nat)
    ensures
        forall|k: int|
            0 <= k < chunk_text_spec(text, target_tokens, overlap_tokens).len() ==> is_chunk_of(
                #[trigger] chunk_text_spec(text, target_tokens, overlap_tokens)[k],
                collapse_whitespace(text),
                (target_tokens * 4) as int,
            ),
{
    let b = collapse_whitespace(text);
    let tc = (target_tokens * 4) as int;
    let oc = (overlap_tokens * 4) as int;
    lemma_chunks_from_shape(
        b,
        0,
        tc,
        oc,
        choose|fuel: nat| #[trigger] chunking_halts(b, 0, tc, oc, fuel),
    );
}

proof fn lemma_zero_target_never_halts(b: Seq<char>, start: int, oc: int, fuel: nat)
    requires
        0 <= start < b.len(),
        0 <= oc,
    ensures
        !chunking_halts(b, start, 0, oc, fuel),
    decreases fuel,
{
    lemma_split_point_bounds(b, start, 0);
    if fuel > 0 {
        lemma_zero_target_never_halts(b, next_start(b, start, 0, oc), oc, (fuel - 1) as nat);
    }
}

/// Chunking yields no chunk exactly when the text is all whitespace.
pub proof fn lemma_no_chunks_iff_blank(text: Seq<char>, target_tokens: nat, overlap_tokens: nat)
    requires
        chunk_text_halts(text, target_tokens, overlap_tokens),
    ensures
        chunk_text_spec(text, target_tokens, overlap_tokens).len() == 0 <==> forall|i: int|
            0 <= i < text.len() ==> is_ws(#[trigger] text[i]),
{
    let b = collapse_whitespace(text);
    let tc = (target_tokens * 4) as int;
    let oc = (overlap_tokens * 4) as int;
    let fuel = choose|fuel: nat| #[trigger] chunking_halts(b, 0, tc, oc, fuel);
    lemma_collapse_whitespace(text);
    if b.len() > 0 {
        if tc == 0 {
            lemma_zero_target_never_halts(b, 0, oc, fuel);
        }
        lemma_split_point_bounds(b, 0, tc);
        let split = split_point(b, 0, tc);
        let sub = b.subrange(0, split);
        assert(!is_ws(b[0])) by {
            if is_ws(b[0]) {
                assert(0 < 0int);
            }
        }
        assert(sub[0] == b[0]);
        lemma_trim_shape(sub);
        assert(chunk_at(b, 0, tc).len() > 0);
        let c = chunks_from(b, 0, tc, oc, fuel);
        assert(c.len() > 0);
    }
}

/// A text whose collapsed form fits in one window is a single chunk: the
/// collapsed text itself.
pub proof fn lemma_short_text_is_one_chunk(text: Seq<char>, target_tokens: nat, overlap_tokens: nat)
    requires
        0 < collapse_whitespace(text).len() <= target_tokens * 4,
    ensures
        chunk_text_halts(text, target_tokens, overlap_tokens),
        chunk_text_spec(text, target_tokens, overlap_tokens) == seq![collapse_whitespace(text)],
{
    let b = collapse_whitespace(text);
    let tc = (target_tokens * 4) as int;
    let oc = (overlap_tokens * 4) as int;
    lemma_collapse_whitespace(text);
    assert(chunking_halts(b, 0, tc, oc, 0));
    let n = b.len() as int;
    assert(!is_ws(b[0])) by {
        if is_ws(b[0]) {
            assert(0 < 0int);
        }
    }
    assert(!is_ws(b[n - 1])) by {
        if is_ws(b[n - 1]) {
            assert(n - 1 < n - 1);
        }
    }
    assert(b.subrange(0, n) =~= b);
    lemma_trim_bounds(b, 0, n);
    assert(chunk_at(b, 0, tc) == b);
}

proof fn lemma_halts_with_progress(b: Seq<char>, start: int, tc: int, oc: int, fuel: nat)
    requires
        0 <= start,
        tc >= 1,
        0 <= oc <= (tc * 2) / 3,
        fuel >= b.len() - start,
    ensures
        chunking_halts(b, start, tc, oc, fuel),
    decreases fuel,
{
    if start < b.len() {
        lemma_split_point_bounds(b, start, tc);
        if split_point(b, start, tc) < b.len() {
            let next = next_start(b, start, tc, oc);
            assert(next > start);
            lemma_halts_with_progress(b, next, tc, oc, (fuel - 1) as nat);
        }
    }
}

proof fn lemma_chunks_from_count(b: Seq<char>, start: int, tc: int, oc: int, fuel: nat)
    requires
        0 <= start,
        tc >= 1,
        0 <= oc <= (tc * 2) / 3,
    ensures
        chunks_from(b, start, tc, oc, fuel).len() <= if start < b.len() {
            b.len() - start
        } else {
            0
        },
    decreases fuel,
{
    if start < b.len() {
        lemma_split_point_bounds(b, start, tc);
        if !(split_point(b, start, tc) >= b.len() || fuel == 0) {
            let next = next_start(b, start, tc, oc);
            assert(next >= start + 1);
            lemma_chunks_from_count(b, next, tc, oc, (fuel - 1) as nat);
        }
    }
}

/// With a positive target and an overlap of at most two thirds of the
/// target window, chunking always comes to an end, with no more chunks than
/// the text has characters.
pub proof fn lemma_chunking_terminates(text: Seq<char>, target_tokens: nat, overlap_tokens: nat)
    requires
        target_tokens >= 1,
        overlap_tokens * 4 <= (target_tokens * 8) / 3,
    ensures
        chunk_text_halts(text, target_tokens, overlap_tokens),
        chunk_text_spec(text, target_tokens, overlap_tokens).len() <= collapse_whitespace(text).len(),
        chunk_text_spec(text, target_tokens, overlap_tokens).len() <= text.len(),
{
    let b = collapse_whitespace(text);
    let tc = (target_tokens * 4) as int;
    let oc = (overlap_tokens * 4) as int;
    assert((tc * 2) / 3 == (target_tokens * 8) / 3);
    lemma_halts_with_progress(b, 0, tc, oc, b.len());
    assert(chunking_halts(b, 0, tc, oc, b.len()));
    lemma_chunks_from_count(b, 0, tc, oc, choose|fuel: nat| #[trigger] chunking_halts(b, 0, tc, oc, fuel));
    lemma_collapse_whitespace(text);
}

/// The window `b[s..e]` is cut where chunking cuts a window that does not
/// reach the end of the text: just after the last `.`, `!`, `?` or newline in
/// the final third `[s + tc*2/3, s + tc)` of its `tc` characters, or at
/// `s + tc` when there is none.
pub open spec fn sentence_cut(b: Seq<char>, s: int, e: int, tc: int) -> bool {
    let lo = s + (tc * 2) / 3;
    let hi = s + tc;
    ||| e == hi && (forall|j: int|
        lo <= j < hi ==> !(#[trigger] b[j] == '.' || b[j] == '!' || b[j] == '?' || b[j] == '\n'))
    ||| lo <= e - 1 < hi && (b[e - 1] == '.' || b[e - 1] == '!' || b[e - 1] == '?' || b[e - 1] == '\n')
        && (forall|j: int|
        e - 1 < j < hi ==> !(#[trigger] b[j] == '.' || b[j] == '!' || b[j] == '?' || b[j] == '\n'))
}

/// The chunks `chunks` of the collapsed text `b` are the trimmed windows `w`:
/// the first window starts at 0 and the last ends at the end of the text;
/// the last window is the first whose `tc` characters reach the end; every
/// other window is cut at a sentence end as `sentence_cut` says; and each
/// window after the first starts `oc` characters before the previous one
/// ends (or at 0), so that no text between two windows is skipped.
pub open spec fn chunk_windows(b: Seq<char>, chunks: Seq<Seq<char>>, w: Seq<(int, int)>, tc: int, oc: int) -> bool {
    &&& w.len() == chunks.len()
    &&& w.len() > 0
    &&& w[0].0 == 0
    &&& w.last().1 == b.len()
    &&& forall|k: int|
        0 <= k < w.len() ==> 0 <= (#[trigger] w[k]).0 < w[k].1 <= b.len() && chunks[k] == trim_ws(
            b.subrange(w[k].0, w[k].1),
        )
    &&& forall|k: int| 0 <= k < w.len() ==> (k == w.len() - 1 <==> (#[trigger] w[k]).0 + tc >= b.len())
    &&& forall|k: int|
        0 <= k < w.len() - 1 ==> w[k + 1].0 == if (#[trigger] w[k]).1 - oc > 0 {
            w[k].1 - oc
        } else {
            0
        }
    &&& forall|k: int| 0 <= k < w.len() - 1 ==> sentence_cut(b, (#[trigger] w[k]).0, w[k].1, tc)
}

/// Position `p` lies inside one of the windows `w`.
pub open spec fn covered(w: Seq<(int, int)>, p: int) -> bool {
    exists|k: int| 0 <= k < w.len() && (#[trigger] w[k]).0 <= p && p < w[k].1
}

/// The windows chunking cuts from `start` on, within `fuel` steps.
pub open spec fn windows_from(b: Seq<char>, start: int, tc: int, oc: int, fuel: nat) -> Seq<(int, int)>
    decreases fuel,
{
    if start >= b.len() {
        Seq::empty()
    } else {
        let split = split_point(b, start, tc);
        if split >= b.len() || fuel == 0 {
            seq![(start, split)]
        } else {
            seq![(start, split)] + windows_from(b, next_start(b, start, tc, oc), tc, oc, (fuel - 1) as nat)
        }
    }
}

proof fn lemma_last_sentence_end_full(b: Seq<char>, lo: int, hi: int)
    ensures
        match last_sentence_end(b, lo, hi) {
            Some(i) => lo <= i < hi && is_sentence_end(b[i]) && forall|j: int|
                i < j < hi ==> !is_sentence_end(#[trigger] b[j]),
            None => forall|j: int| lo <= j < hi ==> !is_sentence_end(#[trigger] b[j]),
        },
    decreases hi - lo,
{
    if hi > lo && !is_sentence_end(b[hi - 1]) {
        lemma_last_sentence_end_full(b, lo, hi - 1);
    }
}

proof fn lemma_window_cut(b: Seq<char>, start: int, tc: int)
    requires
        0 <= start,
        tc >= 1,
        start + tc < b.len(),
    ensures
        sentence_cut(b, start, split_point(b, start, tc), tc),
{
    lemma_last_sentence_end_full(b, start + (tc * 2) / 3, start + tc);
}

proof fn lemma_window_not_blank(b: Seq<char>, start: int, split: int)
    requires
        well_spaced(b),
        0 <= start < split <= b.len(),
        split == b.len() || split - start >= 2,
    ensures
        trim_ws(b.subrange(start, split)).len() > 0,
{
    let sub = b.subrange(start, split);
    lemma_trim_shape(sub);
    if split == b.len() {
        assert(!is_ws(b[split - 1]));
        assert(sub[split - start - 1] == b[split - 1]);
    } else if is_ws(b[start]) {
        assert(!is_ws(b[start + 1]));
        assert(sub[1] == b[start + 1]);
    } else {
        assert(sub[0] == b[start]);
    }
}

proof fn lemma_windows_from(b: Seq<char>, start: int, tc: int, oc: int, fuel: nat)
    requires
        0 <= start < b.len(),
        tc >= 4,
        0 <= oc <= (tc * 2) / 3,
        well_spaced(b),
        chunking_halts(b, start, tc, oc, fuel),
    ensures
        ({
            let w = windows_from(b, start, tc, oc, fuel);
            let c = chunks_from(b, start, tc, oc, fuel);
            &&& w.len() == c.len()
            &&& w.len() > 0
            &&& w[0].0 == start
            &&& w.last().1 == b.len()
            &&& forall|k: int|
                0 <= k < w.len() ==> start <= (#[trigger] w[k]).0 < w[k].1 <= b.len() && c[k] == trim_ws(
                    b.subrange(w[k].0, w[k].1),
                )
            &&& forall|k: int| 0 <= k < w.len() ==> (k == w.len() - 1 <==> (#[trigger] w[k]).0 + tc >= b.len())
            &&& forall|k: int|
                0 <= k < w.len() - 1 ==> w[k + 1].0 == if (#[trigger] w[k]).1 - oc > 0 {
                    w[k].1 - oc
                } else {
                    0
                }
            &&& forall|k: int| 0 <= k < w.len() - 1 ==> sentence_cut(b, (#[trigger] w[k]).0, w[k].1, tc)
        }),
    decreases fuel,
{
    lemma_split_point_bounds(b, start, tc);
    let split = split_point(b, start, tc);
    let w = windows_from(b, start, tc, oc, fuel);
    let c = chunks_from(b, start, tc, oc, fuel);
    lemma_window_not_blank(b, start, split);
    let here = chunk_at(b, start, tc);
    assert(here == trim_ws(b.subrange(start, split)));
    if split >= b.len() {
        assert(w == seq![(start, split)]);
        assert(c == seq![here]);
    } else {
        assert(fuel > 0);
        let next = next_start(b, start, tc, oc);
        let f1 = (fuel - 1) as nat;
        assert(next >= start + 1);
        lemma_windows_from(b, next, tc, oc, f1);
        lemma_window_cut(b, start, tc);
        let wr = windows_from(b, next, tc, oc, f1);
        let cr = chunks_from(b, next, tc, oc, f1);
        assert(w == seq![(start, split)] + wr);
        assert(c == seq![here] + cr);
        assert forall|k: int| 0 <= k < w.len() implies start <= (#[trigger] w[k]).0 < w[k].1 <= b.len()
            && c[k] == trim_ws(b.subrange(w[k].0, w[k].1)) by {
            if k > 0 {
                assert(w[k] == wr[k - 1]);
                assert(c[k] == cr[k - 1]);
            }
        }
        assert forall|k: int| 0 <= k < w.len() implies (k == w.len() - 1 <==> (#[trigger] w[k]).0 + tc
            >= b.len()) by {
            if k > 0 {
                assert(w[k] == wr[k - 1]);
            }
        }
        assert forall|k: int| 0 <= k < w.len() - 1 implies w[k + 1].0 == if (#[trigger] w[k]).1 - oc
            > 0 {
            w[k].1 - oc
        } else {
            0
        } by {
            assert(w[k + 1] == wr[k]);
            if k > 0 {
                assert(w[k] == wr[k - 1]);
            }
        }
        assert forall|k: int| 0 <= k < w.len() - 1 implies sentence_cut(b, (#[trigger] w[k]).0, w[k].1, tc) by {
            if k > 0 {
                assert(w[k] == wr[k - 1]);
            }
        }
        assert(w.last() == wr.last());
    }
}

proof fn lemma_covered_up_to(w: Seq<(int, int)>, m: int, p: int)
    requires
        w.len() > 0,
        w[0].0 == 0,
        0 <= m < w.len(),
        0 <= p < w[m].1,
        forall|k: int| 0 <= k < w.len() - 1 ==> w[k + 1].0 <= (#[trigger] w[k]).1,
    ensures
        covered(w, p),
    decreases m,
{
    if p >= w[m].0 {
        assert(w[m].0 <= p < w[m].1);
    } else {
        assert(w[m - 1].1 >= w[m].0);
        lemma_covered_up_to(w, m - 1, p);
    }
}

/// Chunking loses no text and cuts where it says: for a positive target and
/// an overlap of at most two thirds of the window, the chunks of a non-blank
/// text are the trimmed windows of the collapsed text described by
/// `chunk_windows` (each later window starting `overlap_tokens * 4`
/// characters before the end of the one before it, or at 0), and every
/// position of the collapsed text lies inside some window.
pub proof fn lemma_chunks_cover_text(text: Seq<char>, target_tokens: nat, overlap_tokens: nat)
    requires
        target_tokens >= 1,
        overlap_tokens * 4 <= (target_tokens * 8) / 3,
        collapse_whitespace(text).len() > 0,
    ensures
        exists|w: Seq<(int, int)>|
            #[trigger] chunk_windows(
                collapse_whitespace(text),
                chunk_text_spec(text, target_tokens, overlap_tokens),
                w,
                (target_tokens * 4) as int,
                (overlap_tokens * 4) as int,
            ) && forall|p: int| 0 <= p < collapse_whitespace(text).len() ==> #[trigger] covered(w, p),
{
    let b = collapse_whitespace(text);
    let tc = (target_tokens * 4) as int;
    let oc = (overlap_tokens * 4) as int;
    lemma_chunking_terminates(text, target_tokens, overlap_tokens);
    lemma_collapse_whitespace(text);
    assert((tc * 2) / 3 == (target_tokens * 8) / 3);
    let fuel = choose|fuel: nat| #[trigger] chunking_halts(b, 0, tc, oc, fuel);
    lemma_windows_from(b, 0, tc, oc, fuel);
    let w = windows_from(b, 0, tc, oc, fuel);
    let c = chunk_text_spec(text, target_tokens, overlap_tokens);
    assert(c == chunks_from(b, 0, tc, oc, fuel));
    assert(chunk_windows(b, c, w, tc, oc));
    assert forall|k: int| 0 <= k < w.len() - 1 implies w[k + 1].0 <= (#[trigger] w[k]).1 by {
        assert(0 <= k < w.len());
    }
    assert forall|p: int| 0 <= p < b.len() implies #[trigger] covered(w, p) by {
        lemma_covered_up_to(w, w.len() - 1, p);
    }
}

} // verus!
