//! Locating the structured recommendation at the end of an analysis.

use vstd::prelude::*;
use crate::text::{
    find_from, first_match_from, last_match_before, lemma_first_match_bounds, lemma_first_match_shift,
    lemma_last_match_bounds, rfind, str_to_chars, trim_ws, trimmed_range,
};

verus! {

/// The body of the last fenced ```` ```json ```` block of `t`: the text after
/// the last ```` ```json ```` up to the next ```` ``` ````, trimmed.
pub open spec fn json_tail_spec(t: Seq<char>) -> Option<Seq<char>> {
    let open_fence = "```json"@;
    match last_match_before(t, open_fence, (t.len() + 1) as nat) {
        None => None,
        Some(open) => {
            let after = t.subrange(open + open_fence.len(), t.len() as int);
            match first_match_from(after, "```"@, 0) {
                None => None,
                Some(close) => Some(trim_ws(after.subrange(0, close))),
            }
        },
    }
}

/// The body of the last fenced ```` ```json ```` block of `text`, trimmed;
/// `None` when there is no such block or it is not closed.
pub fn json_tail(text: &str) -> (r: Option<String>)
    ensures
        match r {
            Some(body) => json_tail_spec(text@) == Some(body@),
            None => json_tail_spec(text@) is None,
        },
{
    let t = str_to_chars(text);
    let open_fence = str_to_chars("```json");
    let close_fence = str_to_chars("```");
    let open = match rfind(t.as_slice(), open_fence.as_slice()) {
        Some(k) => k,
        None => return None,
    };
    proof {
        lemma_last_match_bounds(t@, open_fence@, (t@.len() + 1) as nat);
    }
    let tlen = t.len();
    assert(open + open_fence@.len() <= tlen);
    let start = open + open_fence.len();
    let ghost after = t@.subrange(start as int, t@.len() as int);
    proof {
        lemma_first_match_shift(t@, close_fence@, start as int, 0);
    }
    let close = match find_from(t.as_slice(), close_fence.as_slice(), start) {
        Some(k) => k,
        None => return None,
    };
    proof {
        lemma_first_match_bounds(t@, close_fence@, start as int);
        assert(after.subrange(0, close - start) =~= t@.subrange(start as int, close as int));
    }
    Some(trimmed_range(t.as_slice(), start, close))
}

} // verus!
