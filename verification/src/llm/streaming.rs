//! Reading the server-sent event stream of a streaming analysis: framing the
//! text into events, telling events apart, and adding up what they carry.

use vstd::prelude::*;
use crate::text::{
    find_from, first_match_from, lemma_first_from, lemma_first_match_bounds,
    lemma_first_match_extend, lemma_first_match_shift, matches_at, range_eq_str, starts_with,
    str_to_chars, string_from_chars, trim_ws, trimmed_range,
};

verus! {

/// The blank line that ends an event.
pub open spec fn event_end() -> Seq<char> {
    seq!['\n', '\n']
}

/// The complete event blocks at the front of `b` (each without its blank
/// line), and what is left after the last one.
pub open spec fn sse_blocks(b: Seq<char>) -> (Seq<Seq<char>>, Seq<char>)
    decreases b.len(),
{
    match first_match_from(b, event_end(), 0) {
        Some(k) => {
            proof {
                lemma_first_match_bounds(b, event_end(), 0);
            }
            let (rest_blocks, rest) = sse_blocks(b.subrange(k + 2, b.len() as int));
            (seq![b.subrange(0, k)] + rest_blocks, rest)
        },
        None => (Seq::empty(), b),
    }
}

/// A line without the carriage return of a `\r\n` ending.
pub open spec fn strip_cr(l: Seq<char>) -> Seq<char> {
    if l.len() > 0 && l.last() == '\r' {
        l.drop_last()
    } else {
        l
    }
}

/// The lines of `s`, as `str::lines` gives them: split at `\n`, a `\r`
/// before the `\n` dropped, no empty line after a final `\n`.
pub open spec fn block_lines(s: Seq<char>) -> Seq<Seq<char>>
    decreases s.len(),
{
    if s.len() == 0 {
        Seq::empty()
    } else {
        match first_match_from(s, seq!['\n'], 0) {
            Some(k) => {
                proof {
                    lemma_first_match_bounds(s, seq!['\n'], 0);
                }
                seq![strip_cr(s.subrange(0, k))] + block_lines(s.subrange(k + 1, s.len() as int))
            },
            None => seq![s],
        }
    }
}

/// The event name and data of an event's lines: the name is the trimmed
/// text after the last `event: ` line (`message` if there is none); the data
/// is the text after each `data: ` line, concatenated.
pub open spec fn frame_fields(lines: Seq<Seq<char>>) -> (Seq<char>, Seq<char>)
    decreases lines.len(),
{
    if lines.len() == 0 {
        ("message"@, Seq::empty())
    } else {
        let (name, data) = frame_fields(lines.drop_last());
        let l = lines.last();
        if starts_with(l, "event: "@) {
            (trim_ws(l.subrange("event: "@.len() as int, l.len() as int)), data)
        } else if starts_with(l, "data: "@) {
            (name, data + l.subrange("data: "@.len() as int, l.len() as int))
        } else {
            (name, data)
        }
    }
}

/// The events of a run of blocks that carry data, as (name, data) pairs.
pub open spec fn sse_frames(blocks: Seq<Seq<char>>) -> Seq<(Seq<char>, Seq<char>)>
    decreases blocks.len(),
{
    if blocks.len() == 0 {
        Seq::empty()
    } else {
        let f = frame_fields(block_lines(blocks[0]));
        let here = if f.1.len() > 0 {
            seq![f]
        } else {
            Seq::empty()
        };
        here + sse_frames(blocks.drop_first())
    }
}

/// The events completed when `text` arrives after the pending `buf`, and
/// the new pending text.
pub open spec fn sse_feed(buf: Seq<char>, text: Seq<char>) -> (Seq<(Seq<char>, Seq<char>)>, Seq<char>) {
    let (blocks, rest) = sse_blocks(buf + text);
    (sse_frames(blocks), rest)
}

/// One event of the stream: its name and its data.
#[derive(Debug, Clone, PartialEq, Eq)]
pub struct SseFrame {
    pub event: String,
    pub data: String,
}

/// The (name, data) views of a run of events.
pub open spec fn frames_view(v: Seq<SseFrame>) -> Seq<(Seq<char>, Seq<char>)> {
    v.map_values(|f: SseFrame| (f.event@, f.data@))
}

/// Frames server-sent events out of text that arrives in pieces.
pub struct SseDecoder {
    buf: Vec<char>,
}

proof fn lemma_frames_cons(x: Seq<char>, rest: Seq<Seq<char>>)
    ensures
        sse_frames(seq![x] + rest) == (if frame_fields(block_lines(x)).1.len() > 0 {
            seq![frame_fields(block_lines(x))]
        } else {
            Seq::empty()
        }) + sse_frames(rest),
{
    assert((seq![x] + rest).drop_first() =~= rest);
    assert((seq![x] + rest)[0] == x);
}

proof fn lemma_lines_cons(s: Seq<char>, k: int)
    requires
        0 <= k < s.len(),
        s[k] == '\n',
        forall|j: int| 0 <= j < k ==> s[j] != '\n',
    ensures
        block_lines(s) == seq![strip_cr(s.subrange(0, k))] + block_lines(
            s.subrange(k + 1, s.len() as int),
        ),
{
    let nl = seq!['\n'];
    assert(s.subrange(k, k + 1) =~= nl);
    assert forall|j: int| 0 <= j < k implies !#[trigger] matches_at(s, nl, j) by {
        assert(s.subrange(j, j + 1)[0] == s[j]);
    }
    lemma_first_from(s, nl, 0, k);
}

proof fn lemma_lines_last(s: Seq<char>)
    requires
        s.len() > 0,
        forall|j: int| 0 <= j < s.len() ==> s[j] != '\n',
    ensures
        block_lines(s) == seq![s],
{
    let nl = seq!['\n'];
    lemma_first_match_bounds(s, nl, 0);
    if let Some(k) = first_match_from(s, nl, 0) {
        assert(s.subrange(k, k + 1)[0] == s[k]);
    }
}

proof fn lemma_fields_push(lines: Seq<Seq<char>>, l: Seq<char>)
    ensures
        frame_fields(lines.push(l)) == ({
            let (name, data) = frame_fields(lines);
            if starts_with(l, "event: "@) {
                (trim_ws(l.subrange("event: "@.len() as int, l.len() as int)), data)
            } else if starts_with(l, "data: "@) {
                (name, data + l.subrange("data: "@.len() as int, l.len() as int))
            } else {
                (name, data)
            }
        }),
{
    assert(lines.push(l).drop_last() =~= lines);
}

/// The name and data of the event block `s[lo..hi]`.
fn frame_of_block(s: &[char], lo: usize, hi: usize) -> (r: (String, Vec<char>))
    requires
        lo <= hi <= s@.len(),
    ensures
        (r.0@, r.1@) == frame_fields(block_lines(s@.subrange(lo as int, hi as int))),
{
    let event_prefix = str_to_chars("event: ");
    let data_prefix = str_to_chars("data: ");
    let mut name = crate::error::owned("message");
    let mut data: Vec<char> = Vec::new();
    let mut a = lo;
    let ghost mut done: Seq<Seq<char>> = Seq::empty();
    let ghost block = s@.subrange(lo as int, hi as int);
    proof {
        assert(block.subrange(0, block.len() as int) =~= s@.subrange(lo as int, hi as int));
    }
    while a < hi
        invariant
            lo <= a <= hi <= s@.len(),
            block == s@.subrange(lo as int, hi as int),
            event_prefix@ == "event: "@,
            data_prefix@ == "data: "@,
            block_lines(block) == done + block_lines(s@.subrange(a as int, hi as int)),
            (name@, data@) == frame_fields(done),
        decreases hi - a,
    {
        let ghost r = s@.subrange(a as int, hi as int);
        let mut e = a;
        while e < hi && s[e] != '\n'
            invariant
                a <= e <= hi <= s@.len(),
                forall|j: int| a <= j < e ==> s@[j] != '\n',
            decreases hi - e,
        {
            e = e + 1;
        }
        let terminated = e < hi;
        let mut ce = e;
        if terminated && ce > a && s[ce - 1] == '\r' {
            ce = ce - 1;
        }
        let ghost line = s@.subrange(a as int, ce as int);
        proof {
            if terminated {
                assert forall|j: int| 0 <= j < e - a implies r[j] != '\n' by {
                    assert(r[j] == s@[a + j]);
                }
                lemma_lines_cons(r, e - a);
                assert(r.subrange(e - a + 1, r.len() as int) =~= s@.subrange(e + 1, hi as int));
                assert(strip_cr(r.subrange(0, e - a)) =~= line);
            } else {
                assert forall|j: int| 0 <= j < r.len() implies r[j] != '\n' by {
                    assert(r[j] == s@[a + j]);
                }
                lemma_lines_last(r);
                assert(r =~= line);
            }
            lemma_fields_push(done, line);
        }
        let elen = event_prefix.len();
        let dlen = data_prefix.len();
        let is_event = ce - a >= elen && range_eq_str(s, a, a + elen, "event: ");
        let is_data = !is_event && ce - a >= dlen && range_eq_str(s, a, a + dlen, "data: ");
        proof {
            assert(line.subrange(0, elen as int) =~= s@.subrange(a as int, a + elen) || ce - a < elen);
            assert(line.subrange(0, dlen as int) =~= s@.subrange(a as int, a + dlen) || ce - a < dlen);
        }
        if is_event {
            name = trimmed_range(s, a + elen, ce);
            proof {
                assert(line.subrange(elen as int, line.len() as int) =~= s@.subrange(
                    a + elen,
                    ce as int,
                ));
            }
        } else if is_data {
            let ghost before = data@;
            let mut i = a + dlen;
            while i < ce
                invariant
                    a + dlen <= i <= ce <= s@.len(),
                    data@ == before + s@.subrange(a + dlen, i as int),
                decreases ce - i,
            {
                data.push(s[i]);
                assert(data@ =~= before + s@.subrange(a + dlen, i + 1));
                i = i + 1;
            }
            proof {
                assert(line.subrange(dlen as int, line.len() as int) =~= s@.subrange(
                    a + dlen,
                    ce as int,
                ));
            }
        }
        proof {
            let old_done = done;
            done = done.push(line);
            if terminated {
                assert(done + block_lines(s@.subrange(e + 1, hi as int)) =~= old_done + (seq![line]
                    + block_lines(s@.subrange(e + 1, hi as int))));
            } else {
                assert(s@.subrange(hi as int, hi as int) =~= Seq::<char>::empty());
                assert(block_lines(Seq::<char>::empty()) =~= Seq::<Seq<char>>::empty());
                assert(done + block_lines(s@.subrange(hi as int, hi as int)) =~= old_done + seq![
                    line,
                ]);
            }
        }
        a = if terminated {
            e + 1
        } else {
            hi
        };
    }
    proof {
        assert(s@.subrange(a as int, hi as int) =~= Seq::<char>::empty());
        assert(done + block_lines(s@.subrange(a as int, hi as int)) =~= done);
    }
    (name, data)
}

impl SseDecoder {
    /// The text received after the last complete event.
    pub closed spec fn pending(&self) -> Seq<char> {
        self.buf@
    }

    /// A decoder with nothing pending.
    pub fn new() -> (d: SseDecoder)
        ensures
            d.pending() == Seq::<char>::empty(),
    {
        SseDecoder { buf: Vec::new() }
    }

    /// Take in the next piece of the stream and return the events it
    /// completes that carry data, in order.
    pub fn feed(&mut self, text: &str) -> (frames: Vec<SseFrame>)
        ensures
            frames_view(frames@) == sse_feed(old(self).pending(), text@).0,
            final(self).pending() == sse_feed(old(self).pending(), text@).1,
    {
        let mut all: Vec<char> = Vec::new();
        std::mem::swap(&mut all, &mut self.buf);
        let incoming = str_to_chars(text);
        let ghost start_all = all@;
        let mut j: usize = 0;
        while j < incoming.len()
            invariant
                j <= incoming@.len(),
                incoming@ == text@,
                all@ == start_all + incoming@.subrange(0, j as int),
            decreases incoming@.len() - j,
        {
            all.push(incoming[j]);
            assert(all@ =~= start_all + incoming@.subrange(0, j + 1));
            j = j + 1;
        }
        assert(all@ =~= old(self).pending() + text@);
        let sep = vec!['\n', '\n'];
        assert(sep@ =~= event_end());
        let mut frames: Vec<SseFrame> = Vec::new();
        let mut pos: usize = 0;
        let ghost whole = all@;
        assert(whole.subrange(0, whole.len() as int) =~= whole);
        loop
            invariant
                pos <= all@.len(),
                all@ == whole,
                whole == old(self).pending() + text@,
                sep@ == event_end(),
                sse_frames(sse_blocks(whole).0) == frames_view(frames@) + sse_frames(
                    sse_blocks(whole.subrange(pos as int, whole.len() as int)).0,
                ),
                sse_blocks(whole).1 == sse_blocks(whole.subrange(pos as int, whole.len() as int)).1,
            decreases all@.len() - pos,
        {
            let ghost sub = whole.subrange(pos as int, whole.len() as int);
            proof {
                lemma_first_match_shift(whole, event_end(), pos as int, 0);
            }
            match find_from(all.as_slice(), sep.as_slice(), pos) {
                Some(k) => {
                    proof {
                        lemma_first_match_bounds(whole, event_end(), pos as int);
                    }
                    let (name, data_chars) = frame_of_block(all.as_slice(), pos, k);
                    let ghost blk = whole.subrange(pos as int, k as int);
                    let ghost next = whole.subrange(k + 2, whole.len() as int);
                    proof {
                        assert(sub.subrange(0, k - pos) =~= blk);
                        assert(sub.subrange(k - pos + 2, sub.len() as int) =~= next);
                        lemma_frames_cons(blk, sse_blocks(next).0);
                    }
                    let ghost before = frames_view(frames@);
                    if data_chars.len() > 0 {
                        let data = string_from_chars(data_chars.as_slice(), 0, data_chars.len());
                        proof {
                            assert(data_chars@.subrange(0, data_chars@.len() as int) =~= data_chars@);
                        }
                        frames.push(SseFrame { event: name, data });
                        assert(frames_view(frames@) =~= before + seq![frame_fields(block_lines(blk))]);
                    }
                    let alen = all.len();
                    assert(k + 2 <= alen);
                    pos = k + 2;
                },
                None => {
                    let mut rest: Vec<char> = Vec::new();
                    let mut i = pos;
                    while i < all.len()
                        invariant
                            pos <= i <= all@.len(),
                            rest@ == all@.subrange(pos as int, i as int),
                        decreases all@.len() - i,
                    {
                        rest.push(all[i]);
                        assert(rest@ =~= all@.subrange(pos as int, i + 1));
                        i = i + 1;
                    }
                    self.buf = rest;
                    assert(first_match_from(sub, event_end(), 0) is None);
                    assert(sse_blocks(sub).0 =~= Seq::<Seq<char>>::empty());
                    assert(sse_blocks(sub).1 =~= rest@);
                    assert(frames_view(frames@) + sse_frames(Seq::<Seq<char>>::empty()) =~= frames_view(frames@));
                    return frames;
                },
            }
        }
    }
}


proof fn lemma_blocks_append(a: Seq<char>, c: Seq<char>)
    ensures
        sse_blocks(a + c) == (
            sse_blocks(a).0 + sse_blocks(sse_blocks(a).1 + c).0,
            sse_blocks(sse_blocks(a).1 + c).1,
        ),
    decreases a.len(),
{
    match first_match_from(a, event_end(), 0) {
        Some(k) => {
            lemma_first_match_bounds(a, event_end(), 0);
            lemma_first_match_extend(a, c, event_end());
            let t = a + c;
            let a2 = a.subrange(k + 2, a.len() as int);
            assert(t.subrange(k + 2, t.len() as int) =~= a2 + c);
            assert(t.subrange(0, k) =~= a.subrange(0, k));
            lemma_blocks_append(a2, c);
            assert(sse_blocks(a).0 == seq![a.subrange(0, k)] + sse_blocks(a2).0);
            assert(sse_blocks(a).1 == sse_blocks(a2).1);
            assert(seq![a.subrange(0, k)] + (sse_blocks(a2).0 + sse_blocks(sse_blocks(a2).1 + c).0)
                =~= (seq![a.subrange(0, k)] + sse_blocks(a2).0) + sse_blocks(sse_blocks(a2).1 + c).0);
        },
        None => {
            assert(sse_blocks(a).0 + sse_blocks(a + c).0 =~= sse_blocks(a + c).0);
        },
    }
}

proof fn lemma_frames_append(x: Seq<Seq<char>>, y: Seq<Seq<char>>)
    ensures
        sse_frames(x + y) == sse_frames(x) + sse_frames(y),
    decreases x.len(),
{
    if x.len() == 0 {
        assert(x + y =~= y);
        assert(sse_frames(x) + sse_frames(y) =~= sse_frames(y));
    } else {
        assert((x + y).drop_first() =~= x.drop_first() + y);
        assert((x + y)[0] == x[0]);
        lemma_frames_append(x.drop_first(), y);
        let f = frame_fields(block_lines(x[0]));
        let here = if f.1.len() > 0 {
            seq![f]
        } else {
            Seq::empty()
        };
        assert(here + (sse_frames(x.drop_first()) + sse_frames(y)) =~= (here + sse_frames(
            x.drop_first(),
        )) + sse_frames(y));
    }
}

/// Framing does not depend on how the stream is cut into pieces: feeding
/// `x` and then `y` completes the same events, in the same order, and leaves
/// the same text pending as feeding `x + y` at once.
pub proof fn lemma_feed_split_invariant(buf: Seq<char>, x: Seq<char>, y: Seq<char>)
    ensures
        sse_feed(buf, x + y) == (
            sse_feed(buf, x).0 + sse_feed(sse_feed(buf, x).1, y).0,
            sse_feed(sse_feed(buf, x).1, y).1,
        ),
{
    let a = buf + x;
    assert(buf + (x + y) =~= a + y);
    lemma_blocks_append(a, y);
    lemma_frames_append(sse_blocks(a).0, sse_blocks(sse_blocks(a).1 + y).0);
}


/// What a byte chunk reads as, with each invalid UTF-8 sequence replaced by
/// U+FFFD, as `String::from_utf8_lossy` gives it.
pub uninterp spec fn utf8_lossy(bytes: Seq<u8>) -> Seq<char>;

/// `String::from_utf8_lossy`. Its result is named; the one fact stated is the
/// documented one that valid UTF-8 is decoded unchanged.
#[verifier::external_body]
fn from_utf8_lossy(bytes: &[u8]) -> (s: String)
    ensures
        s@ == utf8_lossy(bytes@),
        vstd::utf8::valid_utf8(bytes@) ==> s@ == vstd::utf8::decode_utf8(bytes@),
{
    String::from_utf8_lossy(bytes).into_owned()
}

impl SseDecoder {
    /// Take in the next chunk of bytes from the network, read as UTF-8 with
    /// invalid sequences replaced, and return the events it completes.
    pub fn feed_bytes(&mut self, bytes: &[u8]) -> (frames: Vec<SseFrame>)
        ensures
            frames_view(frames@) == sse_feed(old(self).pending(), utf8_lossy(bytes@)).0,
            final(self).pending() == sse_feed(old(self).pending(), utf8_lossy(bytes@)).1,
    {
        let text = from_utf8_lossy(bytes);
        self.feed(text.as_str())
    }
}

/// The kinds of event the analysis reads.
#[derive(Debug, Clone, Copy, PartialEq, Eq)]
pub enum EventKind {
    ContentBlockDelta,
    MessageStart,
    MessageDelta,
    MessageStop,
    Other,
}

/// The kind of an event with the given name.
pub open spec fn event_kind_spec(name: Seq<char>) -> EventKind {
    if name == "content_block_delta"@ {
        EventKind::ContentBlockDelta
    } else if name == "message_start"@ {
        EventKind::MessageStart
    } else if name == "message_delta"@ {
        EventKind::MessageDelta
    } else if name == "message_stop"@ {
        EventKind::MessageStop
    } else {
        EventKind::Other
    }
}

/// The kind of an event with the given name.
pub fn event_kind(name: &str) -> (k: EventKind)
    ensures
        k == event_kind_spec(name@),
{
    let chars = str_to_chars(name);
    let n = chars.len();
    proof {
        assert(chars@.subrange(0, n as int) =~= chars@);
    }
    if range_eq_str(chars.as_slice(), 0, n, "content_block_delta") {
        EventKind::ContentBlockDelta
    } else if range_eq_str(chars.as_slice(), 0, n, "message_start") {
        EventKind::MessageStart
    } else if range_eq_str(chars.as_slice(), 0, n, "message_delta") {
        EventKind::MessageDelta
    } else if range_eq_str(chars.as_slice(), 0, n, "message_stop") {
        EventKind::MessageStop
    } else {
        EventKind::Other
    }
}

/// The token counts of a `usage` object; absent fields count as zero.
#[derive(Debug, Clone, Copy, PartialEq, Eq)]
pub struct UsageCounts {
    pub input_tokens: u64,
    pub cache_creation_input_tokens: u64,
    pub cache_read_input_tokens: u64,
    pub output_tokens: u64,
}

/// What the JSON data of an event holds, as far as the analysis reads it.
#[derive(Debug, Clone, PartialEq, Eq)]
pub enum EventData {
    /// A content delta of type `text_delta` with this text.
    TextDelta(String),
    /// A content delta of another type.
    OtherDelta,
    /// The usage counts the event carries.
    Usage(UsageCounts),
    /// A well-formed `message_start` without usage.
    NoUsage,
    /// Data that is not of the shape the event's kind calls for.
    Malformed,
}

/// One recognised event of the stream.
#[derive(Debug, Clone, PartialEq, Eq)]
pub enum StreamEvent {
    Text(String),
    Usage { input_tokens: u64, cached_input_tokens: u64, output_tokens: u64 },
    Done,
}

/// The usage event for counts `u`: cache writes count as input, cache reads
/// as cached input.
pub open spec fn usage_event(u: UsageCounts) -> StreamEvent {
    StreamEvent::Usage {
        input_tokens: (u.input_tokens + u.cache_creation_input_tokens) as u64,
        cached_input_tokens: u.cache_read_input_tokens,
        output_tokens: u.output_tokens,
    }
}

/// The event an event of kind `kind` with data `data` stands for.
pub open spec fn stream_event_spec(kind: EventKind, data: EventData) -> Option<StreamEvent> {
    match kind {
        EventKind::ContentBlockDelta => match data {
            EventData::TextDelta(t) => Some(StreamEvent::Text(t)),
            _ => None,
        },
        EventKind::MessageStart | EventKind::MessageDelta => match data {
            EventData::Usage(u) => Some(usage_event(u)),
            _ => None,
        },
        EventKind::MessageStop => Some(StreamEvent::Done),
        EventKind::Other => None,
    }
}

/// The input and cache-write counts of a usage event can be added.
pub open spec fn usage_fits(kind: EventKind, data: EventData) -> bool {
    (kind is MessageStart || kind is MessageDelta) && data is Usage ==> data->Usage_0.input_tokens
        + data->Usage_0.cache_creation_input_tokens <= u64::MAX
}

/// The event that an event of kind `kind`, whose data reads as `data`,
/// stands for; `None` for events the analysis ignores.
pub fn stream_event(kind: EventKind, data: EventData) -> (r: Option<StreamEvent>)
    requires
        usage_fits(kind, data),
    ensures
        r == stream_event_spec(kind, data),
{
    match kind {
        EventKind::ContentBlockDelta => match data {
            EventData::TextDelta(t) => Some(StreamEvent::Text(t)),
            _ => None,
        },
        EventKind::MessageStart | EventKind::MessageDelta => match data {
            EventData::Usage(u) => Some(
                StreamEvent::Usage {
                    input_tokens: u.input_tokens + u.cache_creation_input_tokens,
                    cached_input_tokens: u.cache_read_input_tokens,
                    output_tokens: u.output_tokens,
                },
            ),
            _ => None,
        },
        EventKind::MessageStop => Some(StreamEvent::Done),
        EventKind::Other => None,
    }
}

/// What a streaming analysis has gathered so far.
pub struct StreamTotals {
    pub full_text: String,
    pub input_tokens: u64,
    pub cached_input_tokens: u64,
    pub output_tokens: u64,
}

/// The totals as plain values: text, input, cached input, output.
pub open spec fn totals_view(t: StreamTotals) -> (Seq<char>, u64, u64, u64) {
    (t.full_text@, t.input_tokens, t.cached_input_tokens, t.output_tokens)
}

/// The totals after event `e`: text is appended; each non-zero usage count
/// replaces the one before it (the start of a message gives the input counts,
/// its last delta the final output count).
pub open spec fn apply_spec(t: (Seq<char>, u64, u64, u64), e: StreamEvent) -> (Seq<char>, u64, u64, u64) {
    match e {
        StreamEvent::Text(s) => (t.0 + s@, t.1, t.2, t.3),
        StreamEvent::Usage { input_tokens, cached_input_tokens, output_tokens } => (
            t.0,
            if input_tokens > 0 { input_tokens } else { t.1 },
            if cached_input_tokens > 0 { cached_input_tokens } else { t.2 },
            if output_tokens > 0 { output_tokens } else { t.3 },
        ),
        StreamEvent::Done => t,
    }
}

/// The totals after a run of events, from nothing.
pub open spec fn totals_after(events: Seq<StreamEvent>) -> (Seq<char>, u64, u64, u64)
    decreases events.len(),
{
    if events.len() == 0 {
        (Seq::empty(), 0, 0, 0)
    } else {
        apply_spec(totals_after(events.drop_last()), events.last())
    }
}

/// The text of the text events of a run, in order.
pub open spec fn text_of(events: Seq<StreamEvent>) -> Seq<char>
    decreases events.len(),
{
    if events.len() == 0 {
        Seq::empty()
    } else {
        text_of(events.drop_last()) + match events.last() {
            StreamEvent::Text(s) => s@,
            _ => Seq::empty(),
        }
    }
}

/// The last non-zero output count reported by a run of events, or zero.
pub open spec fn last_output_count(events: Seq<StreamEvent>) -> u64
    decreases events.len(),
{
    if events.len() == 0 {
        0
    } else {
        match events.last() {
            StreamEvent::Usage { output_tokens, .. } if output_tokens > 0 => output_tokens,
            _ => last_output_count(events.drop_last()),
        }
    }
}

/// The assembled text is the text of all text events in order, and the
/// output count is the last non-zero one reported.
pub proof fn lemma_totals_after(events: Seq<StreamEvent>)
    ensures
        totals_after(events).0 == text_of(events),
        totals_after(events).3 == last_output_count(events),
    decreases events.len(),
{
    if events.len() > 0 {
        lemma_totals_after(events.drop_last());
        match events.last() {
            StreamEvent::Text(s) => {},
            _ => {
                assert(text_of(events.drop_last()) + Seq::<char>::empty() =~= text_of(events.drop_last()));
            },
        }
    }
}

impl StreamTotals {
    /// Nothing gathered yet.
    pub fn new() -> (t: StreamTotals)
        ensures
            totals_view(t) == (Seq::<char>::empty(), 0u64, 0u64, 0u64),
    {
        StreamTotals { full_text: String::new(), input_tokens: 0, cached_input_tokens: 0, output_tokens: 0 }
    }

    /// Take in one event; returns the text to pass on to the reader, if the
    /// event is text.
    pub fn apply(&mut self, e: StreamEvent) -> (forward: Option<String>)
        ensures
            totals_view(*final(self)) == apply_spec(totals_view(*old(self)), e),
            forward == (match e {
                StreamEvent::Text(s) => Some(s),
                _ => None,
            }),
    {
        match e {
            StreamEvent::Text(t) => {
                self.full_text.append(t.as_str());
                Some(t)
            },
            StreamEvent::Usage { input_tokens, cached_input_tokens, output_tokens } => {
                if input_tokens > 0 {
                    self.input_tokens = input_tokens;
                }
                if cached_input_tokens > 0 {
                    self.cached_input_tokens = cached_input_tokens;
                }
                if output_tokens > 0 {
                    self.output_tokens = output_tokens;
                }
                None
            },
            StreamEvent::Done => None,
        }
    }
}

/// How events are read: a text delta is text; a `message_start` and a
/// `message_delta` carrying the same usage counts give the same usage event,
/// with cache writes added to the input count, cache reads as the cached
/// count and the output count as it is; a stop is the end; other events, and
/// data not of their kind's shape, are ignored.
pub proof fn lemma_stream_event_reading(kind: EventKind, t: String, u: UsageCounts)
    requires
        u.input_tokens + u.cache_creation_input_tokens <= u64::MAX,
    ensures
        stream_event_spec(EventKind::ContentBlockDelta, EventData::TextDelta(t)) == Some(
            StreamEvent::Text(t),
        ),
        stream_event_spec(EventKind::MessageDelta, EventData::Usage(u)) == Some(
            StreamEvent::Usage {
                input_tokens: (u.input_tokens + u.cache_creation_input_tokens) as u64,
                cached_input_tokens: u.cache_read_input_tokens,
                output_tokens: u.output_tokens,
            },
        ),
        stream_event_spec(EventKind::MessageStart, EventData::Usage(u)) == stream_event_spec(
            EventKind::MessageDelta,
            EventData::Usage(u),
        ),
        stream_event_spec(EventKind::MessageStop, EventData::Malformed) == Some(StreamEvent::Done),
        stream_event_spec(EventKind::Other, EventData::Usage(u)) is None,
        stream_event_spec(EventKind::ContentBlockDelta, EventData::OtherDelta) is None,
        stream_event_spec(EventKind::MessageStart, EventData::NoUsage) is None,
        stream_event_spec(EventKind::MessageDelta, EventData::Malformed) is None,
        stream_event_spec(kind, EventData::TextDelta(t)) == Some(StreamEvent::Text(t))
            <==> kind is ContentBlockDelta,
{
}

/// The input count of an event: a usage event's, zero for any other.
pub open spec fn input_of(e: StreamEvent) -> u64 {
    match e {
        StreamEvent::Usage { input_tokens, .. } => input_tokens,
        _ => 0,
    }
}

/// The cached-input count of an event: a usage event's, zero for any other.
pub open spec fn cached_of(e: StreamEvent) -> u64 {
    match e {
        StreamEvent::Usage { cached_input_tokens, .. } => cached_input_tokens,
        _ => 0,
    }
}

/// The output count of an event: a usage event's, zero for any other.
pub open spec fn output_of(e: StreamEvent) -> u64 {
    match e {
        StreamEvent::Usage { output_tokens, .. } => output_tokens,
        _ => 0,
    }
}

/// Each total is the last non-zero count reported: after a run of events,
/// when event `i` reports a non-zero input (cached-input, output) count and
/// no later event does, the total is that count; when no event does, the
/// total is zero. Counts replace one another; they are never added.
pub proof fn lemma_totals_are_last_counts(events: Seq<StreamEvent>, i: int)
    ensures
        0 <= i < events.len() && input_of(events[i]) > 0 && (forall|j: int|
            i < j < events.len() ==> input_of(#[trigger] events[j]) == 0) ==> totals_after(events).1
            == input_of(events[i]),
        0 <= i < events.len() && cached_of(events[i]) > 0 && (forall|j: int|
            i < j < events.len() ==> cached_of(#[trigger] events[j]) == 0) ==> totals_after(events).2
            == cached_of(events[i]),
        0 <= i < events.len() && output_of(events[i]) > 0 && (forall|j: int|
            i < j < events.len() ==> output_of(#[trigger] events[j]) == 0) ==> totals_after(events).3
            == output_of(events[i]),
        (forall|j: int| 0 <= j < events.len() ==> input_of(#[trigger] events[j]) == 0)
            ==> totals_after(events).1 == 0,
        (forall|j: int| 0 <= j < events.len() ==> cached_of(#[trigger] events[j]) == 0)
            ==> totals_after(events).2 == 0,
        (forall|j: int| 0 <= j < events.len() ==> output_of(#[trigger] events[j]) == 0)
            ==> totals_after(events).3 == 0,
    decreases events.len(),
{
    if events.len() > 0 {
        let p = events.drop_last();
        lemma_totals_are_last_counts(p, i);
        assert forall|j: int| 0 <= j < p.len() implies p[j] == events[j] by {}
        let last = events.last();
        assert(last == events[events.len() - 1]);
    }
}

} // verus!
