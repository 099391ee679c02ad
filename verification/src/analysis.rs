//! The decisions of an analysis request: what is recorded, which earlier
//! turns are replayed, which symbol is analysed and what is retrieved for it.

use vstd::prelude::*;
use base64::Engine;
use vstd::string::StringSliceAdditionalSpecFns;
use crate::chunker::{collapse_whitespace, collapse_whitespace_chars, strings_view};
use crate::error::{concat, owned, AppError};
use crate::ingest::present_texts;
use crate::llm::prompt::{join_strings, opt_string_view, seq_join, ChatMessage, MessageContent};
use crate::text::{
    find_from, first_match_from, lemma_first_match_bounds, range_eq_str, str_to_chars,
    str_to_uppercase, string_from_chars, to_uppercase, trim_ws, trimmed_range,
};

verus! {

/// A stored chat message.
#[derive(Debug, Clone, PartialEq)]
pub struct Message {
    pub id: i64,
    pub ts: i64,
    pub role: String,
    pub content: String,
    pub image_path: Option<String>,
    pub prediction_id: Option<i64>,
}

/// A chat message to be stored.
#[derive(Debug, Clone)]
pub struct NewMessage {
    pub role: String,
    pub content: String,
    pub image_path: Option<String>,
    pub prediction_id: Option<i64>,
}

/// An analysis request from the user.
#[derive(Debug, Clone)]
pub struct AnalyzeReq {
    pub user_text: String,
    pub screenshot_path: Option<String>,
    pub symbol_hint: Option<String>,
}

/// The reply to an analysis request: the id of the stored answer.
#[derive(Debug, Clone, Copy, PartialEq, Eq)]
pub struct AnalyzeAck {
    pub message_id: i64,
}

/// The record of the user's turn: their text and screenshot, no prediction.
pub fn user_message(req: &AnalyzeReq) -> (m: NewMessage)
    ensures
        m.role@ == "user"@,
        m.content == req.user_text,
        m.image_path == req.screenshot_path,
        m.prediction_id is None,
{
    NewMessage {
        role: owned("user"),
        content: req.user_text.clone(),
        image_path: match &req.screenshot_path {
            Some(p) => Some(p.clone()),
            None => None,
        },
        prediction_id: None,
    }
}

/// The record of the advisor's answer, linked to its prediction if one was
/// made.
pub fn assistant_message(full_text: String, prediction_id: Option<i64>) -> (m: NewMessage)
    ensures
        m.role@ == "assistant"@,
        m.content == full_text,
        m.image_path is None,
        m.prediction_id == prediction_id,
{
    NewMessage { role: owned("assistant"), content: full_text, image_path: None, prediction_id }
}

/// The messages other than the one with id `exclude`, in order.
pub open spec fn kept_messages(msgs: Seq<Message>, exclude: i64) -> Seq<Message>
    decreases msgs.len(),
{
    if msgs.len() == 0 {
        Seq::empty()
    } else {
        kept_messages(msgs.drop_last(), exclude) + if msgs.last().id != exclude {
            seq![msgs.last()]
        } else {
            Seq::empty()
        }
    }
}

/// The earlier turns to replay: every recent message but the one just
/// stored, as plain-text turns with their roles.
pub fn history_from_messages(msgs: &Vec<Message>, exclude: i64) -> (h: Vec<ChatMessage>)
    ensures
        h@.len() == kept_messages(msgs@, exclude).len(),
        forall|i: int|
            0 <= i < h@.len() ==> (#[trigger] h@[i]).role == kept_messages(msgs@, exclude)[i].role
                && h@[i].content == MessageContent::Text(kept_messages(msgs@, exclude)[i].content),
{
    let ghost all = msgs@;
    let mut h: Vec<ChatMessage> = Vec::new();
    let mut i: usize = 0;
    let n = msgs.len();
    while i < n
        invariant
            n == all.len(),
            all == msgs@,
            i <= n,
            h@.len() == kept_messages(all.take(i as int), exclude).len(),
            forall|j: int|
                0 <= j < h@.len() ==> (#[trigger] h@[j]).role == kept_messages(
                    all.take(i as int),
                    exclude,
                )[j].role && h@[j].content == MessageContent::Text(
                    kept_messages(all.take(i as int), exclude)[j].content,
                ),
        decreases n - i,
    {
        let m = &msgs[i];
        assert(all.take(i + 1).drop_last() =~= all.take(i as int));
        assert(all.take(i + 1).last() == *m);
        let ghost before = kept_messages(all.take(i as int), exclude);
        if m.id != exclude {
            h.push(ChatMessage { role: m.role.clone(), content: MessageContent::Text(m.content.clone()) });
            assert(kept_messages(all.take(i + 1), exclude) =~= before + seq![*m]);
        } else {
            assert(kept_messages(all.take(i + 1), exclude) =~= before);
        }
        i = i + 1;
    }
    assert(all.take(n as int) =~= all);
    h
}

/// How many of the most recent stored messages an analysis looks back on.
pub const HISTORY_LIMIT: i64 = 10;

/// How many retrieved passages an analysis is given.
pub const RETRIEVAL_K: usize = 6;

/// How long chat messages are kept, in seconds (a week).
pub const MESSAGE_MAX_AGE_SECS: i64 = 604800;

/// The symbol analysed when none can be told.
pub const DEFAULT_SYMBOL: &'static str = "BTCUSDT";

/// Where the symbol of an analysis comes from.
#[derive(Debug, Clone, PartialEq, Eq)]
pub enum SymbolSource {
    /// The user's hint, trimmed and uppercased.
    Hint(String),
    /// Ask the model to read it off the screenshot.
    FromImage,
    /// Fall back to the default symbol.
    Default,
}

/// A non-blank hint wins; otherwise a screenshot is read; otherwise the
/// default symbol is used.
pub fn plan_symbol(hint: Option<String>, has_image: bool) -> (s: SymbolSource)
    ensures
        match opt_string_view(hint) {
            Some(h) if trim_ws(h).len() > 0 => s matches SymbolSource::Hint(u) && u@
                == str_to_uppercase(trim_ws(h)),
            _ => if has_image {
                s is FromImage
            } else {
                s is Default
            },
        },
{
    match hint {
        Some(h) => {
            let chars = str_to_chars(h.as_str());
            proof {
                assert(chars@.subrange(0, chars@.len() as int) =~= h@);
            }
            let t = trimmed_range(chars.as_slice(), 0, chars.len());
            if !t.as_str().is_empty() {
                return SymbolSource::Hint(to_uppercase(t.as_str()));
            }
        },
        None => {},
    }
    if has_image {
        SymbolSource::FromImage
    } else {
        SymbolSource::Default
    }
}

/// The symbol read off a screenshot, or the default one when reading failed.
pub fn symbol_or_default(extracted: Result<String, AppError>) -> (s: String)
    ensures
        match extracted {
            Ok(x) => s == x,
            Err(_) => s@ == DEFAULT_SYMBOL@,
        },
{
    match extracted {
        Ok(x) => x,
        Err(_) => owned(DEFAULT_SYMBOL),
    }
}

/// The first word of `s`: its first maximal run of non-whitespace.
pub open spec fn first_word(s: Seq<char>) -> Seq<char> {
    let c = collapse_whitespace(s);
    match first_match_from(c, seq![' '], 0) {
        Some(k) => c.subrange(0, k),
        None => c,
    }
}

/// The ticker in the model's answer to "what symbol is shown": the first
/// word of its text blocks joined by spaces, uppercased. An empty answer or
/// `UNKNOWN` is refused as `Invalid("could not extract symbol")`.
pub fn symbol_from_reply(blocks: &Vec<Option<String>>) -> (r: Result<String, AppError>)
    ensures
        ({
            let w = str_to_uppercase(first_word(seq_join(present_texts(blocks@), " "@)));
            &&& (w.len() == 0 || w == "UNKNOWN"@) ==> (r matches Err(AppError::Invalid(m)) && m@
                == "could not extract symbol"@)
            &&& !(w.len() == 0 || w == "UNKNOWN"@) ==> (r matches Ok(s) && s@ == w)
        }),
{
    let texts = crate::ingest::texts_of(blocks);
    let joined = join_strings(&texts, " ");
    let c = collapse_whitespace_chars(joined.as_str());
    let space = vec![' '];
    let end = match find_from(c.as_slice(), space.as_slice(), 0) {
        Some(k) => {
            proof {
                lemma_first_match_bounds(c@, seq![' '], 0);
                assert(space@ =~= seq![' ']);
            }
            k
        },
        None => {
            proof {
                assert(space@ =~= seq![' ']);
            }
            c.len()
        },
    };
    proof {
        assert(space@ =~= seq![' ']);
        assert(c@.subrange(0, c@.len() as int) =~= c@);
    }
    let word = string_from_chars(c.as_slice(), 0, end);
    let token = to_uppercase(word.as_str());
    let tc = str_to_chars(token.as_str());
    let n = tc.len();
    proof {
        assert(tc@.subrange(0, n as int) =~= tc@);
    }
    if n == 0 || range_eq_str(tc.as_slice(), 0, n, "UNKNOWN") {
        Err(AppError::Invalid(owned("could not extract symbol")))
    } else {
        Ok(token)
    }
}

/// The retrieval query for a symbol.
pub fn retrieval_query(symbol: &str) -> (q: String)
    ensures
        q@ == symbol@ + " chart pattern analysis"@,
{
    concat(symbol, " chart pattern analysis")
}

/// The file name of a saved screenshot: the hint (or else the id), a dash,
/// the id, `.png`.
pub fn screenshot_file_name(hint: Option<String>, id: &str) -> (name: String)
    ensures
        name@ == match opt_string_view(hint) {
            Some(h) => h,
            None => id@,
        } + "-"@ + id@ + ".png"@,
{
    let mut name = match hint {
        Some(h) => h,
        None => owned(id),
    };
    name.append("-");
    name.append(id);
    name.append(".png");
    name
}

/// What standard, padded base64 decoding gives for `input`, if it is valid.
pub uninterp spec fn base64_decoded(input: Seq<u8>) -> Option<Seq<u8>>;

/// The character of the standard base64 alphabet (`A`-`Z`, `a`-`z`, `0`-`9`,
/// `+`, `/`) for a six-bit value `n`.
pub open spec fn b64_char(n: int) -> char {
    if n < 26 {
        (65 + n) as char
    } else if n < 52 {
        (71 + n) as char
    } else if n < 62 {
        (n - 4) as char
    } else if n == 62 {
        '+'
    } else {
        '/'
    }
}

/// Standard base64 with `=` padding: each group of three bytes becomes four
/// characters of six bits each, high bits first; a last group of one or two
/// bytes becomes two or three characters, padded with `=` to four.
pub open spec fn base64_encoded(d: Seq<u8>) -> Seq<char>
    decreases d.len(),
{
    if d.len() == 0 {
        Seq::empty()
    } else if d.len() == 1 {
        seq![b64_char(d[0] as int / 4), b64_char((d[0] as int % 4) * 16), '=', '=']
    } else if d.len() == 2 {
        seq![
            b64_char(d[0] as int / 4),
            b64_char((d[0] as int % 4) * 16 + d[1] as int / 16),
            b64_char((d[1] as int % 16) * 4),
            '=',
        ]
    } else {
        seq![
            b64_char(d[0] as int / 4),
            b64_char((d[0] as int % 4) * 16 + d[1] as int / 16),
            b64_char((d[1] as int % 16) * 4 + d[2] as int / 64),
            b64_char(d[2] as int % 64),
        ] + base64_encoded(d.subrange(3, d.len() as int))
    }
}

/// `STANDARD.decode` of the `base64` crate. Its result is named; on failure
/// the error's text is handed back and nothing is stated of it.
#[verifier::external_body]
fn base64_decode(input: &[u8]) -> (r: Result<Vec<u8>, String>)
    ensures
        match base64_decoded(input@) {
            Some(d) => r matches Ok(v) && v@ == d,
            None => r is Err,
        },
{
    base64::engine::general_purpose::STANDARD.decode(input).map_err(|e| e.to_string())
}

/// `STANDARD.encode` of the `base64` crate: the standard alphabet with `=`
/// padding, as `base64_encoded` spells out. It panics when the encoded length
/// overflows `usize`; the requirement rules that out.
#[verifier::external_body]
fn base64_encode(data: &[u8]) -> (s: String)
    requires
        data@.len() * 4 / 3 + 4 <= usize::MAX,
    ensures
        s@ == base64_encoded(data@),
{
    base64::engine::general_purpose::STANDARD.encode(data)
}

/// The bytes of a screenshot sent as base64 text; text that is not valid
/// base64 is refused as `Invalid("base64: ...")`.
pub fn decode_screenshot(base64_png: &str) -> (r: Result<Vec<u8>, AppError>)
    ensures
        match base64_decoded(base64_png.spec_bytes()) {
            Some(d) => r matches Ok(v) && v@ == d,
            None => r matches Err(AppError::Invalid(m)) && m@.len() >= 8 && m@.subrange(0, 8)
                == "base64: "@,
        },
{
    match base64_decode(base64_png.as_bytes()) {
        Ok(v) => Ok(v),
        Err(e) => {
            let m = concat("base64: ", e.as_str());
            proof {
                reveal_strlit("base64: ");
                assert(m@.subrange(0, 8) =~= "base64: "@);
            }
            Err(AppError::Invalid(m))
        },
    }
}

/// A screenshot's bytes as base64 text, to send with a request.
pub fn encode_image(bytes: &[u8]) -> (s: String)
    requires
        bytes@.len() * 4 / 3 + 4 <= usize::MAX,
    ensures
        s@ == base64_encoded(bytes@),
{
    base64_encode(bytes)
}

} // verus!
