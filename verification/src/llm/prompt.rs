//! The messages of an analysis request: earlier turns, then the new user
//! turn with the retrieved passages, the chart image and the question.

use vstd::prelude::*;
use crate::chunker::strings_view;
use crate::error::owned;

verus! {

/// The system prompt of every analysis.
pub const SYSTEM_PROMPT: &'static str = r#"You are CogniTrade, a personal crypto trading analyst. The user will share a chart screenshot. Your job:

1. Read the chart: identify symbol, timeframe, current price, key indicators, recent pattern.
2. Use the retrieved knowledge passages below as supporting context. Cite by document name (and page if PDF).
3. Output a brief plain-English explanation, then end your response with a fenced ```json block matching this schema:

{
  "action": "buy" | "sell" | "hold",
  "probability_up": <float 0..1>,
  "horizon": "1h" | "4h" | "1d" | "3d" | "1w",
  "stop_loss_pct": <float, e.g. 2.5>,
  "take_profit_pct": <float, e.g. 5.0>,
  "key_signals": [<short strings>],
  "citations": [{"doc": "<filename>", "page": <int or omit>}]
}

Rules:
- If the chart is unreadable or ambiguous, return action: "hold" and ask the user for a clearer image.
- probability_up MUST be in [0, 1].
- Be calibrated: probabilities should reflect realistic uncertainty, not advocacy.
- Cite at least one retrieved passage when you used it; if no retrieval was relevant, say so.
- Never recommend trades you can't justify with what's on the chart and the citations.
- You are an advisor. The user places all trades themselves.
"#;

/// The instruction sent with an image that is indexed for later retrieval.
pub const DESCRIBE_PROMPT: &'static str = "You are indexing this chart image for later retrieval. Output a single dense paragraph (no bullets, no JSON) describing: symbol/timeframe if visible, the pattern type, key indicator readings, conclusion the user might draw. Be specific and factual.";

/// The question sent with a chart screenshot to read its trading symbol.
pub const SYMBOL_PROMPT: &'static str = "What trading symbol is shown? Answer with ONLY the ticker (e.g. BTCUSDT, ETH, SOLUSDT). If unclear, answer UNKNOWN.";

/// The most tokens an analysis may answer with.
pub const ANALYSIS_MAX_TOKENS: u32 = 1500;

/// The most tokens an image description may take.
pub const DESCRIBE_MAX_TOKENS: u32 = 600;

/// The most tokens the answer naming a screenshot's symbol may take.
pub const SYMBOL_MAX_TOKENS: u32 = 40;

/// Where the messages API is served.
pub const API_BASE_URL: &'static str = "https://api.anthropic.com";

/// The API version every request names.
pub const API_VERSION: &'static str = "2023-06-01";

/// Marks a content block for prompt caching.
#[derive(Debug)]
pub struct CacheControl {
    pub kind: String,
}

impl CacheControl {
    /// The short-lived cache marker.
    pub fn ephemeral() -> (c: CacheControl)
        ensures
            c.kind@ == "ephemeral"@,
    {
        CacheControl { kind: owned("ephemeral") }
    }
}

/// An inline image.
#[derive(Debug)]
pub struct ImageSource {
    pub kind: String,
    pub media_type: String,
    pub data: String,
}

/// One block of a message's content.
#[derive(Debug)]
pub struct ContentBlock {
    pub kind: String,
    pub text: Option<String>,
    pub source: Option<ImageSource>,
    pub cache_control: Option<CacheControl>,
}

/// The content of a message: plain text, or a list of blocks.
#[derive(Debug)]
pub enum MessageContent {
    Text(String),
    Blocks(Vec<ContentBlock>),
}

/// One turn of the conversation sent to the model.
#[derive(Debug)]
pub struct ChatMessage {
    pub role: String,
    pub content: MessageContent,
}

/// What a new analysis turn is built from.
pub struct PromptInputs {
    pub retrieved_chunks: Vec<String>,
    pub history: Vec<ChatMessage>,
    pub user_text: String,
    pub image_b64: Option<String>,
}

fn copy_string_opt(o: &Option<String>) -> (r: Option<String>)
    ensures
        r == *o,
{
    match o {
        Some(s) => Some(s.clone()),
        None => None,
    }
}

impl Clone for CacheControl {
    fn clone(&self) -> (r: Self)
        ensures
            r == *self,
    {
        CacheControl { kind: self.kind.clone() }
    }
}

impl Clone for ImageSource {
    fn clone(&self) -> (r: Self)
        ensures
            r == *self,
    {
        ImageSource {
            kind: self.kind.clone(),
            media_type: self.media_type.clone(),
            data: self.data.clone(),
        }
    }
}

impl Clone for ContentBlock {
    fn clone(&self) -> (r: Self)
        ensures
            r == *self,
    {
        let source = match &self.source {
            Some(s) => Some(s.clone()),
            None => None,
        };
        let cache_control = match &self.cache_control {
            Some(c) => Some(c.clone()),
            None => None,
        };
        ContentBlock {
            kind: self.kind.clone(),
            text: copy_string_opt(&self.text),
            source,
            cache_control,
        }
    }
}

/// Two contents hold the same text, or the same blocks in the same order.
pub open spec fn same_content(a: MessageContent, b: MessageContent) -> bool {
    match (a, b) {
        (MessageContent::Text(x), MessageContent::Text(y)) => x == y,
        (MessageContent::Blocks(x), MessageContent::Blocks(y)) => x@ == y@,
        _ => false,
    }
}

/// Two messages have the same role and the same content.
pub open spec fn same_message(a: ChatMessage, b: ChatMessage) -> bool {
    a.role == b.role && same_content(a.content, b.content)
}

impl Clone for MessageContent {
    fn clone(&self) -> (r: Self)
        ensures
            same_content(r, *self),
    {
        match self {
            MessageContent::Text(s) => MessageContent::Text(String::clone(s)),
            MessageContent::Blocks(bs) => {
                let mut out: Vec<ContentBlock> = Vec::new();
                let mut i: usize = 0;
                while i < bs.len()
                    invariant
                        i <= bs@.len(),
                        out@ == bs@.subrange(0, i as int),
                    decreases bs@.len() - i,
                {
                    out.push(bs[i].clone());
                    assert(out@ =~= bs@.subrange(0, i + 1));
                    i = i + 1;
                }
                assert(out@ =~= bs@);
                MessageContent::Blocks(out)
            },
        }
    }
}

impl Clone for ChatMessage {
    fn clone(&self) -> (r: Self)
        ensures
            same_message(r, *self),
    {
        ChatMessage { role: self.role.clone(), content: self.content.clone() }
    }
}

/// `list` joined with `sep` between consecutive items.
pub open spec fn seq_join(list: Seq<Seq<char>>, sep: Seq<char>) -> Seq<char>
    decreases list.len(),
{
    if list.len() == 0 {
        Seq::empty()
    } else if list.len() == 1 {
        list[0]
    } else {
        seq_join(list.drop_last(), sep) + sep + list.last()
    }
}

/// `list` joined with `sep`, as `[String]::join` gives it.
pub fn join_strings(list: &Vec<String>, sep: &str) -> (r: String)
    ensures
        r@ == seq_join(strings_view(list@), sep@),
{
    let mut r = String::new();
    let ghost v = strings_view(list@);
    let mut i: usize = 0;
    while i < list.len()
        invariant
            i <= list@.len(),
            v == strings_view(list@),
            r@ == seq_join(v.take(i as int), sep@),
        decreases list@.len() - i,
    {
        if i > 0 {
            r.append(sep);
        }
        r.append(list[i].as_str());
        assert(v.take(i + 1).drop_last() =~= v.take(i as int));
        i = i + 1;
    }
    assert(v.take(list@.len() as int) =~= v);
    r
}

/// The text of the cached block of retrieved passages.
pub open spec fn retrieved_text(chunks: Seq<Seq<char>>) -> Seq<char> {
    "Retrieved knowledge:\n\n"@ + seq_join(chunks, "\n\n---\n\n"@)
}

/// `b` is a text block with text `text`, marked for caching when `cached`.
pub open spec fn is_text_block(b: ContentBlock, text: Seq<char>, cached: bool) -> bool {
    &&& b.kind@ == "text"@
    &&& b.text matches Some(t) && t@ == text
    &&& b.source is None
    &&& if cached {
        b.cache_control matches Some(c) && c.kind@ == "ephemeral"@
    } else {
        b.cache_control is None
    }
}

/// `b` is an inline base64 PNG image block with data `data`.
pub open spec fn is_image_block(b: ContentBlock, data: Seq<char>) -> bool {
    &&& b.kind@ == "image"@
    &&& b.text is None
    &&& b.source matches Some(src) && src.kind@ == "base64"@ && src.media_type@ == "image/png"@
        && src.data@ == data
    &&& b.cache_control is None
}

/// The blocks of the new user turn: the retrieved passages (cached) when
/// there are any, then the image when there is one, then the question.
pub open spec fn is_user_turn_blocks(
    bs: Seq<ContentBlock>,
    chunks: Seq<Seq<char>>,
    image: Option<Seq<char>>,
    user_text: Seq<char>,
) -> bool {
    let nc: int = if chunks.len() > 0 { 1 } else { 0 };
    let ni: int = if image is Some { 1 } else { 0 };
    &&& bs.len() == nc + ni + 1
    &&& chunks.len() > 0 ==> is_text_block(bs[0], retrieved_text(chunks), true)
    &&& image matches Some(d) ==> is_image_block(bs[nc], d)
    &&& is_text_block(bs[nc + ni], user_text, false)
}

/// The view of an optional string.
pub open spec fn opt_string_view(o: Option<String>) -> Option<Seq<char>> {
    match o {
        Some(s) => Some(s@),
        None => None,
    }
}

fn text_block(text: String, cached: bool) -> (b: ContentBlock)
    ensures
        is_text_block(b, text@, cached),
{
    ContentBlock {
        kind: owned("text"),
        text: Some(text),
        source: None,
        cache_control: if cached {
            Some(CacheControl::ephemeral())
        } else {
            None
        },
    }
}

/// The messages of an analysis request: the earlier turns unchanged, then
/// one new user turn.
pub fn build_messages(inputs: &PromptInputs) -> (out: Vec<ChatMessage>)
    ensures
        out@.len() == inputs.history@.len() + 1,
        forall|i: int|
            0 <= i < inputs.history@.len() ==> same_message(#[trigger] out@[i], inputs.history@[i]),
        out@.last().role@ == "user"@,
        out@.last().content matches MessageContent::Blocks(bs) && is_user_turn_blocks(
            bs@,
            strings_view(inputs.retrieved_chunks@),
            opt_string_view(inputs.image_b64),
            inputs.user_text@,
        ),
{
    let mut out: Vec<ChatMessage> = Vec::new();
    let mut i: usize = 0;
    while i < inputs.history.len()
        invariant
            i <= inputs.history@.len(),
            out@.len() == i,
            forall|j: int| 0 <= j < i ==> same_message(#[trigger] out@[j], inputs.history@[j]),
        decreases inputs.history@.len() - i,
    {
        out.push(inputs.history[i].clone());
        i = i + 1;
    }
    let mut blocks: Vec<ContentBlock> = Vec::new();
    if inputs.retrieved_chunks.len() > 0 {
        let mut joined = owned("Retrieved knowledge:\n\n");
        let body = join_strings(&inputs.retrieved_chunks, "\n\n---\n\n");
        joined.append(body.as_str());
        blocks.push(text_block(joined, true));
    }
    match &inputs.image_b64 {
        Some(b64) => {
            blocks.push(
                ContentBlock {
                    kind: owned("image"),
                    text: None,
                    source: Some(
                        ImageSource {
                            kind: owned("base64"),
                            media_type: owned("image/png"),
                            data: b64.clone(),
                        },
                    ),
                    cache_control: None,
                },
            );
        },
        None => {},
    }
    blocks.push(text_block(inputs.user_text.clone(), false));
    out.push(ChatMessage { role: owned("user"), content: MessageContent::Blocks(blocks) });
    out
}

} // verus!
