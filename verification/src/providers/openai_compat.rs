//! The OpenAI-compatible chat-completions provider: how the conversation is put
//! on the wire, and how streamed chunks become `StreamEvent`s.
use vstd::prelude::*;

use crate::message::{is_media, ContentBlock, ImageData, Message, Role};
use crate::repl::{law_reply_concat, law_reply_step, reply_of};
use crate::stream::{StopReason, StreamEvent};
use crate::text::{
    chars_of, lemma_trim_end_char_idempotent, str_eq, string_from_range, trim_end_char,
    trimmed_end_len,
};

verus! {

// ---------------------------------------------------------------------------
// Wire types (request side)
// ---------------------------------------------------------------------------

/// `{"url": ...}` of an `image_url` part.
pub struct OaiImageUrl {
    pub url: String,
}

/// `{"filename": ..., "file_data": ...}` of a `file` part.
pub struct OaiFile {
    pub filename: String,
    pub file_data: String,
}

/// `{"data": ..., "format": ...}` of an `input_audio` part.
pub struct OaiAudio {
    pub data: String,
    pub format: String,
}

/// One element of a content-parts array.
pub enum OaiPart {
    Text { text: String },
    ImageUrl { image_url: OaiImageUrl },
    File { file: OaiFile },
    InputAudio { input_audio: OaiAudio },
}

/// The `content` of a wire message: a bare string, or an array of parts.
pub enum OaiContent {
    Text(String),
    Parts(Vec<OaiPart>),
}

/// One message of a chat-completions request.
pub struct OaiMessage {
    pub role: &'static str,
    pub content: OaiContent,
}

/// The abstract value of an `OaiPart`: its strings as character sequences.
pub enum PartView {
    Text(Seq<char>),
    /// The image URL.
    ImageUrl(Seq<char>),
    /// File name, then file data.
    File(Seq<char>, Seq<char>),
    /// Audio data, then format.
    InputAudio(Seq<char>, Seq<char>),
}

/// The abstract value of an `OaiContent`.
pub enum ContentView {
    Text(Seq<char>),
    Parts(Seq<PartView>),
}

impl View for OaiPart {
    type V = PartView;

    open spec fn view(&self) -> PartView {
        match self {
            OaiPart::Text { text } => PartView::Text(text@),
            OaiPart::ImageUrl { image_url } => PartView::ImageUrl(image_url.url@),
            OaiPart::File { file } => PartView::File(file.filename@, file.file_data@),
            OaiPart::InputAudio { input_audio } => PartView::InputAudio(
                input_audio.data@,
                input_audio.format@,
            ),
        }
    }
}

impl View for OaiContent {
    type V = ContentView;

    open spec fn view(&self) -> ContentView {
        match self {
            OaiContent::Text(s) => ContentView::Text(s@),
            OaiContent::Parts(ps) => ContentView::Parts(ps@.map_values(|p: OaiPart| p@)),
        }
    }
}

// ---------------------------------------------------------------------------
// Specifications of the conversions
// ---------------------------------------------------------------------------

/// The wire name of a role.
pub open spec fn role_name(r: Role) -> Seq<char> {
    match r {
        Role::System => "system"@,
        Role::User => "user"@,
        Role::Assistant => "assistant"@,
        Role::Tool => "tool"@,
    }
}

/// The concatenation, in order, of the text of every `Text` block.
pub open spec fn text_of(blocks: Seq<ContentBlock>) -> Seq<char>
    decreases blocks.len(),
{
    if blocks.len() == 0 {
        Seq::empty()
    } else {
        text_of(blocks.drop_last()) + match blocks.last() {
            ContentBlock::Text { text } => text@,
            _ => Seq::empty(),
        }
    }
}

/// The URL under which image or file data is sent: a URL as it is, inline data as
/// `data:<media_type>;base64,<data>`.
pub open spec fn data_url_of(media_type: Seq<char>, data: ImageData) -> Seq<char> {
    match data {
        ImageData::Url(u) => u@,
        ImageData::Base64(b) => "data:"@ + media_type + ";base64,"@ + b@,
    }
}

/// The content part a block becomes; tool traffic becomes none.
pub open spec fn part_of(b: ContentBlock) -> Option<PartView> {
    match b {
        ContentBlock::Text { text } => Some(PartView::Text(text@)),
        ContentBlock::Image { media_type, data } => Some(
            PartView::ImageUrl(data_url_of(media_type@, data)),
        ),
        ContentBlock::File { name, media_type, data } => Some(
            PartView::File(name@, data_url_of(media_type@, data)),
        ),
        ContentBlock::Audio { format, data } => Some(PartView::InputAudio(data@, format@)),
        _ => None,
    }
}

/// The parts of a block list, in order, skipping blocks that have none.
pub open spec fn parts_of(blocks: Seq<ContentBlock>) -> Seq<PartView>
    decreases blocks.len(),
{
    if blocks.len() == 0 {
        Seq::empty()
    } else {
        parts_of(blocks.drop_last()) + match part_of(blocks.last()) {
            Some(p) => seq![p],
            None => Seq::empty(),
        }
    }
}

/// Some block carries media.
pub open spec fn has_media(blocks: Seq<ContentBlock>) -> bool {
    exists|i: int| 0 <= i < blocks.len() && is_media(#[trigger] blocks[i])
}

/// The wire content of a message: a bare string when it has no media, else parts.
pub open spec fn content_of(blocks: Seq<ContentBlock>) -> ContentView {
    if has_media(blocks) {
        ContentView::Parts(parts_of(blocks))
    } else {
        ContentView::Text(text_of(blocks))
    }
}

// ---------------------------------------------------------------------------
// Conversions
// ---------------------------------------------------------------------------

/// The wire name of a role.
pub fn role_str(role: Role) -> (res: &'static str)
    ensures
        res@ == role_name(role),
{
    match role {
        Role::System => "system",
        Role::User => "user",
        Role::Assistant => "assistant",
        Role::Tool => "tool",
    }
}

/// All text of a message, concatenated in order; non-text blocks contribute nothing.
pub fn text_content(msg: &Message) -> (res: String)
    ensures
        res@ == text_of(msg.content@),
{
    let mut out = String::new();
    let n = msg.content.len();
    let mut i: usize = 0;
    while i < n
        invariant
            n == msg.content@.len(),
            i <= n,
            out@ == text_of(msg.content@.take(i as int)),
        decreases n - i,
    {
        let ghost before = out@;
        match &msg.content[i] {
            ContentBlock::Text { text } => {
                out.append(text.as_str());
            },
            _ => {},
        }
        assert(msg.content@.take(i + 1).drop_last() =~= msg.content@.take(i as int));
        i += 1;
    }
    assert(msg.content@.take(n as int) =~= msg.content@);
    out
}

/// The URL under which image or file data is sent.
pub fn data_url(media_type: &str, data: &ImageData) -> (res: String)
    ensures
        res@ == data_url_of(media_type@, *data),
{
    match data {
        ImageData::Url(u) => u.clone(),
        ImageData::Base64(b) => {
            let mut s = "data:".to_owned();
            s.append(media_type);
            s.append(";base64,");
            s.append(b.as_str());
            s
        },
    }
}

/// Whether any block of the message carries media.
fn message_has_media(msg: &Message) -> (res: bool)
    ensures
        res == has_media(msg.content@),
{
    let n = msg.content.len();
    let mut i: usize = 0;
    while i < n
        invariant
            n == msg.content@.len(),
            i <= n,
            forall|j: int| 0 <= j < i ==> !is_media(#[trigger] msg.content@[j]),
        decreases n - i,
    {
        match &msg.content[i] {
            ContentBlock::Image { .. } | ContentBlock::File { .. } | ContentBlock::Audio { .. } => {
                assert(is_media(msg.content@[i as int]));
                return true;
            },
            _ => {},
        }
        i += 1;
    }
    false
}

/// The part a single block becomes, if any.
fn block_part(b: &ContentBlock) -> (res: Option<OaiPart>)
    ensures
        match res {
            Some(p) => part_of(*b) == Some(p@),
            None => part_of(*b) is None,
        },
{
    match b {
        ContentBlock::Text { text } => Some(OaiPart::Text { text: text.clone() }),
        ContentBlock::Image { media_type, data } => Some(
            OaiPart::ImageUrl { image_url: OaiImageUrl { url: data_url(media_type.as_str(), data) } },
        ),
        ContentBlock::File { name, media_type, data } => Some(
            OaiPart::File {
                file: OaiFile {
                    filename: name.clone(),
                    file_data: data_url(media_type.as_str(), data),
                },
            },
        ),
        ContentBlock::Audio { format, data } => Some(
            OaiPart::InputAudio {
                input_audio: OaiAudio { data: data.clone(), format: format.clone() },
            },
        ),
        _ => None,
    }
}

/// The wire `content` of a message. A message without images, files or audio is
/// sent as a bare string of its text; otherwise as a content-parts array.
pub fn oai_content(msg: &Message) -> (res: OaiContent)
    ensures
        res@ == content_of(msg.content@),
{
    if !message_has_media(msg) {
        return OaiContent::Text(text_content(msg));
    }
    let mut parts: Vec<OaiPart> = Vec::new();
    let n = msg.content.len();
    let mut i: usize = 0;
    while i < n
        invariant
            n == msg.content@.len(),
            i <= n,
            parts@.map_values(|p: OaiPart| p@) == parts_of(msg.content@.take(i as int)),
        decreases n - i,
    {
        let ghost before = parts@;
        match block_part(&msg.content[i]) {
            Some(p) => {
                parts.push(p);
                assert(parts@.map_values(|p: OaiPart| p@) =~= before.map_values(
                    |p: OaiPart| p@,
                ).push(p@));
            },
            None => {},
        }
        assert(msg.content@.take(i + 1).drop_last() =~= msg.content@.take(i as int));
        assert(msg.content@.take(i + 1).last() == msg.content@[i as int]);
        i += 1;
    }
    assert(msg.content@.take(n as int) =~= msg.content@);
    OaiContent::Parts(parts)
}

impl View for OaiMessage {
    type V = (Seq<char>, ContentView);

    open spec fn view(&self) -> (Seq<char>, ContentView) {
        (self.role@, self.content@)
    }
}

/// The wire messages of a request: the system prompt first, when there is one,
/// then every message of the history in order.
pub open spec fn wire_messages(system: Option<String>, messages: Seq<Message>) -> Seq<
    (Seq<char>, ContentView),
> {
    let head: Seq<(Seq<char>, ContentView)> = match system {
        Some(s) => seq![("system"@, ContentView::Text(s@))],
        None => Seq::empty(),
    };
    head + messages.map_values(|m: Message| (role_name(m.role), content_of(m.content@)))
}

/// The messages of a chat-completions request for `messages` under `system`.
pub fn chat_messages(system: &Option<String>, messages: &Vec<Message>) -> (res: Vec<OaiMessage>)
    ensures
        res@.map_values(|m: OaiMessage| m@) == wire_messages(*system, messages@),
{
    let mut out: Vec<OaiMessage> = Vec::new();
    match system {
        Some(sys) => {
            out.push(OaiMessage { role: "system", content: OaiContent::Text(sys.clone()) });
        },
        None => {},
    }
    let ghost head = out@.map_values(|m: OaiMessage| m@);
    let n = messages.len();
    let mut i: usize = 0;
    while i < n
        invariant
            n == messages@.len(),
            i <= n,
            head == match *system {
                Some(s) => seq![("system"@, ContentView::Text(s@))],
                None => Seq::<(Seq<char>, ContentView)>::empty(),
            },
            out@.map_values(|m: OaiMessage| m@) == head + messages@.take(i as int).map_values(
                |m: Message| (role_name(m.role), content_of(m.content@)),
            ),
        decreases n - i,
    {
        let ghost before = out@;
        let msg = &messages[i];
        out.push(OaiMessage { role: role_str(msg.role), content: oai_content(msg) });
        assert(out@.map_values(|m: OaiMessage| m@) =~= before.map_values(|m: OaiMessage| m@).push(
            out@[i + head.len()]@,
        ));
        assert(messages@.take(i + 1).map_values(
            |m: Message| (role_name(m.role), content_of(m.content@)),
        ) =~= messages@.take(i as int).map_values(
            |m: Message| (role_name(m.role), content_of(m.content@)),
        ).push((role_name(msg.role), content_of(msg.content@))));
        i += 1;
    }
    assert(messages@.take(n as int) =~= messages@);
    out
}

// ---------------------------------------------------------------------------
// Wire types (response side) and their translation into events
// ---------------------------------------------------------------------------

/// The `delta` of a streamed choice.
pub struct Delta {
    pub content: Option<String>,
}

/// One streamed choice.
pub struct ChunkChoice {
    pub delta: Delta,
    pub finish_reason: Option<String>,
}

/// Token counts reported with a chunk.
pub struct UsageData {
    pub prompt_tokens: u32,
    pub completion_tokens: u32,
}

/// One `data:` payload of the event stream.
pub struct ChatChunk {
    pub choices: Vec<ChunkChoice>,
    pub usage: Option<UsageData>,
}

/// The stop reason a `finish_reason` names.
pub open spec fn stop_reason_of(reason: String) -> StopReason {
    if reason@ == "stop"@ {
        StopReason::EndTurn
    } else if reason@ == "tool_calls"@ {
        StopReason::ToolUse
    } else if reason@ == "length"@ {
        StopReason::MaxTokens
    } else {
        StopReason::Other(reason)
    }
}

/// The events of one choice: its text when non-empty, then the end of the
/// message when it carries a finish reason.
pub open spec fn choice_events(c: ChunkChoice) -> Seq<StreamEvent> {
    let text: Seq<StreamEvent> = match c.delta.content {
        Some(t) => if t@.len() > 0 {
            seq![StreamEvent::TextDelta(t)]
        } else {
            Seq::empty()
        },
        None => Seq::empty(),
    };
    let end: Seq<StreamEvent> = match c.finish_reason {
        Some(r) => seq![StreamEvent::MessageEnd { stop_reason: stop_reason_of(r) }],
        None => Seq::empty(),
    };
    text + end
}

/// The events of a list of choices, in order.
pub open spec fn choices_events(cs: Seq<ChunkChoice>) -> Seq<StreamEvent>
    decreases cs.len(),
{
    if cs.len() == 0 {
        Seq::empty()
    } else {
        choices_events(cs.drop_last()) + choice_events(cs.last())
    }
}

/// The events of a chunk: those of its choices, then its usage when present.
pub open spec fn chunk_events_of(chunk: ChatChunk) -> Seq<StreamEvent> {
    choices_events(chunk.choices@) + match chunk.usage {
        Some(u) => seq![
            StreamEvent::Usage { input_tokens: u.prompt_tokens, output_tokens: u.completion_tokens },
        ],
        None => Seq::empty(),
    }
}

/// The stop reason for a `finish_reason`: `stop`, `tool_calls` and `length` are
/// known; anything else is kept as `Other`.
pub fn stop_reason_for(reason: &String) -> (res: StopReason)
    ensures
        res == stop_reason_of(*reason),
{
    if str_eq(reason.as_str(), "stop") {
        StopReason::EndTurn
    } else if str_eq(reason.as_str(), "tool_calls") {
        StopReason::ToolUse
    } else if str_eq(reason.as_str(), "length") {
        StopReason::MaxTokens
    } else {
        StopReason::Other(reason.clone())
    }
}

/// The events that one streamed chunk yields, in order.
pub fn chunk_events(chunk: &ChatChunk) -> (res: Vec<StreamEvent>)
    ensures
        res@ == chunk_events_of(*chunk),
{
    let mut out: Vec<StreamEvent> = Vec::new();
    let n = chunk.choices.len();
    let mut i: usize = 0;
    while i < n
        invariant
            n == chunk.choices@.len(),
            i <= n,
            out@ == choices_events(chunk.choices@.take(i as int)),
        decreases n - i,
    {
        let ghost before = out@;
        let choice = &chunk.choices[i];
        match &choice.delta.content {
            Some(text) => {
                if !text.as_str().is_empty() {
                    out.push(StreamEvent::TextDelta(text.clone()));
                }
            },
            None => {},
        }
        match &choice.finish_reason {
            Some(reason) => {
                out.push(StreamEvent::MessageEnd { stop_reason: stop_reason_for(reason) });
            },
            None => {},
        }
        assert(out@ =~= before + choice_events(*choice));
        assert(chunk.choices@.take(i + 1).drop_last() =~= chunk.choices@.take(i as int));
        i += 1;
    }
    assert(chunk.choices@.take(n as int) =~= chunk.choices@);
    match &chunk.usage {
        Some(u) => {
            out.push(
                StreamEvent::Usage { input_tokens: u.prompt_tokens, output_tokens: u.completion_tokens },
            );
        },
        None => {},
    }
    out
}

/// The text of a choice's delta; none when it has no content.
pub open spec fn delta_text(c: ChunkChoice) -> Seq<char> {
    match c.delta.content {
        Some(t) => t@,
        None => Seq::empty(),
    }
}

/// The text a reply gathers from choices taken in order, up to and including the
/// first one that carries a finish reason, and whether such a choice came.
pub open spec fn choices_reply(cs: Seq<ChunkChoice>) -> (Seq<char>, bool)
    decreases cs.len(),
{
    if cs.len() == 0 {
        (Seq::empty(), false)
    } else {
        let p = choices_reply(cs.drop_last());
        if p.1 {
            p
        } else {
            (p.0 + delta_text(cs.last()), cs.last().finish_reason is Some)
        }
    }
}

proof fn lemma_choice_reply(c: ChunkChoice)
    ensures
        reply_of(choice_events(c)) == (delta_text(c), c.finish_reason is Some),
{
    let e = choice_events(c);
    let empty: Seq<StreamEvent> = Seq::empty();
    let t: Seq<StreamEvent> = match c.delta.content {
        Some(x) => if x@.len() > 0 {
            seq![StreamEvent::TextDelta(x)]
        } else {
            Seq::empty()
        },
        None => Seq::empty(),
    };
    let end: Seq<StreamEvent> = match c.finish_reason {
        Some(r) => seq![StreamEvent::MessageEnd { stop_reason: stop_reason_of(r) }],
        None => Seq::empty(),
    };
    assert(e == t + end);
    law_reply_concat(t, end);
    assert(reply_of(empty) == (Seq::<char>::empty(), false));
    match c.delta.content {
        Some(x) => if x@.len() > 0 {
            law_reply_step(StreamEvent::TextDelta(x), empty);
            assert(seq![StreamEvent::TextDelta(x)] + empty =~= t);
            assert(x@ + Seq::<char>::empty() =~= x@);
        } else {
            assert(x@ =~= Seq::<char>::empty());
        },
        None => {},
    }
    match c.finish_reason {
        Some(r) => {
            law_reply_step(StreamEvent::MessageEnd { stop_reason: stop_reason_of(r) }, empty);
            assert(seq![StreamEvent::MessageEnd { stop_reason: stop_reason_of(r) }] + empty =~= end);
        },
        None => {},
    }
    assert(delta_text(c) + Seq::<char>::empty() =~= delta_text(c));
}

/// A reply read from a chunk's events, until the message ends, holds the text
/// of every choice up to and including the one that ends it, in order; it ends
/// exactly when some choice carries a finish reason. In particular a choice's
/// text comes before the end it carries.
pub proof fn law_chunk_text_before_end(chunk: ChatChunk)
    ensures
        reply_of(chunk_events_of(chunk)) == choices_reply(chunk.choices@),
{
    lemma_choices_reply(chunk.choices@);
    let u: Seq<StreamEvent> = match chunk.usage {
        Some(x) => seq![
            StreamEvent::Usage { input_tokens: x.prompt_tokens, output_tokens: x.completion_tokens },
        ],
        None => Seq::empty(),
    };
    law_reply_concat(choices_events(chunk.choices@), u);
    match chunk.usage {
        Some(x) => {
            let ev = StreamEvent::Usage {
                input_tokens: x.prompt_tokens,
                output_tokens: x.completion_tokens,
            };
            law_reply_step(ev, Seq::empty());
            assert(seq![ev] + Seq::<StreamEvent>::empty() =~= u);
        },
        None => {},
    }
    let r = reply_of(choices_events(chunk.choices@));
    assert(r.0 + Seq::<char>::empty() =~= r.0);
}

proof fn lemma_choices_reply(cs: Seq<ChunkChoice>)
    ensures
        reply_of(choices_events(cs)) == choices_reply(cs),
    decreases cs.len(),
{
    if cs.len() > 0 {
        lemma_choices_reply(cs.drop_last());
        law_reply_concat(choices_events(cs.drop_last()), choice_events(cs.last()));
        lemma_choice_reply(cs.last());
    }
}

/// The finish reasons the protocol names: `stop` ends the turn, `tool_calls`
/// asks for tools, `length` hit the token limit; any other reason is kept as it is.
pub proof fn law_finish_reasons(r: String)
    ensures
        r@ == "stop"@ ==> stop_reason_of(r) == StopReason::EndTurn,
        r@ == "tool_calls"@ ==> stop_reason_of(r) == StopReason::ToolUse,
        r@ == "length"@ ==> stop_reason_of(r) == StopReason::MaxTokens,
        r@ != "stop"@ && r@ != "tool_calls"@ && r@ != "length"@ ==> stop_reason_of(r)
            == StopReason::Other(r),
{
    reveal_strlit("stop");
    reveal_strlit("tool_calls");
    reveal_strlit("length");
    assert("tool_calls"@ != "stop"@) by { assert("tool_calls"@.len() != "stop"@.len()); }
    assert("length"@ != "stop"@) by { assert("length"@.len() != "stop"@.len()); }
    assert("length"@ != "tool_calls"@) by { assert("length"@.len() != "tool_calls"@.len()); }
}

/// The events of a chunk follow its choices in order, those of earlier choices
/// first, and end with its usage when it reports one. A choice yields its text
/// when non-empty, then the end of the message when it carries a finish reason.
pub proof fn law_chunk_events_in_order(a: Seq<ChunkChoice>, b: Seq<ChunkChoice>, c: ChunkChoice)
    ensures
        choices_events(a + b) == choices_events(a) + choices_events(b),
        choices_events(seq![c]) == (match c.delta.content {
            Some(t) => if t@.len() > 0 {
                seq![StreamEvent::TextDelta(t)]
            } else {
                Seq::<StreamEvent>::empty()
            },
            None => Seq::<StreamEvent>::empty(),
        }) + (match c.finish_reason {
            Some(r) => seq![StreamEvent::MessageEnd { stop_reason: stop_reason_of(r) }],
            None => Seq::<StreamEvent>::empty(),
        }),
    decreases b.len(),
{
    assert(seq![c].drop_last() =~= Seq::<ChunkChoice>::empty());
    assert(seq![c].last() == c);
    assert(choices_events(Seq::<ChunkChoice>::empty()) == Seq::<StreamEvent>::empty());
    assert(Seq::<StreamEvent>::empty() + choice_events(c) =~= choice_events(c));
    if b.len() == 0 {
        assert(a + b =~= a);
        assert(choices_events(a) + Seq::<StreamEvent>::empty() =~= choices_events(a));
    } else {
        law_chunk_events_in_order(a, b.drop_last(), c);
        assert((a + b).drop_last() =~= a + b.drop_last());
        assert((a + b).last() == b.last());
        assert(choices_events(a) + choices_events(b.drop_last()) + choice_events(b.last())
            =~= choices_events(a) + (choices_events(b.drop_last()) + choice_events(b.last())));
    }
}

// ---------------------------------------------------------------------------
// The provider
// ---------------------------------------------------------------------------

#[verifier::external_type_specification]
#[verifier::external_body]
pub struct ExHttpClient(reqwest::Client);

#[verifier::external_type_specification]
#[verifier::external_body]
pub struct ExHttpError(reqwest::Error);

/// Calls `reqwest::ClientBuilder::build` on `reqwest::Client::builder()`, which
/// builds an HTTP client with default settings, or reports as an error that no
/// TLS backend or resolver configuration could be set up. Nothing is claimed of
/// the client, nor of when building fails: that depends on the machine.
#[verifier::external_body]
fn http_client() -> (res: Result<reqwest::Client, reqwest::Error>) {
    reqwest::Client::builder().build()
}

/// Why a provider could not be set up.
#[derive(Debug)]
pub enum ProviderError {
    /// The HTTP client could not be built.
    HttpClient(reqwest::Error),
}

/// A provider that talks to any OpenAI-compatible `/chat/completions` endpoint.
pub struct OpenAICompatProvider {
    client: reqwest::Client,
    base_url: String,
    api_key: Option<String>,
}

impl OpenAICompatProvider {
    /// The base URL requests go to, without trailing slashes.
    pub closed spec fn base_url_spec(&self) -> Seq<char> {
        self.base_url@
    }

    /// The HTTP client the provider sends its requests with.
    pub closed spec fn client_spec(&self) -> reqwest::Client {
        self.client
    }

    /// The bearer token sent with requests, if any.
    pub closed spec fn api_key_spec(&self) -> Option<String> {
        self.api_key
    }

    /// A provider for the endpoint at `base_url`, whose trailing slashes are
    /// dropped, authenticating with `api_key` when given. Only building the HTTP
    /// client can fail.
    pub fn new(base_url: &str, api_key: Option<String>) -> (res: Result<Self, ProviderError>)
        ensures
            match res {
                Ok(p) => p.base_url_spec() == trim_end_char(base_url@, '/') && p.api_key_spec()
                    == api_key,
                Err(e) => e is HttpClient,
            },
    {
        let client = match http_client() {
            Ok(c) => c,
            Err(e) => {
                return Err(ProviderError::HttpClient(e));
            },
        };
        let cs = chars_of(base_url);
        let k = trimmed_end_len(&cs, cs.len(), '/');
        proof {
            assert(cs@.take(cs@.len() as int) =~= cs@);
            assert(cs@.subrange(0, k as int) =~= cs@.take(k as int));
        }
        Ok(OpenAICompatProvider { client, base_url: string_from_range(&cs, 0, k), api_key })
    }

    /// The base URL, without trailing slashes.
    pub fn base_url(&self) -> (res: &str)
        ensures
            res@ == self.base_url_spec(),
    {
        self.base_url.as_str()
    }

    /// The bearer token, if any.
    pub fn api_key(&self) -> (res: &Option<String>)
        ensures
            *res == self.api_key_spec(),
    {
        &self.api_key
    }

    /// The HTTP client requests are sent with.
    pub fn client(&self) -> (res: &reqwest::Client)
        ensures
            *res == self.client_spec(),
    {
        &self.client
    }

    /// The endpoint that completions are requested from.
    pub fn chat_url(&self) -> (res: String)
        ensures
            res@ == self.base_url_spec() + "/chat/completions"@,
    {
        let mut url = self.base_url.clone();
        url.append("/chat/completions");
        url
    }

    /// The provider's name.
    pub fn name(&self) -> (res: &'static str)
        ensures
            res@ == "openai_compat"@,
    {
        "openai_compat"
    }
}

/// The base URL a provider keeps never ends in `/`, and giving that URL to a new
/// provider keeps it as it is.
pub proof fn law_base_url_normalized(
    p: OpenAICompatProvider,
    q: OpenAICompatProvider,
    url: Seq<char>,
)
    requires
        p.base_url_spec() == trim_end_char(url, '/'),
        q.base_url_spec() == trim_end_char(p.base_url_spec(), '/'),
    ensures
        !(p.base_url_spec().len() > 0 && p.base_url_spec().last() == '/'),
        q.base_url_spec() == p.base_url_spec(),
{
    lemma_trim_end_char_idempotent(url, '/');
}

proof fn lemma_parts_contain(blocks: Seq<ContentBlock>, i: int)
    requires
        0 <= i < blocks.len(),
        part_of(blocks[i]) is Some,
    ensures
        parts_of(blocks).contains(part_of(blocks[i]).unwrap()),
    decreases blocks.len(),
{
    let p = part_of(blocks[i]).unwrap();
    if i == blocks.len() - 1 {
        assert(blocks.last() == blocks[i]);
        let ps = parts_of(blocks);
        assert(ps[ps.len() - 1] == p);
    } else {
        let t = blocks.drop_last();
        assert(t[i] == blocks[i]);
        lemma_parts_contain(t, i);
        let k = choose|k: int| 0 <= k < parts_of(t).len() && parts_of(t)[k] == p;
        assert(parts_of(blocks)[k] == p);
    }
}

/// Every attached image, file or audio clip goes on the wire: a message that
/// holds one is sent as a parts array that contains its part, with the data
/// under its URL (inline data as `data:<media type>;base64,<data>`). The bare
/// string is used only when no block is an image, a file or audio.
pub proof fn law_attachments_sent_as_parts(blocks: Seq<ContentBlock>, i: int)
    requires
        0 <= i < blocks.len(),
    ensures
        blocks[i] matches ContentBlock::File { name, media_type, data } ==> content_of(blocks) matches ContentView::Parts(ps)
            && ps.contains(
            PartView::File(
                name@,
                match data {
                    ImageData::Url(u) => u@,
                    ImageData::Base64(b) => "data:"@ + media_type@ + ";base64,"@ + b@,
                },
            ),
        ),
        blocks[i] matches ContentBlock::Image { media_type, data } ==> content_of(blocks) matches ContentView::Parts(ps)
            && ps.contains(
            PartView::ImageUrl(
                match data {
                    ImageData::Url(u) => u@,
                    ImageData::Base64(b) => "data:"@ + media_type@ + ";base64,"@ + b@,
                },
            ),
        ),
        blocks[i] matches ContentBlock::Audio { format, data } ==> content_of(blocks) matches ContentView::Parts(ps)
            && ps.contains(PartView::InputAudio(data@, format@)),
        (forall|j: int|
            0 <= j < blocks.len() ==> !(#[trigger] blocks[j] is Image) && !(blocks[j] is File)
                && !(blocks[j] is Audio)) ==> content_of(blocks) == ContentView::Text(
            text_of(blocks),
        ),
{
    if blocks[i] is Image || blocks[i] is File || blocks[i] is Audio {
        assert(is_media(blocks[i]));
        assert(has_media(blocks));
        lemma_parts_contain(blocks, i);
    }
    if forall|j: int|
        0 <= j < blocks.len() ==> !(#[trigger] blocks[j] is Image) && !(blocks[j] is File)
            && !(blocks[j] is Audio) {
        if has_media(blocks) {
            let k = choose|k: int| 0 <= k < blocks.len() && is_media(#[trigger] blocks[k]);
            assert(!(blocks[k] is Image) && !(blocks[k] is File) && !(blocks[k] is Audio));
        }
    }
}

/// The text of a message is the text of its parts joined in order: that of
/// blocks before, then blocks after; a text block gives its text, any other
/// block none.
pub proof fn law_text_in_block_order(a: Seq<ContentBlock>, b: Seq<ContentBlock>, blk: ContentBlock)
    ensures
        text_of(a + b) == text_of(a) + text_of(b),
        text_of(seq![blk]) == match blk {
            ContentBlock::Text { text } => text@,
            _ => Seq::<char>::empty(),
        },
    decreases b.len(),
{
    assert(seq![blk].drop_last() =~= Seq::<ContentBlock>::empty());
    assert(seq![blk].last() == blk);
    assert(text_of(Seq::<ContentBlock>::empty()) == Seq::<char>::empty());
    let tb = match blk {
        ContentBlock::Text { text } => text@,
        _ => Seq::<char>::empty(),
    };
    assert(Seq::<char>::empty() + tb =~= tb);
    if b.len() == 0 {
        assert(a + b =~= a);
        assert(text_of(a) + Seq::<char>::empty() =~= text_of(a));
    } else {
        law_text_in_block_order(a, b.drop_last(), blk);
        assert((a + b).drop_last() =~= a + b.drop_last());
        assert((a + b).last() == b.last());
        let t = match b.last() {
            ContentBlock::Text { text } => text@,
            _ => Seq::<char>::empty(),
        };
        assert(text_of(a) + text_of(b.drop_last()) + t =~= text_of(a) + (text_of(b.drop_last()) + t));
    }
}

/// The parts of a message follow its blocks in order: those of blocks before,
/// then those of blocks after. Text, image, file and audio blocks give one part
/// each, carrying their text, data URL, name, data and format; tool blocks give
/// none.
pub proof fn law_parts_in_block_order(a: Seq<ContentBlock>, b: Seq<ContentBlock>, blk: ContentBlock)
    ensures
        parts_of(a + b) == parts_of(a) + parts_of(b),
        parts_of(seq![blk]) == match blk {
            ContentBlock::Text { text } => seq![PartView::Text(text@)],
            ContentBlock::Image { media_type, data } => seq![
                PartView::ImageUrl(
                    match data {
                        ImageData::Url(u) => u@,
                        ImageData::Base64(d) => "data:"@ + media_type@ + ";base64,"@ + d@,
                    },
                ),
            ],
            ContentBlock::File { name, media_type, data } => seq![
                PartView::File(
                    name@,
                    match data {
                        ImageData::Url(u) => u@,
                        ImageData::Base64(d) => "data:"@ + media_type@ + ";base64,"@ + d@,
                    },
                ),
            ],
            ContentBlock::Audio { format, data } => seq![PartView::InputAudio(data@, format@)],
            _ => Seq::<PartView>::empty(),
        },
    decreases b.len(),
{
    assert(seq![blk].drop_last() =~= Seq::<ContentBlock>::empty());
    assert(seq![blk].last() == blk);
    assert(parts_of(Seq::<ContentBlock>::empty()) == Seq::<PartView>::empty());
    let one = match part_of(blk) {
        Some(p) => seq![p],
        None => Seq::<PartView>::empty(),
    };
    assert(Seq::<PartView>::empty() + one =~= one);
    if b.len() == 0 {
        assert(a + b =~= a);
        assert(parts_of(a) + Seq::<PartView>::empty() =~= parts_of(a));
    } else {
        law_parts_in_block_order(a, b.drop_last(), blk);
        assert((a + b).drop_last() =~= a + b.drop_last());
        assert((a + b).last() == b.last());
        let t = match part_of(b.last()) {
            Some(p) => seq![p],
            None => Seq::<PartView>::empty(),
        };
        assert(parts_of(a) + parts_of(b.drop_last()) + t =~= parts_of(a) + (parts_of(b.drop_last())
            + t));
    }
}

/// A message without images, files or audio goes on the wire as one bare string
/// holding all of its text; one with any of them goes as a parts array.
pub proof fn law_plain_text_is_bare_string(blocks: Seq<ContentBlock>)
    ensures
        (forall|i: int| 0 <= i < blocks.len() ==> !is_media(#[trigger] blocks[i])) ==> content_of(
            blocks,
        ) == ContentView::Text(text_of(blocks)),
        (exists|i: int| 0 <= i < blocks.len() && is_media(#[trigger] blocks[i])) ==> content_of(
            blocks,
        ) == ContentView::Parts(parts_of(blocks)),
{
}

/// A request carries the whole history: after one more message joins the
/// conversation, the wire messages are those of before with the new one last.
pub proof fn law_request_carries_history(system: Option<String>, history: Seq<Message>, m: Message)
    ensures
        wire_messages(system, history.push(m)) == wire_messages(system, history).push(
            (role_name(m.role), content_of(m.content@)),
        ),
{
    let f = |x: Message| (role_name(x.role), content_of(x.content@));
    assert(history.push(m).map_values(f) =~= history.map_values(f).push(f(m)));
    let head: Seq<(Seq<char>, ContentView)> = match system {
        Some(s) => seq![("system"@, ContentView::Text(s@))],
        None => Seq::empty(),
    };
    assert(head + history.map_values(f).push(f(m)) =~= (head + history.map_values(f)).push(f(m)));
}

} // verus!
