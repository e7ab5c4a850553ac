//! Conversations with a language model over an OpenAI-compatible API.

pub mod client;
pub mod composition;
pub mod promises;
pub mod prompt;
pub mod sse;
pub mod state;

use vstd::prelude::*;

use crate::json;
use crate::llm::sse::SseBuffer;
use crate::llm::sse::SseStep;
use crate::strings;

verus! {

/// A message of a request to the model.
#[derive(Debug)]
pub struct ChatMessage {
    pub role: String,
    pub content: String,
}

/// What a [`ChatMessage`] holds.
pub struct ChatMessageView {
    pub role: Seq<char>,
    pub content: Seq<char>,
}

impl View for ChatMessage {
    type V = ChatMessageView;

    open spec fn view(&self) -> ChatMessageView {
        ChatMessageView { role: self.role@, content: self.content@ }
    }
}

impl Clone for ChatMessage {
    fn clone(&self) -> (r: ChatMessage)
        ensures
            r@ == self@,
    {
        ChatMessage { role: self.role.clone(), content: self.content.clone() }
    }
}

impl ChatMessageView {
    /// A message of the system.
    pub open spec fn of_system(content: Seq<char>) -> ChatMessageView {
        ChatMessageView { role: "system"@, content: content }
    }

    /// A message of a user.
    pub open spec fn of_user(content: Seq<char>) -> ChatMessageView {
        ChatMessageView { role: "user"@, content: content }
    }

    /// A message of the model.
    pub open spec fn of_assistant(content: Seq<char>) -> ChatMessageView {
        ChatMessageView { role: "assistant"@, content: content }
    }
}

impl ChatMessage {
    /// A message of the system.
    pub fn system(content: String) -> (r: ChatMessage)
        ensures
            r@ == ChatMessageView::of_system(content@),
    {
        ChatMessage { role: "system".to_owned(), content: content }
    }

    /// A message of a user.
    pub fn user(content: String) -> (r: ChatMessage)
        ensures
            r@ == ChatMessageView::of_user(content@),
    {
        ChatMessage { role: "user".to_owned(), content: content }
    }

    /// A message of a user with the name in front.
    pub fn user_named(name: &str, content: &str) -> (r: ChatMessage)
        ensures
            r@ == ChatMessageView::of_user(name@ + ": "@ + content@),
    {
        let mut text = name.to_owned();
        text.append(": ");
        text.append(content);
        ChatMessage::user(text)
    }

    /// A message of the model.
    pub fn assistant(content: String) -> (r: ChatMessage)
        ensures
            r@ == ChatMessageView::of_assistant(content@),
    {
        ChatMessage { role: "assistant".to_owned(), content: content }
    }

    /// The views of a list of messages.
    pub open spec fn views(v: Seq<ChatMessage>) -> Seq<ChatMessageView> {
        v.map_values(|m: ChatMessage| m@)
    }
}

/// Why a request to the model failed.
#[derive(Debug)]
pub enum LlmError {
    /// The request did not get through.
    Http(String),
    /// The API answered with an error.
    Api { status: u16, body: String },
    /// The answer could not be read.
    Parse(String),
    /// The answer was empty.
    Empty,
}

/// The number of characters of an answer that an error shows.
pub const ERROR_PREVIEW_CHARS: usize = 300;

/// What an answer with an error says about it: the text under `message` in
/// `error`, or `error` itself if it is a text.
#[derive(Debug)]
pub struct ErrorFields {
    pub message: Option<String>,
    pub error: Option<String>,
}

/// The fields of an answer with an error.
pub open spec fn error_fields(body: Option<json::Json>) -> (Option<Seq<char>>, Option<Seq<char>>) {
    let error = json::child(body, "error"@);
    (json::text_at(error, "message"@), json::text_at(body, "error"@))
}

/// The explanation that an answer with an error gives.
pub open spec fn explanation(
    message: Option<Seq<char>>,
    error: Option<Seq<char>>,
    body: Seq<char>,
) -> Seq<char> {
    match message {
        Some(m) => m,
        None => match error {
            Some(e) => e,
            None => strings::take_chars(body, ERROR_PREVIEW_CHARS as int),
        },
    }
}

/// Reads the fields of an answer with an error.
fn read_error_fields(body: &str) -> (r: ErrorFields)
    ensures
        (strings::optional(r.message), strings::optional(r.error)) == error_fields(json::parsed(body@)),
{
    match json::parse(body) {
        Some(v) => {
            let error = json::child_of(Some(&v), "error");
            ErrorFields {
                message: json::text_in(json::child_of(error, "message")),
                error: json::text_in(error),
            }
        },
        None => ErrorFields { message: None, error: None },
    }
}

/// The message for an answer with an error whose fields have been read.
pub fn api_error_text(status: u16, body: &str, fields: &ErrorFields) -> (r: String)
    ensures
        r@ == "API вернул ошибку "@ + strings::decimal(status as nat) + ": "@ + explanation(
            strings::optional(fields.message),
            strings::optional(fields.error),
            body@,
        ),
{
    let mut out = "API вернул ошибку ".to_owned();
    out.append(strings::decimal_u64(status as u64).as_str());
    out.append(": ");
    match &fields.message {
        Some(m) => {
            out.append(m.as_str());
        },
        None => match &fields.error {
            Some(e) => {
                out.append(e.as_str());
            },
            None => {
                out.append(strings::first_chars(body, ERROR_PREVIEW_CHARS).as_str());
            },
        },
    }
    out
}

impl LlmError {
    /// The message about the error.
    pub open spec fn message(self) -> Seq<char> {
        match self {
            LlmError::Http(e) => "сетевая ошибка: "@ + e@,
            LlmError::Api { status, body } => {
                let (message, error) = error_fields(json::parsed(body@));
                "API вернул ошибку "@ + strings::decimal(status as nat) + ": "@ + explanation(
                    message,
                    error,
                    body@,
                )
            },
            LlmError::Parse(e) => "не удалось разобрать ответ: "@ + e@,
            LlmError::Empty => "модель вернула пустой ответ"@,
        }
    }

    /// See [`LlmError::message`].
    pub fn to_string(&self) -> (r: String)
        ensures
            r@ == self.message(),
    {
        match self {
            LlmError::Http(e) => {
                let mut out = "сетевая ошибка: ".to_owned();
                out.append(e.as_str());
                out
            },
            LlmError::Api { status, body } => {
                let fields = read_error_fields(body.as_str());
                api_error_text(*status, body.as_str(), &fields)
            },
            LlmError::Parse(e) => {
                let mut out = "не удалось разобрать ответ: ".to_owned();
                out.append(e.as_str());
                out
            },
            LlmError::Empty => "модель вернула пустой ответ".to_owned(),
        }
    }
}

/// How to reach the model. The settings can change between two requests.
#[derive(Debug)]
pub struct LlmSettings {
    pub base_url: String,
    pub api_key: String,
    pub model: String,
}

/// What [`LlmSettings`] holds.
pub struct LlmSettingsView {
    pub base_url: Seq<char>,
    pub api_key: Seq<char>,
    pub model: Seq<char>,
}

impl View for LlmSettings {
    type V = LlmSettingsView;

    open spec fn view(&self) -> LlmSettingsView {
        LlmSettingsView {
            base_url: self.base_url@,
            api_key: self.api_key@,
            model: self.model@,
        }
    }
}

impl Clone for LlmSettings {
    fn clone(&self) -> (r: LlmSettings)
        ensures
            r@ == self@,
    {
        LlmSettings {
            base_url: self.base_url.clone(),
            api_key: self.api_key.clone(),
            model: self.model.clone(),
        }
    }
}

/// The path of the endpoint for conversations.
pub open spec fn chat_path() -> Seq<char> {
    "/chat/completions"@
}

/// The address of the endpoint for a base address without a slash at its end.
pub open spec fn endpoint(base: Seq<char>) -> Seq<char> {
    if chat_path().is_suffix_of(base) {
        base
    } else {
        base + chat_path()
    }
}

/// See [`endpoint`].
pub(crate) fn endpoint_of(base: &str) -> (r: String)
    ensures
        r@ == endpoint(base@),
{
    let mut out = base.to_owned();
    if !strings::ends_with(base, "/chat/completions") {
        out.append("/chat/completions");
    }
    out
}

/// How often a failed request is sent again.
pub const MAX_RETRIES: u32 = 4;

/// How long a connection may take to come about, in seconds.
pub const CONNECT_TIMEOUT_SECS: u64 = 15;

/// How long a request may take as a whole, in seconds.
pub const TIMEOUT_SECS: u64 = 180;

/// A status that calls for another try: an error of the server, too many
/// requests, a refusal by the gateway, a timeout.
pub open spec fn transient(status: u16) -> bool {
    500 <= status < 600 || status == 429 || status == 403 || status == 408
}

/// A status of success.
pub open spec fn success(status: u16) -> bool {
    200 <= status < 300
}

/// The pause in milliseconds before the next try; it doubles every time.
pub open spec fn backoff_ms(attempt: u32) -> int
    decreases attempt,
{
    if attempt <= 1 {
        1500
    } else {
        2 * backoff_ms((attempt - 1) as u32)
    }
}

/// The pause in milliseconds once this many attempts have failed before.
pub open spec fn pause_after(failed: u32) -> u64 {
    if failed == 0 {
        1500
    } else if failed == 1 {
        3000
    } else if failed == 2 {
        6000
    } else {
        12000
    }
}

/// What to do after a request.
#[derive(Debug)]
pub enum RequestStep {
    /// The answer is there: read it.
    Read,
    /// Wait this many milliseconds and send the request again.
    Retry(u64),
    /// Give up.
    Fail(LlmError),
}

/// The pause after an attempt: see [`backoff_ms`].
fn delay_after(attempt: u32) -> (r: u64)
    requires
        1 <= attempt <= MAX_RETRIES,
    ensures
        r == backoff_ms(attempt),
        r == pause_after((attempt - 1) as u32),
{
    reveal_with_fuel(backoff_ms, 5);
    if attempt == 1 {
        1500
    } else if attempt == 2 {
        3000
    } else if attempt == 3 {
        6000
    } else {
        12000
    }
}

/// A client of the model: how long its requests may take.
#[derive(Debug)]
pub struct LlmClient {
    /// The seconds within which a connection has to come about.
    pub connect_timeout_secs: u64,
    /// The seconds within which a request has to end.
    pub timeout_secs: u64,
}

impl LlmClient {
    /// A client that waits [`CONNECT_TIMEOUT_SECS`] for a connection and
    /// [`TIMEOUT_SECS`] for an answer.
    pub fn new() -> (r: LlmClient)
        ensures
            r.connect_timeout_secs == CONNECT_TIMEOUT_SECS,
            r.timeout_secs == TIMEOUT_SECS,
    {
        LlmClient { connect_timeout_secs: CONNECT_TIMEOUT_SECS, timeout_secs: TIMEOUT_SECS }
    }

    /// The address of the endpoint for a base address.
    pub fn build_chat_url(base_url: &str) -> (r: String)
        ensures
            r@ == endpoint(strings::trim_end_char(strings::trim(base_url@), '/')),
    {
        let cs = strings::chars_of(base_url);
        let base = strings::string_of(
            strings::slice_trim_end_char(strings::slice_trim(cs.as_slice()), '/'),
        );
        endpoint_of(base.as_str())
    }

    /// Starts a plain request.
    pub fn chat(&self) -> (r: ChatCall)
        ensures
            r@ == 0,
    {
        ChatCall { attempts: 0 }
    }

    /// Starts a request whose answer is streamed.
    pub fn stream_chat(&self) -> (r: StreamCall)
        ensures
            r.connection@ == 0,
            r.answer@ == (StreamedAnswerView { pending: Seq::empty(), full: Seq::empty() }),
    {
        StreamCall {
            connection: ChatCall { attempts: 0 },
            answer: StreamedAnswer { lines: SseBuffer::new(), full: String::new() },
        }
    }
}

/// A request and its attempts.
#[derive(Debug)]
pub struct ChatCall {
    attempts: u32,
}

impl View for ChatCall {
    type V = u32;

    closed spec fn view(&self) -> u32 {
        self.attempts
    }
}

/// A request whose answer is streamed.
#[derive(Debug)]
pub struct StreamCall {
    pub connection: ChatCall,
    pub answer: StreamedAnswer,
}

impl ChatCall {
    /// What to do after the answer to an attempt.
    pub fn on_response(&mut self, status: u16, body: String) -> (r: RequestStep)
        requires
            old(self)@ <= MAX_RETRIES,
        ensures
            final(self)@ == old(self)@ + 1,
            match r {
                RequestStep::Read => success(status),
                RequestStep::Retry(ms) => !success(status) && transient(status) && final(self)@
                    <= MAX_RETRIES && ms == backoff_ms(final(self)@),
                RequestStep::Fail(e) => {
                    &&& !success(status)
                    &&& !transient(status) || final(self)@ > MAX_RETRIES
                    &&& e == (LlmError::Api { status: status, body: body })
                },
            },
            r is Read <==> 200 <= status <= 299,
            r is Retry <==> old(self)@ < 4 && (500 <= status <= 599 || status == 429 || status
                == 403 || status == 408),
            r matches RequestStep::Retry(ms) ==> ms == pause_after(old(self)@),
    {
        self.attempts = self.attempts + 1;
        if 200 <= status && status < 300 {
            return RequestStep::Read;
        }
        let again: bool = (500 <= status && status < 600) || status == 429 || status == 403
            || status == 408;
        if again && self.attempts <= MAX_RETRIES {
            RequestStep::Retry(delay_after(self.attempts))
        } else {
            RequestStep::Fail(LlmError::Api { status: status, body: body })
        }
    }

    /// What to do after an attempt that did not get through.
    pub fn on_network_error(&mut self, error: String) -> (r: RequestStep)
        requires
            old(self)@ <= MAX_RETRIES,
        ensures
            final(self)@ == old(self)@ + 1,
            match r {
                RequestStep::Read => false,
                RequestStep::Retry(ms) => final(self)@ <= MAX_RETRIES && ms == backoff_ms(
                    final(self)@,
                ),
                RequestStep::Fail(e) => final(self)@ > MAX_RETRIES && e == LlmError::Http(error),
            },
            r is Retry <==> old(self)@ < 4,
            r matches RequestStep::Retry(ms) ==> ms == pause_after(old(self)@),
    {
        self.attempts = self.attempts + 1;
        if self.attempts <= MAX_RETRIES {
            RequestStep::Retry(delay_after(self.attempts))
        } else {
            RequestStep::Fail(LlmError::Http(error))
        }
    }

    /// The answer, from the content of its first choice.
    pub fn answer(content: Option<String>) -> (r: Result<String, LlmError>)
        ensures
            match r {
                Ok(text) => content is Some && !strings::blank(content->0@) && text@
                    == strings::trim(content->0@),
                Err(e) => e is Empty && (content is None || strings::blank(content->0@)),
            },
    {
        match content {
            Some(c) => {
                let text = strings::trimmed(c.as_str());
                if text.as_str().is_empty() {
                    Err(LlmError::Empty)
                } else {
                    Ok(text)
                }
            },
            None => Err(LlmError::Empty),
        }
    }
}

/// A streamed answer on its way.
#[derive(Debug)]
pub struct StreamedAnswer {
    lines: SseBuffer,
    full: String,
}

/// What a [`StreamedAnswer`] holds: what was received and not read, and the
/// text read so far.
pub struct StreamedAnswerView {
    pub pending: Seq<char>,
    pub full: Seq<char>,
}

impl View for StreamedAnswer {
    type V = StreamedAnswerView;

    closed spec fn view(&self) -> StreamedAnswerView {
        StreamedAnswerView { pending: self.lines@, full: self.full@ }
    }
}

/// The pieces of text in the choices of an event; empty ones are left out.
pub open spec fn solid_pieces(pieces: Seq<Option<Seq<char>>>) -> Seq<Seq<char>>
    decreases pieces.len(),
{
    if pieces.len() == 0 {
        Seq::empty()
    } else {
        let rest = solid_pieces(pieces.drop_last());
        match pieces.last() {
            Some(p) => if p.len() > 0 {
                rest.push(p)
            } else {
                rest
            },
            None => rest,
        }
    }
}

/// The views of optional texts.
pub open spec fn optional_views(v: Seq<Option<String>>) -> Seq<Option<Seq<char>>> {
    v.map_values(|p: Option<String>| strings::optional(p))
}

impl StreamedAnswer {
    /// Receives bytes of the stream.
    pub fn push(&mut self, bytes: &[u8])
        ensures
            final(self)@ == (StreamedAnswerView {
                pending: old(self)@.pending + strings::decoded(bytes@),
                ..old(self)@
            }),
    {
        self.lines.push(bytes);
    }

    /// The data of the next event that was received in full. There is none
    /// after the end mark until more is received.
    pub fn next_payload(&mut self) -> (r: Option<String>)
        ensures
            final(self)@.full == old(self)@.full,
            final(self)@.pending == sse::sse_next(old(self)@.pending).1,
            match r {
                Some(d) => sse::sse_next(old(self)@.pending).0 == sse::SseStepView::Data(d@),
                None => !(sse::sse_next(old(self)@.pending).0 is Data),
            },
    {
        match self.lines.next() {
            SseStep::Data(d) => Some(d),
            SseStep::Done => None,
            SseStep::Wait => None,
        }
    }

    /// Takes in the contents of the choices of an event. Gives the pieces that
    /// are new.
    pub fn absorb(&mut self, contents: Vec<Option<String>>) -> (r: Vec<String>)
        ensures
            strings::views(r@) == solid_pieces(optional_views(contents@)),
            final(self)@.pending == old(self)@.pending,
            final(self)@.full == old(self)@.full + solid_pieces(
                optional_views(contents@),
            ).flatten(),
    {
        let ghost all = optional_views(contents@);
        let ghost before = self.full@;
        let mut out: Vec<String> = Vec::new();
        let mut i: usize = 0;
        proof {
            assert(all.take(0) =~= Seq::<Option<Seq<char>>>::empty());
            assert(strings::views(out@) =~= solid_pieces(all.take(0)));
            assert(solid_pieces(all.take(0)).flatten() =~= Seq::<char>::empty());
            assert(before + Seq::<char>::empty() =~= before);
        }
        while i < contents.len()
            invariant
                i <= contents@.len(),
                all == optional_views(contents@),
                strings::views(out@) == solid_pieces(all.take(i as int)),
                self.full@ == before + solid_pieces(all.take(i as int)).flatten(),
                self.lines@ == old(self).lines@,
            decreases contents@.len() - i,
        {
            let ghost pieces = solid_pieces(all.take(i as int));
            proof {
                assert(all.take(i + 1).drop_last() =~= all.take(i as int));
                assert(all.take(i + 1).last() == strings::optional(contents@[i as int]));
            }
            match &contents[i] {
                Some(p) => {
                    if !p.as_str().is_empty() {
                        let piece = p.clone();
                        proof {
                            strings::lemma_views_push(out@, piece);
                            strings::lemma_flatten_push(pieces, p@);
                            assert(before + (pieces.flatten() + p@) =~= (before + pieces.flatten())
                                + p@);
                        }
                        self.full.append(p.as_str());
                        out.push(piece);
                    }
                },
                None => {},
            }
            i += 1;
        }
        assert(all.take(all.len() as int) =~= all);
        out
    }

    /// The whole answer, or nothing if it is blank; then the request is sent
    /// again without streaming.
    pub fn finish(self) -> (r: Option<String>)
        ensures
            match r {
                Some(text) => text@ == self@.full && !strings::blank(self@.full),
                None => strings::blank(self@.full),
            },
    {
        if strings::is_blank(self.full.as_str()) {
            None
        } else {
            Some(self.full)
        }
    }
}

/// The address of the endpoint is stable: normalising it again changes
/// nothing.
pub proof fn law_endpoint_stable(base: Seq<char>)
    ensures
        endpoint(endpoint(base)) == endpoint(base),
{
    let p = chat_path();
    if !p.is_suffix_of(base) {
        let e = base + p;
        assert(p =~= e.subrange(e.len() - p.len(), e.len() as int));
    }
}

} // verus!
