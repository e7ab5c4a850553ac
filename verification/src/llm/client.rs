//! A client that streams answers and tries again after failures.

use vstd::prelude::*;

use crate::json;
use crate::llm;
use crate::llm::sse;
use crate::llm::sse::SseBuffer;
use crate::llm::sse::SseStep;
use crate::strings;

pub use crate::llm::ChatMessage;
pub use crate::llm::ChatMessageView;

verus! {

/// Why a request to the model failed.
#[derive(Debug)]
pub enum LlmError {
    /// The request did not get through.
    Http(String),
    /// The API answered with an error.
    Api { status: u16, body: String },
    /// The answer was empty.
    Empty,
}

impl LlmError {
    /// Another try may help: the network failed, there were too many requests,
    /// or the server failed.
    pub open spec fn may_pass(self) -> bool {
        match self {
            LlmError::Http(_) => true,
            LlmError::Api { status, body } => status == 429 || 500 <= status < 600,
            LlmError::Empty => false,
        }
    }

    /// See [`LlmError::may_pass`].
    pub fn retryable(&self) -> (r: bool)
        ensures
            r == self.may_pass(),
    {
        match self {
            LlmError::Http(_) => true,
            LlmError::Api { status, body } => *status == 429 || (500 <= *status
                && *status < 600),
            LlmError::Empty => false,
        }
    }

    /// A short explanation for the chat.
    pub open spec fn hint(self) -> Seq<char> {
        match self {
            LlmError::Http(_) => "Не получилось связаться с моделью, попробуй ещё раз."@,
            LlmError::Api { status, body } => if status == 429 {
                "Модель перегружена, попробуй через минуту."@
            } else {
                "Модель ответила ошибкой, попробуй ещё раз."@
            },
            LlmError::Empty => "Модель вернула пустой ответ."@,
        }
    }

    /// See [`LlmError::hint`].
    pub fn user_hint(&self) -> (r: &'static str)
        ensures
            r@ == self.hint(),
    {
        match self {
            LlmError::Http(_) => "Не получилось связаться с моделью, попробуй ещё раз.",
            LlmError::Api { status, body } => if *status == 429 {
                "Модель перегружена, попробуй через минуту."
            } else {
                "Модель ответила ошибкой, попробуй ещё раз."
            },
            LlmError::Empty => "Модель вернула пустой ответ.",
        }
    }

    /// The message about the error.
    pub open spec fn message(self) -> Seq<char> {
        match self {
            LlmError::Http(e) => "сеть/транспорт: "@ + e@,
            LlmError::Api { status, body } => "API вернул "@ + strings::decimal(status as nat)
                + ": "@ + body@,
            LlmError::Empty => "модель вернула пустой ответ"@,
        }
    }

    /// See [`LlmError::message`].
    pub fn to_string(&self) -> (r: String)
        ensures
            r@ == self.message(),
    {
        match self {
            LlmError::Http(e) => {
                let mut out = "сеть/транспорт: ".to_owned();
                out.append(e.as_str());
                out
            },
            LlmError::Api { status, body } => {
                let mut out = "API вернул ".to_owned();
                out.append(strings::decimal_u64(*status as u64).as_str());
                out.append(": ");
                out.append(body.as_str());
                out
            },
            LlmError::Empty => "модель вернула пустой ответ".to_owned(),
        }
    }
}

/// How often a failed request is sent again.
pub const MAX_RETRIES: u32 = 2;

/// The pause before the first retry in milliseconds.
pub const BACKOFF_BASE_MS: u64 = 1500;

/// A client for one API.
#[derive(Debug)]
pub struct LlmClient {
    base_url: String,
    api_key: String,
}

/// What an [`LlmClient`] holds.
pub struct LlmClientView {
    pub base_url: Seq<char>,
    pub api_key: Seq<char>,
}

impl View for LlmClient {
    type V = LlmClientView;

    closed spec fn view(&self) -> LlmClientView {
        LlmClientView { base_url: self.base_url@, api_key: self.api_key@ }
    }
}

/// What an answer with an error says about it.
#[derive(Debug)]
pub struct ErrorFields {
    /// The text under `message` in `error`.
    pub error_message: Option<String>,
    /// The text under `message`.
    pub message: Option<String>,
}

/// The fields of an answer with an error.
pub open spec fn error_fields(body: Option<json::Json>) -> (Option<Seq<char>>, Option<Seq<char>>) {
    (json::text_at(json::child(body, "error"@), "message"@), json::text_at(body, "message"@))
}

/// The explanation that an answer with an error gives.
pub open spec fn explanation(
    error_message: Option<Seq<char>>,
    message: Option<Seq<char>>,
    body: Seq<char>,
) -> Seq<char> {
    match error_message {
        Some(m) => m,
        None => match message {
            Some(m) => m,
            None => strings::take_chars(body, llm::ERROR_PREVIEW_CHARS as int),
        },
    }
}

/// Reads the fields of an answer with an error.
fn read_error_fields(body: &str) -> (r: ErrorFields)
    ensures
        (strings::optional(r.error_message), strings::optional(r.message)) == error_fields(
            json::parsed(body@),
        ),
{
    match json::parse(body) {
        Some(v) => {
            let error = json::child_of(Some(&v), "error");
            ErrorFields {
                error_message: json::text_in(json::child_of(error, "message")),
                message: json::text_in(json::child_of(Some(&v), "message")),
            }
        },
        None => ErrorFields { error_message: None, message: None },
    }
}

/// The error for an answer whose fields have been read.
pub fn api_error(status: u16, body: &str, fields: ErrorFields) -> (r: LlmError)
    ensures
        match r {
            LlmError::Api { status: s, body: b } => s == status && b@ == explanation(
                strings::optional(fields.error_message),
                strings::optional(fields.message),
                body@,
            ),
            _ => false,
        },
{
    let text = match fields.error_message {
        Some(m) => m,
        None => match fields.message {
            Some(m) => m,
            None => strings::first_chars(body, llm::ERROR_PREVIEW_CHARS),
        },
    };
    LlmError::Api { status: status, body: text }
}

/// The piece of text in an event.
pub open spec fn event_piece(event: Option<json::Json>) -> Option<Seq<char>> {
    json::text_at(
        json::child(json::first(json::child(event, "choices"@)), "delta"@),
        "content"@,
    )
}

/// The text of an answer.
pub open spec fn answer_text(answer: Option<json::Json>) -> Option<Seq<char>> {
    json::text_at(
        json::child(json::first(json::child(answer, "choices"@)), "message"@),
        "content"@,
    )
}

/// Reads the piece of text in the data of an event.
fn read_piece(data: &str) -> (r: Option<String>)
    ensures
        strings::optional(r) == event_piece(json::parsed(data@)),
{
    match json::parse(data) {
        Some(v) => {
            let choice = json::first_of(json::child_of(Some(&v), "choices"));
            json::text_in(json::child_of(json::child_of(choice, "delta"), "content"))
        },
        None => None,
    }
}

/// The pieces of text in a text of events, what is left of the text, and
/// whether the end mark was read.
pub open spec fn stream_pieces(text: Seq<char>) -> (Seq<Seq<char>>, Seq<char>, bool)
    decreases text.len(),
{
    let (step, rest) = sse::sse_next(text);
    match step {
        sse::SseStepView::Wait => (Seq::empty(), rest, false),
        sse::SseStepView::Done => (Seq::empty(), rest, true),
        sse::SseStepView::Data(d) => if rest.len() < text.len() {
            let (pieces, left, done) = stream_pieces(rest);
            match event_piece(json::parsed(d)) {
                Some(p) => if p.len() > 0 {
                    (seq![p] + pieces, left, done)
                } else {
                    (pieces, left, done)
                },
                None => (pieces, left, done),
            }
        } else {
            (Seq::empty(), rest, false)
        },
    }
}

/// A streamed answer on its way.
#[derive(Debug)]
pub struct StreamedAnswer {
    lines: SseBuffer,
    full: String,
}

/// What a [`StreamedAnswer`] holds: what was received and not read, and the
/// text read so far.
pub struct StreamedAnswerView {
    pub pending: Seq<char>,
    pub full: Seq<char>,
}

impl View for StreamedAnswer {
    type V = StreamedAnswerView;

    closed spec fn view(&self) -> StreamedAnswerView {
        StreamedAnswerView { pending: self.lines@, full: self.full@ }
    }
}

impl StreamedAnswer {
    /// Nothing received yet.
    pub fn new() -> (r: StreamedAnswer)
        ensures
            r@ == (StreamedAnswerView { pending: Seq::empty(), full: Seq::empty() }),
    {
        StreamedAnswer { lines: SseBuffer::new(), full: String::new() }
    }

    /// Takes in the content of an event. Gives the piece if it is new text.
    pub fn accept(&mut self, content: Option<String>) -> (r: Option<String>)
        ensures
            final(self)@.pending == old(self)@.pending,
            match r {
                Some(p) => content is Some && p@ == content->0@ && p@.len() > 0 && final(self)@.full == old(self)@.full + p@,
                None => (content is None || content->0@.len() == 0) && final(self)@.full == old(self)@.full,
            },
    {
        match content {
            Some(p) => if p.as_str().is_empty() {
                None
            } else {
                self.full.append(p.as_str());
                Some(p)
            },
            None => None,
        }
    }

    /// Receives bytes of the stream. Gives the pieces of text in them and
    /// whether the end mark was read.
    pub fn attempt_stream(&mut self, bytes: &[u8]) -> (r: (Vec<String>, bool))
        ensures
            ({
                let (pieces, left, done) = stream_pieces(
                    old(self)@.pending + strings::decoded(bytes@),
                );
                &&& strings::views(r.0@) == pieces
                &&& r.1 == done
                &&& final(self)@.pending == left
                &&& final(self)@.full == old(self)@.full + pieces.flatten()
            }),
    {
        self.lines.push(bytes);
        let ghost goal = stream_pieces(self.lines@);
        let ghost before = self.full@;
        let mut out: Vec<String> = Vec::new();
        let mut more: bool = true;
        let mut done: bool = false;
        proof {
            assert(strings::views(out@) =~= Seq::<Seq<char>>::empty());
            assert(strings::views(out@) + goal.0 =~= goal.0);
            assert(strings::views(out@).flatten() =~= Seq::<char>::empty());
            assert(before + Seq::<char>::empty() =~= before);
        }
        while more
            invariant
                more ==> !done,
                more ==> goal == ({
                    let (pieces, left, d) = stream_pieces(self.lines@);
                    (strings::views(out@) + pieces, left, d)
                }),
                !more ==> goal == (strings::views(out@), self.lines@, done),
                self.full@ == before + strings::views(out@).flatten(),
            decreases self.lines@.len(), (if more { 1int } else { 0int }),
        {
            let ghost here = self.lines@;
            let ghost known = strings::views(out@);
            proof {
                sse::lemma_sse_next(here);
            }
            match self.lines.next() {
                SseStep::Wait => {
                    more = false;
                    assert(known + Seq::<Seq<char>>::empty() =~= known);
                },
                SseStep::Done => {
                    more = false;
                    done = true;
                    assert(known + Seq::<Seq<char>>::empty() =~= known);
                },
                SseStep::Data(d) => {
                    let content = read_piece(d.as_str());
                    let ghost rest = stream_pieces(self.lines@);
                    match self.accept(content) {
                        Some(p) => {
                            proof {
                                strings::lemma_views_push(out@, p);
                                strings::lemma_flatten_push(known, p@);
                                assert((before + known.flatten()) + p@ =~= before + (
                                known.flatten() + p@));
                                assert(known + (seq![p@] + rest.0) =~= known.push(p@) + rest.0);
                            }
                            out.push(p);
                        },
                        None => {},
                    }
                },
            }
        }
        (out, done)
    }

    /// The text read so far.
    pub fn text(self) -> (r: String)
        ensures
            r@ == self@.full,
    {
        self.full
    }
}

/// What to do after an attempt.
#[derive(Debug)]
pub enum CallStep {
    /// The answer is complete.
    Answer(String),
    /// The stream gave nothing: send the request without streaming.
    Plain,
    /// Wait this many milliseconds and start again.
    Retry(u64),
    /// Give up.
    Fail(LlmError),
}

/// The pause in milliseconds after the given number of retries; it doubles
/// every time.
pub open spec fn backoff_ms(retries: u32) -> int
    decreases retries,
{
    if retries == 0 {
        BACKOFF_BASE_MS as int
    } else {
        2 * backoff_ms((retries - 1) as u32)
    }
}

/// A request and its retries.
#[derive(Debug)]
pub struct StreamCall {
    retries: u32,
}

impl View for StreamCall {
    type V = u32;

    closed spec fn view(&self) -> u32 {
        self.retries
    }
}

/// What comes of an attempt that failed.
pub open spec fn after_failure(retries: u32, e: LlmError, step: CallStep, later: u32) -> bool {
    if retries < MAX_RETRIES && e.may_pass() {
        &&& later == retries + 1
        &&& step matches CallStep::Retry(ms) && ms == backoff_ms(retries)
    } else {
        later == retries && step == CallStep::Fail(e)
    }
}

impl StreamCall {
    /// Tries again or gives up.
    fn failed(&mut self, e: LlmError) -> (r: CallStep)
        requires
            old(self)@ <= MAX_RETRIES,
        ensures
            final(self)@ <= MAX_RETRIES,
            after_failure(old(self)@, e, r, final(self)@),
    {
        if self.retries < MAX_RETRIES && e.retryable() {
            reveal_with_fuel(backoff_ms, 3);
            let delay: u64 = if self.retries == 0 {
                BACKOFF_BASE_MS
            } else {
                BACKOFF_BASE_MS * 2
            };
            self.retries = self.retries + 1;
            CallStep::Retry(delay)
        } else {
            CallStep::Fail(e)
        }
    }

    /// What to do after a stream has ended with the given text.
    pub fn on_stream_end(&self, full: String) -> (r: CallStep)
        ensures
            r == if strings::blank(full@) {
                CallStep::Plain
            } else {
                CallStep::Answer(full)
            },
    {
        if strings::is_blank(full.as_str()) {
            CallStep::Plain
        } else {
            CallStep::Answer(full)
        }
    }

    /// What to do after a stream or a plain request has failed.
    pub fn on_error(&mut self, e: LlmError) -> (r: CallStep)
        requires
            old(self)@ <= MAX_RETRIES,
        ensures
            final(self)@ <= MAX_RETRIES,
            after_failure(old(self)@, e, r, final(self)@),
            r is Retry <==> old(self)@ < 2 && (e is Http || (e matches LlmError::Api {
                status: s,
                body: _,
            } && (s == 429 || 500 <= s <= 599))),
            r matches CallStep::Retry(ms) ==> ms == if old(self)@ == 0 {
                1500u64
            } else {
                3000u64
            },
            !(r is Retry) ==> r == CallStep::Fail(e) && final(self)@ == old(self)@,
    {
        reveal_with_fuel(backoff_ms, 2);
        self.failed(e)
    }

    /// What to do after a plain request has given a text. An empty one is not
    /// asked for again.
    pub fn on_plain(&self, text: String) -> (r: CallStep)
        ensures
            r == if strings::blank(text@) {
                CallStep::Fail(LlmError::Empty)
            } else {
                CallStep::Answer(text)
            },
    {
        if strings::is_blank(text.as_str()) {
            CallStep::Fail(LlmError::Empty)
        } else {
            CallStep::Answer(text)
        }
    }
}

impl LlmClient {
    /// A client for an API.
    pub fn new(base_url: &str, api_key: &str) -> (r: LlmClient)
        ensures
            r@ == (LlmClientView {
                base_url: strings::trim_end_char(base_url@, '/'),
                api_key: api_key@,
            }),
    {
        let cs = strings::chars_of(base_url);
        LlmClient {
            base_url: strings::string_of(strings::slice_trim_end_char(cs.as_slice(), '/')),
            api_key: api_key.to_owned(),
        }
    }

    /// The key of the API.
    pub fn api_key(&self) -> (r: &str)
        ensures
            r@ == self@.api_key,
    {
        self.api_key.as_str()
    }

    /// The address of the endpoint for conversations.
    pub fn chat_url(&self) -> (r: String)
        ensures
            r@ == llm::endpoint(self@.base_url),
    {
        llm::endpoint_of(self.base_url.as_str())
    }

    /// The error for an answer with an error status: the explanation of the
    /// provider, or the start of the answer.
    pub fn parse_api_error(status: u16, body: &str) -> (r: LlmError)
        ensures
            ({
                let (error_message, message) = error_fields(json::parsed(body@));
                match r {
                    LlmError::Api { status: s, body: b } => s == status && b@ == explanation(
                        error_message,
                        message,
                        body@,
                    ),
                    _ => false,
                }
            }),
    {
        let fields = read_error_fields(body);
        api_error(status, body, fields)
    }

    /// Starts a request whose answer is streamed.
    pub fn stream_chat(&self) -> (r: StreamCall)
        ensures
            r@ == 0,
    {
        StreamCall { retries: 0 }
    }

    /// The answer to a plain request. A status other than success and an
    /// answer that is not JSON are errors; an answer without text is empty.
    pub fn attempt_plain(status: u16, body: &str) -> (r: Result<String, LlmError>)
        ensures
            match r {
                Ok(text) => llm::success(status) && json::parsed(body@) is Some && text@
                    == plain_text(answer_text(json::parsed(body@))),
                Err(e) => if llm::success(status) {
                    &&& json::parsed(body@) is None
                    &&& e matches LlmError::Api { status: s, body: b } && s == status && b@
                        == strings::take_chars(body@, llm::ERROR_PREVIEW_CHARS as int)
                } else {
                    let (error_message, message) = error_fields(json::parsed(body@));
                    e matches LlmError::Api { status: s, body: b } && s == status && b@
                        == explanation(error_message, message, body@)
                },
            },
    {
        if !(200 <= status && status < 300) {
            return Err(LlmClient::parse_api_error(status, body));
        }
        match json::parse(body) {
            Some(v) => {
                let choice = json::first_of(json::child_of(Some(&v), "choices"));
                let text = json::text_in(
                    json::child_of(json::child_of(choice, "message"), "content"),
                );
                Ok(text_or_empty(text))
            },
            None => Err(
                LlmError::Api {
                    status: status,
                    body: strings::first_chars(body, llm::ERROR_PREVIEW_CHARS),
                },
            ),
        }
    }
}

/// The text of an answer; an answer without one is empty.
pub open spec fn plain_text(content: Option<Seq<char>>) -> Seq<char> {
    match content {
        Some(c) => c,
        None => Seq::empty(),
    }
}

/// See [`plain_text`].
pub fn text_or_empty(content: Option<String>) -> (r: String)
    ensures
        r@ == plain_text(strings::optional(content)),
{
    match content {
        Some(c) => c,
        None => {
            let r = String::new();
            assert(r@ =~= Seq::<char>::empty());
            r
        },
    }
}

/// The pieces that a stream gives do not depend on where it is cut: reading
/// two texts one after the other gives what reading them at once gives, unless
/// the first ends the stream.
pub proof fn law_stream_cut_anywhere(a: Seq<char>, b: Seq<char>)
    requires
        !stream_pieces(a).2,
    ensures
        ({
            let first = stream_pieces(a);
            let second = stream_pieces(first.1 + b);
            let whole = stream_pieces(a + b);
            &&& whole.0 == first.0 + second.0
            &&& whole.1 == second.1
            &&& whole.2 == second.2
        }),
    decreases a.len(),
{
    lemma_sse_prefix(a, b);
    sse::lemma_sse_next(a);
    let (step, rest) = sse::sse_next(a);
    match step {
        sse::SseStepView::Wait => {
            sse::lemma_sse_next(a + b);
            sse::lemma_sse_next(rest + b);
            assert(Seq::<Seq<char>>::empty() + stream_pieces(rest + b).0 =~= stream_pieces(
                rest + b,
            ).0);
        },
        sse::SseStepView::Done => {},
        sse::SseStepView::Data(d) => {
            law_stream_cut_anywhere(rest, b);
            let more = stream_pieces(rest).0;
            let second = stream_pieces(stream_pieces(rest).1 + b);
            match event_piece(json::parsed(d)) {
                Some(p) => {
                    assert(seq![p] + (more + second.0) =~= (seq![p] + more) + second.0);
                },
                None => {},
            }
        },
    }
}

/// More text behind does not change what is read first; if the reader waits,
/// the rest is read together with what comes.
proof fn lemma_sse_prefix(a: Seq<char>, b: Seq<char>)
    ensures
        match sse::sse_next(a).0 {
            sse::SseStepView::Wait => sse::sse_next(a + b) == sse::sse_next(
                sse::sse_next(a).1 + b,
            ),
            step => sse::sse_next(a + b) == (step, sse::sse_next(a).1 + b),
        },
    decreases a.len(),
{
    let feed = seq!['\n'];
    let ab = a + b;
    strings::lemma_find_from(a, feed, 0);
    strings::lemma_find_from(ab, feed, 0);
    match strings::find(a, feed) {
        None => {},
        Some(p) => {
            assert(ab.subrange(p, p + 1) =~= a.subrange(p, p + 1));
            let q = strings::find(ab, feed)->0;
            assert(q <= p);
            if q < p {
                assert(a.subrange(q, q + 1) =~= ab.subrange(q, q + 1));
            }
            assert(ab.take(p + 1) =~= a.take(p + 1));
            assert(ab.skip(p + 1) =~= a.skip(p + 1) + b);
            if sse::line_data(a.take(p + 1)) is None {
                lemma_sse_prefix(a.skip(p + 1), b);
            }
        },
    }
}

} // verus!
