//! Messages that are not commands.

use vstd::prelude::*;

use crate::handlers::access;
use crate::handlers::guides;
use crate::handlers::guides::DocumentStep;
use crate::handlers::guides::DocumentStepView;
use crate::handlers::replies;
use crate::handlers::AppState;
use crate::handlers::AppStateView;
use crate::memory::MemoryManagerView;
use crate::strings;
use crate::telegram::Incoming;
use crate::telegram::IncomingView;
use crate::text;

verus! {

/// The longest message that is sent in bytes.
pub const MESSAGE_BYTES: usize = 3900;

/// How many characters of an answer on its way are shown.
pub const PREVIEW_CHARS: usize = 3800;

/// The message that stands in for an answer on its way.
pub const PLACEHOLDER: &'static str = "💬 Думаю...";

/// The message for an answer that did not come.
pub const FAILED_TEXT: &'static str = "⚠️ Не удалось получить ответ от нейросети (сбой провайдера или лимит API). Попробуй ещё раз чуть позже.";

/// What to do about a message.
#[derive(Debug)]
pub enum MessageStep {
    /// Nothing.
    Ignore,
    /// Send a message to the chat.
    Send(String),
    /// The message holds a file.
    Document(DocumentStep),
    /// The tag of the bot cannot be cut off a word of the message.
    Unreadable,
    /// There are too many requests: the number that is allowed and the window
    /// in seconds.
    TooOften(usize, u64),
    /// Ask the model.
    Ask { user_id: i64, chat_id: i64, display_name: String, question: String },
}

/// What a [`MessageStep`] holds.
pub enum MessageStepView {
    Ignore,
    Send(Seq<char>),
    Document(DocumentStepView),
    Unreadable,
    TooOften(usize, u64),
    Ask { user_id: i64, chat_id: i64, display_name: Seq<char>, question: Seq<char> },
}

impl View for MessageStep {
    type V = MessageStepView;

    open spec fn view(&self) -> MessageStepView {
        match self {
            MessageStep::Ignore => MessageStepView::Ignore,
            MessageStep::Send(t) => MessageStepView::Send(t@),
            MessageStep::Document(d) => MessageStepView::Document(d@),
            MessageStep::Unreadable => MessageStepView::Unreadable,
            MessageStep::TooOften(max, secs) => MessageStepView::TooOften(*max, *secs),
            MessageStep::Ask { user_id, chat_id, display_name, question } => MessageStepView::Ask {
                user_id: *user_id,
                chat_id: *chat_id,
                display_name: display_name@,
                question: question@,
            },
        }
    }
}

/// The name of the author of a message; empty if there is none.
pub open spec fn author(msg: IncomingView) -> Seq<char> {
    match msg.from {
        Some(u) => replies::display_name(u),
        None => Seq::empty(),
    }
}

/// The state after a request of a user.
pub open spec fn with_request(s: AppStateView, user_id: i64, now: u64) -> AppStateView {
    AppStateView {
        mgr: MemoryManagerView {
            rate_limiter: s.mgr.rate_limiter.after(user_id, now),
            ..s.mgr
        },
        ..s
    }
}

/// What to do about a text that is not a command.
pub open spec fn text_step(s: AppStateView, msg: IncomingView, text: Seq<char>, now: u64) -> (
    AppStateView,
    MessageStepView,
) {
    let user_id = msg.user_id();
    if !replies::readable(msg, text, s.bot_username) {
        (s, MessageStepView::Unreadable)
    } else {
        let (yes, clean) = replies::answered(msg, s.bot_id, s.bot_username, text);
        if !yes {
            (s, MessageStepView::Ignore)
        } else if !s.mgr.rate_limiter.allows(user_id, now) {
            (
                with_request(s, user_id, now),
                MessageStepView::TooOften(
                    s.mgr.cfg.rate_limit_requests,
                    s.mgr.cfg.rate_limit_window_secs,
                ),
            )
        } else {
            (
                with_request(s, user_id, now),
                MessageStepView::Ask {
                    user_id: user_id,
                    chat_id: msg.chat_id,
                    display_name: author(msg),
                    question: replies::question(msg, s.bot_id, clean),
                },
            )
        }
    }
}

/// What to do about a message: nothing where the bot does not work, files
/// apart, commands in groups with a hint, and the rest if it is addressed to
/// the bot and not too frequent.
pub open spec fn received(s: AppStateView, msg: IncomingView, now: u64) -> (
    AppStateView,
    MessageStepView,
) {
    if !access::is_open(s.cfg, msg) {
        (s, MessageStepView::Ignore)
    } else {
        match msg.document {
            Some(d) => (s, MessageStepView::Document(guides::document_step(s, msg, d))),
            None => match msg.body() {
                None => (s, MessageStepView::Ignore),
                Some(text) => if text.len() > 0 && text[0] == '/' {
                    if msg.private {
                        (s, MessageStepView::Ignore)
                    } else {
                        (s, MessageStepView::Send(guides::redirect_text(s.bot_username)))
                    }
                } else {
                    text_step(s, msg, text, now)
                },
            },
        }
    }
}

/// Decides about a text that is not a command: see [`text_step`].
fn on_text(state: &mut AppState, msg: &Incoming, text: &str, now: u64) -> (r: MessageStep)
    requires
        old(state).mgr.wf(),
    ensures
        final(state).mgr.wf(),
        (final(state)@, r@) == text_step(old(state)@, msg@, text@, now),
{
    let user_id: i64 = msg.user_id();
    match replies::try_should_reply(msg, state, text) {
        None => MessageStep::Unreadable,
        Some((yes, clean)) => {
            if !yes {
                return MessageStep::Ignore;
            }
            let question = replies::compose_question(msg, state.bot_id, clean);
            let allowed: bool = state.mgr.check_rate_limit(user_id, now);
            if !allowed {
                return MessageStep::TooOften(
                    state.mgr.rate_limit_max(),
                    state.mgr.rate_limit_window_secs(),
                );
            }
            let display_name = match &msg.from {
                Some(u) => replies::extract_display_name(u),
                None => {
                    let none = String::new();
                    assert(none@ =~= Seq::<char>::empty());
                    none
                },
            };
            MessageStep::Ask {
                user_id: user_id,
                chat_id: msg.chat_id,
                display_name: display_name,
                question: question,
            }
        },
    }
}

/// Decides about a message at a time in nanoseconds: see [`received`].
pub fn on_message(state: &mut AppState, msg: &Incoming, now: u64) -> (r: MessageStep)
    requires
        old(state).mgr.wf(),
    ensures
        final(state).mgr.wf(),
        (final(state)@, r@) == received(old(state)@, msg@, now),
{
    if !access::is_allowed(&state.cfg, msg) {
        return MessageStep::Ignore;
    }
    match &msg.document {
        Some(d) => {
            return MessageStep::Document(guides::handle_document(state, msg, d));
        },
        None => {},
    }
    match msg.body() {
        None => MessageStep::Ignore,
        Some(text) => {
            proof {
                reveal_strlit("/");
                assert(text@.len() > 0 && text@[0] == '/' <==> "/"@.is_prefix_of(text@)) by {
                    if text@.len() > 0 {
                        assert(text@.subrange(0, 1)[0] == text@[0]);
                        if text@[0] == '/' {
                            assert("/"@ =~= text@.subrange(0, 1));
                        }
                    }
                }
            }
            if strings::starts_with(text, "/") {
                if msg.private {
                    MessageStep::Ignore
                } else {
                    MessageStep::Send(
                        guides::pm_redirect_message(guides::optional_str(&state.bot_username)),
                    )
                }
            } else {
                on_text(state, msg, text, now)
            }
        },
    }
}

/// The window of the limit for the user. A window that is no whole number of
/// minutes is given as a text.
pub open spec fn window_text(window_secs: u64, minutes: Seq<char>) -> Seq<char> {
    if window_secs < 60 {
        strings::decimal(window_secs as nat) + " сек."@
    } else if window_secs % 60 == 0 {
        strings::decimal((window_secs / 60) as nat) + " мин."@
    } else {
        minutes + " мин."@
    }
}

/// The answer to too many requests.
pub open spec fn too_often(max: usize, window_secs: u64, minutes: Seq<char>) -> Seq<char> {
    "⏳ Слишком частые запросы! Лимит — "@ + strings::decimal(max as nat) + " сообщений за "@
        + window_text(window_secs, minutes) + " Подожди немного и попробуй снова."@
}

/// See [`too_often`].
pub fn too_often_text(max: usize, window_secs: u64, minutes: &str) -> (r: String)
    ensures
        r@ == too_often(max, window_secs, minutes@),
{
    let mut window = String::new();
    assert(window@ =~= Seq::<char>::empty());
    if window_secs < 60 {
        window = strings::decimal_u64(window_secs);
        window.append(" сек.");
    } else if window_secs % 60 == 0 {
        window = strings::decimal_u64(window_secs / 60);
        window.append(" мин.");
    } else {
        window = minutes.to_owned();
        window.append(" мин.");
    }
    let mut out = "⏳ Слишком частые запросы! Лимит — ".to_owned();
    out.append(strings::decimal_u64(max as u64).as_str());
    out.append(" сообщений за ");
    out.append(window.as_str());
    out.append(" Подожди немного и попробуй снова.");
    out
}

/// What of an answer on its way is new, and the message that shows it; nothing
/// if there is nothing new.
pub fn progress(received: &str, shown: &str) -> (r: Option<(String, String)>)
    ensures
        match r {
            Some((now_shown, message)) => {
                &&& !strings::blank(received@)
                &&& strings::trim(received@) != shown@
                &&& now_shown@ == strings::trim(received@)
                &&& message@ == strings::take_chars(now_shown@, PREVIEW_CHARS as int) + " ▌"@
            },
            None => strings::blank(received@) || strings::trim(received@) == shown@,
        },
        r matches Some((now_shown, message)) ==> message@ == strings::take_chars(now_shown@, 3800)
            + " ▌"@,
{
    let text = strings::trimmed(received);
    if text.as_str().is_empty() || strings::str_eq(text.as_str(), shown) {
        return None;
    }
    let mut message = strings::first_chars(text.as_str(), PREVIEW_CHARS);
    message.append(" ▌");
    Some((text, message))
}

/// The messages that an answer is sent in; nothing for a blank answer.
pub fn final_messages(answer: &str) -> (r: Option<Vec<String>>)
    ensures
        match r {
            Some(chunks) => !strings::blank(answer@) && strings::views(chunks@)
                == text::telegram_chunks(strings::trim(answer@), MESSAGE_BYTES as int),
            None => strings::blank(answer@),
        },
        r matches Some(chunks) ==> text::slices_of(
            strings::views(chunks@),
            strings::trim(answer@),
        ) && forall|i: int|
            0 <= i < chunks@.len() ==> strings::byte_len(
                #[trigger] strings::views(chunks@)[i],
            ) <= 3900,
{
    proof {
        strings::lemma_trim_twice(answer@);
        text::law_telegram_chunks_fit(strings::trim(answer@), 3900);
        text::law_telegram_chunks_keep_text(strings::trim(answer@), 3900);
    }
    let answer_text = strings::trimmed(answer);
    if answer_text.as_str().is_empty() {
        return None;
    }
    Some(text::split_telegram(answer_text.as_str(), MESSAGE_BYTES))
}

/// A message that is passed over leaves everything as it was, and one that is
/// answered counts as a request of its author.
pub proof fn law_ignored_changes_nothing(s: AppStateView, msg: IncomingView, now: u64)
    ensures
        match received(s, msg, now).1 {
            MessageStepView::TooOften(_, _) => received(s, msg, now).0 == with_request(
                s,
                msg.user_id(),
                now,
            ) && !s.mgr.rate_limiter.allows(msg.user_id(), now),
            MessageStepView::Ask { .. } => received(s, msg, now).0 == with_request(
                s,
                msg.user_id(),
                now,
            ) && s.mgr.rate_limiter.allows(msg.user_id(), now),
            _ => received(s, msg, now).0 == s,
        },
{
}

} // verus!
