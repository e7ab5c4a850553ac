//! Messages in chats: which are answered, what the model is asked, and what
//! becomes of its answer.

use vstd::prelude::*;
use vstd::slice::slice_subrange;

use crate::bot::App;
use crate::bot::AppView;
use crate::config::DEFAULT_SYSTEM_PROMPT;
use crate::knowledge::matcher;
use crate::llm::client::ChatMessage;
use crate::llm::client::ChatMessageView;
use crate::llm::client::LlmError;
use crate::llm::prompt;
use crate::llm::prompt::PromptParts;
use crate::storage;
use crate::storage::DialogueRow;
use crate::storage::DialogueRowView;
use crate::storage::Role;
use crate::storage::StateRowView;
use crate::storage::StoreView;
use crate::storage::StoredMessage;
use crate::storage::StoredMessageView;
use crate::storage::UserState;
use crate::storage::UserStateView;
use crate::strings;
use crate::telegram::Incoming;
use crate::telegram::IncomingView;
use crate::telegram::Sender;
use crate::telegram::SenderView;
use crate::utils::sanitizer;
use crate::utils::text;

verus! {

/// The message that stands for an answer on its way.
pub const PLACEHOLDER: &'static str = "💬 Думаю…";

/// The length of a message in characters.
pub const TG_CHUNK: usize = 3900;

/// The length of the preview of an answer on its way in characters.
pub const PREVIEW_CHARS: usize = 3800;

/// How many characters of another message go into a question.
pub const QUOTE_CHARS: usize = 400;

/// How many participants the model is told about.
pub const MAX_PARTICIPANTS: usize = 6;

/// The answer to administrators in private chats.
pub const ADMIN_TEXT: &'static str = "В ЛС доступны только команды: /model, /help, /start.";

/// The answer to others in private chats.
pub const PRIVATE_TEXT: &'static str = "Бот отвечает только в группах. Обратись к админу, если тебя добавили в чат.";

/// What a user who gave no text asks about a message.
pub const EXPLAIN_TEXT: &'static str = "Разбери сообщение выше.";

/// The name for a user: the full name, or else the username or the id.
pub open spec fn display_name(u: SenderView) -> Seq<char> {
    if !strings::blank(u.full_name()) {
        u.full_name()
    } else {
        match u.username {
            Some(name) => name,
            None => "id"@ + strings::decimal(u.id as nat),
        }
    }
}

/// See [`display_name`].
fn display_name_of(user: &Sender) -> (r: String)
    ensures
        r@ == display_name(user@),
{
    let full = user.full_name();
    if !strings::is_blank(full.as_str()) {
        return full;
    }
    match &user.username {
        Some(name) => name.clone(),
        None => {
            let mut out = "id".to_owned();
            out.append(strings::decimal_u64(user.id).as_str());
            out
        },
    }
}

/// The topic of a message; zero if there is none.
pub open spec fn thread(msg: IncomingView) -> i64 {
    match msg.thread_id {
        Some(t) => t as i64,
        None => 0,
    }
}

/// See [`thread`].
pub fn thread_of(msg: &Incoming) -> (r: i64)
    ensures
        r == thread(msg@),
{
    match msg.thread_id {
        Some(t) => t as i64,
        None => 0,
    }
}

/// A text mentions the bot, whatever the case of its letters.
pub open spec fn mentions(body: Option<Seq<char>>, bot: Seq<char>) -> bool {
    match body {
        Some(t) => strings::occurs(strings::lowercase(t), "@"@ + strings::lowercase(bot)),
        None => false,
    }
}

/// A message replies to one of the user.
pub open spec fn replies_to(msg: IncomingView, user_id: u64) -> bool {
    match msg.reply {
        Some(r) => match r.from {
            Some(u) => u.id == user_id,
            None => false,
        },
        None => false,
    }
}

/// A message mentions the bot or replies to it.
pub open spec fn triggers(msg: IncomingView, a: AppView) -> bool {
    mentions(msg.body(), a.bot_username) || replies_to(msg, a.bot_id)
}

/// See [`triggers`].
fn is_triggered(msg: &Incoming, app: &App) -> (r: bool)
    ensures
        r == triggers(msg@, app@),
{
    let mut mention = "@".to_owned();
    mention.append(app.bot_username.as_str().to_lowercase().as_str());
    match msg.body() {
        Some(t) => {
            let lower = t.to_lowercase();
            if strings::contains(lower.as_str(), mention.as_str()) {
                return true;
            }
        },
        None => {},
    }
    match &msg.reply {
        Some(reply) => match &reply.from {
            Some(author) => author.id == app.bot_id,
            None => false,
        },
        None => false,
    }
}

/// The beginning of the message that is replied to, with its author; nothing
/// if it has no text.
pub open spec fn quoted(msg: IncomingView) -> Option<Seq<char>> {
    match msg.reply {
        Some(r) => {
            let body = match r.body() {
                Some(b) => b,
                None => Seq::empty(),
            };
            let preview = strings::take_chars(body, QUOTE_CHARS as int);
            let author = match r.from {
                Some(u) => display_name(u),
                None => "неизвестный"@,
            };
            if strings::blank(preview) {
                None
            } else {
                Some(
                    "\n[В ответ на сообщение от "@ + author + ": \""@ + preview + "\"]"@,
                )
            }
        },
        None => None,
    }
}

/// See [`quoted`].
fn quote_of(msg: &Incoming) -> (r: Option<String>)
    ensures
        strings::optional(r) == quoted(msg@),
{
    match &msg.reply {
        Some(reply) => {
            let preview = match reply.body() {
                Some(body) => strings::first_chars(body, QUOTE_CHARS),
                None => {
                    let none = String::new();
                    assert(none@ =~= Seq::<char>::empty());
                    none
                },
            };
            if strings::is_blank(preview.as_str()) {
                return None;
            }
            let author = match &reply.from {
                Some(user) => display_name_of(user),
                None => "неизвестный".to_owned(),
            };
            let mut out = "\n[В ответ на сообщение от ".to_owned();
            out.append(author.as_str());
            out.append(": \"");
            out.append(preview.as_str());
            out.append("\"]");
            Some(out)
        },
        None => None,
    }
}

/// The question: the text without the mention of the bot, and what it replies
/// to. Nothing if there is neither.
pub open spec fn trigger_text(msg: IncomingView, raw: Seq<char>, bot: Seq<char>) -> Option<
    Seq<char>,
> {
    let text = sanitizer::without_mention(raw, bot);
    match quoted(msg) {
        Some(q) => Some(
            (if strings::blank(text) {
                EXPLAIN_TEXT@
            } else {
                text
            }) + q,
        ),
        None => if strings::blank(text) {
            None
        } else {
            Some(text)
        },
    }
}

/// See [`trigger_text`].
fn build_trigger_text(msg: &Incoming, raw_text: &str, app: &App) -> (r: Option<String>)
    ensures
        strings::optional(r) == trigger_text(msg@, raw_text@, app@.bot_username),
{
    let mut text = sanitizer::remove_bot_mention(raw_text, app.bot_username.as_str());
    match quote_of(msg) {
        Some(q) => {
            if strings::is_blank(text.as_str()) {
                text = EXPLAIN_TEXT.to_owned();
            }
            text.append(q.as_str());
            Some(text)
        },
        None => if strings::is_blank(text.as_str()) {
            None
        } else {
            Some(text)
        },
    }
}

/// What to do about a message.
#[derive(Debug)]
pub enum MessageStep {
    /// Nothing.
    Ignore,
    /// Send a message to the chat.
    Send(String),
    /// Reply to the message.
    Reply(String),
    /// Ask the model.
    Generate { user_id: i64, prompt: String },
}

/// What a [`MessageStep`] holds.
pub enum MessageStepView {
    Ignore,
    Send(Seq<char>),
    Reply(Seq<char>),
    Generate { user_id: i64, prompt: Seq<char> },
}

impl View for MessageStep {
    type V = MessageStepView;

    open spec fn view(&self) -> MessageStepView {
        match self {
            MessageStep::Ignore => MessageStepView::Ignore,
            MessageStep::Send(t) => MessageStepView::Send(t@),
            MessageStep::Reply(t) => MessageStepView::Reply(t@),
            MessageStep::Generate { user_id, prompt } => MessageStepView::Generate {
                user_id: *user_id,
                prompt: prompt@,
            },
        }
    }
}

/// The answer in a private chat.
pub open spec fn private_answer(a: AppView, msg: IncomingView) -> MessageStepView {
    if msg.from is None {
        MessageStepView::Ignore
    } else if a.cfg.admins.contains(msg.user_id()) {
        MessageStepView::Send(ADMIN_TEXT@)
    } else {
        MessageStepView::Send(PRIVATE_TEXT@)
    }
}

/// See [`private_answer`].
fn private_stub(app: &App, msg: &Incoming) -> (r: MessageStep)
    ensures
        r@ == private_answer(app@, msg@),
{
    match &msg.from {
        None => MessageStep::Ignore,
        Some(_) => if app.cfg.is_admin(msg.user_id()) {
            MessageStep::Send(ADMIN_TEXT.to_owned())
        } else {
            MessageStep::Send(PRIVATE_TEXT.to_owned())
        },
    }
}

/// The answer to too many requests. The time to wait is in nanoseconds.
pub open spec fn wait_text(wait: u64) -> Seq<char> {
    let secs = wait as nat / 1_000_000_000;
    "Слишком часто. Подожди "@ + strings::decimal(
        if secs < 1 {
            1
        } else {
            secs
        },
    ) + " с."@
}

/// See [`wait_text`].
fn wait_text_of(wait: u64) -> (r: String)
    ensures
        r@ == wait_text(wait),
{
    let secs: u64 = wait / 1_000_000_000;
    let mut out = "Слишком часто. Подожди ".to_owned();
    out.append(
        strings::decimal_u64(
            if secs < 1 {
                1
            } else {
                secs
            },
        ).as_str(),
    );
    out.append(" с.");
    out
}

/// A text is a command.
pub open spec fn is_command(text: Seq<char>) -> bool {
    let t = strings::trim_start(text);
    t.len() > 0 && t[0] == '/'
}

/// See [`is_command`].
fn looks_like_command(text: &str) -> (r: bool)
    ensures
        r == is_command(text@),
{
    let cs = strings::chars_of(text);
    let t = strings::slice_trim_start(cs.as_slice());
    t.len() > 0 && t[0] == '/'
}

/// The user of the message may be answered in this place: it is a person, the
/// text is no command, and it is addressed to the bot in an allowed topic.
pub open spec fn heard(a: AppView, msg: IncomingView) -> bool {
    &&& msg.from matches Some(u)
    &&& !u.is_bot
    &&& msg.body() matches Some(raw)
    &&& !is_command(raw)
    &&& a.cfg.allows_chat(msg.chat_id)
    &&& a.cfg.allows_thread(thread(msg))
    &&& triggers(msg, a)
}

/// What a message in a group leads to: the state after it and what to do.
pub open spec fn group_answer(a: AppView, msg: IncomingView, now: u64) -> (
    AppView,
    MessageStepView,
) {
    if !heard(a, msg) {
        (a, MessageStepView::Ignore)
    } else {
        let id = msg.from->0.id;
        let noted = AppView { limiter: a.limiter.after(id, now), ..a };
        match a.limiter.wait(id, now) {
            Some(wait) => (noted, MessageStepView::Reply(wait_text(wait))),
            None => match trigger_text(msg, msg.body()->0, a.bot_username) {
                Some(text) => (
                    noted,
                    MessageStepView::Generate { user_id: msg.user_id(), prompt: text },
                ),
                None => (noted, MessageStepView::Ignore),
            },
        }
    }
}

/// See [`group_answer`].
fn handle_group(app: &mut App, msg: &Incoming, now: u64) -> (r: MessageStep)
    ensures
        final(app).wf() == old(app).wf(),
        (final(app)@, r@) == group_answer(old(app)@, msg@, now),
{
    let id: u64 = match &msg.from {
        Some(u) => if u.is_bot {
            return MessageStep::Ignore;
        } else {
            u.id
        },
        None => {
            return MessageStep::Ignore;
        },
    };
    let raw_text: &str = match msg.body() {
        Some(t) => t,
        None => {
            return MessageStep::Ignore;
        },
    };
    if looks_like_command(raw_text) {
        return MessageStep::Ignore;
    }
    if !app.cfg.is_chat_allowed(msg.chat_id) {
        return MessageStep::Ignore;
    }
    if !app.cfg.is_thread_allowed(thread_of(msg)) {
        return MessageStep::Ignore;
    }
    if !is_triggered(msg, app) {
        return MessageStep::Ignore;
    }
    match app.limiter.check_and_record(id, now) {
        Some(wait) => {
            return MessageStep::Reply(wait_text_of(wait));
        },
        None => {},
    }
    match build_trigger_text(msg, raw_text, app) {
        Some(prompt) => MessageStep::Generate { user_id: msg.user_id(), prompt: prompt },
        None => MessageStep::Ignore,
    }
}

/// What a message leads to: the state after it and what to do.
pub open spec fn received(a: AppView, msg: IncomingView, now: u64) -> (AppView, MessageStepView) {
    if msg.private {
        (a, private_answer(a, msg))
    } else {
        group_answer(a, msg, now)
    }
}

/// Decides about a message: see [`received`]. The time is in nanoseconds.
pub fn message(app: &mut App, msg: &Incoming, now: u64) -> (r: MessageStep)
    ensures
        final(app).wf() == old(app).wf(),
        (final(app)@, r@) == received(old(app)@, msg@, now),
{
    if msg.private {
        return private_stub(app, msg);
    }
    handle_group(app, msg, now)
}

/// The participants that the model is told about: those already listed, and
/// the authors of the newest messages.
pub open spec fn participants(ids: Seq<i64>, history: Seq<StoredMessageView>) -> Seq<i64>
    decreases history.len(),
{
    if history.len() == 0 {
        ids
    } else {
        let author = history.last().user_id;
        let more = if author != 0 && !ids.contains(author) {
            ids.push(author)
        } else {
            ids
        };
        if more.len() >= MAX_PARTICIPANTS {
            more
        } else {
            participants(more, history.drop_last())
        }
    }
}

/// An id is in the list.
fn is_listed(ids: &Vec<i64>, id: i64) -> (r: bool)
    ensures
        r == ids@.contains(id),
{
    let mut i: usize = 0;
    while i < ids.len()
        invariant
            i <= ids@.len(),
            forall|k: int| 0 <= k < i ==> ids@[k] != id,
        decreases ids@.len() - i,
    {
        if ids[i] == id {
            return true;
        }
        i += 1;
    }
    false
}

/// The author of a question and other participants: see [`participants`].
fn participant_ids(user_id: i64, history: &Vec<StoredMessage>) -> (r: Vec<i64>)
    ensures
        r@ == participants(seq![user_id], storage::message_views(history@)),
{
    let ghost all = storage::message_views(history@);
    let ghost goal = participants(seq![user_id], all);
    let mut ids: Vec<i64> = Vec::new();
    ids.push(user_id);
    let mut i: usize = history.len();
    assert(ids@ =~= seq![user_id]);
    assert(all.take(i as int) =~= all);
    while i > 0
        invariant
            i <= history@.len(),
            all == storage::message_views(history@),
            goal == participants(seq![user_id], all),
            participants(ids@, all.take(i as int)) == goal,
        decreases i,
    {
        assert(all.take(i as int).last() == history@[i - 1]@);
        assert(all.take(i as int).drop_last() =~= all.take(i - 1));
        i -= 1;
        let author: i64 = history[i].user_id;
        if author != 0 && !is_listed(&ids, author) {
            ids.push(author);
        }
        if ids.len() >= MAX_PARTICIPANTS {
            return ids;
        }
    }
    assert(all.take(0) =~= Seq::<StoredMessageView>::empty());
    ids
}

/// The name of the author of a message; empty if there is none.
pub open spec fn author_name(msg: IncomingView) -> Seq<char> {
    match msg.from {
        Some(u) => display_name(u),
        None => Seq::empty(),
    }
}

/// See [`author_name`].
pub fn author_name_of(msg: &Incoming) -> (r: String)
    ensures
        r@ == author_name(msg@),
{
    match &msg.from {
        Some(u) => display_name_of(u),
        None => {
            let none = String::new();
            assert(none@ =~= Seq::<char>::empty());
            none
        },
    }
}

/// A question signed with the name and the id of its author, if both are
/// known.
pub open spec fn question(user_id: i64, name: Seq<char>, text: Seq<char>) -> Seq<char> {
    if user_id != 0 && name.len() > 0 {
        name + " (id="@ + strings::decimal_int(user_id as int) + "): "@ + text
    } else {
        text
    }
}

/// See [`question`].
fn question_of(user_id: i64, name: &str, text: &str) -> (r: String)
    ensures
        r@ == question(user_id, name@, text@),
{
    if user_id == 0 || name.is_empty() {
        return text.to_owned();
    }
    let mut out = name.to_owned();
    out.append(" (id=");
    out.append(strings::decimal_i64(user_id).as_str());
    out.append("): ");
    out.append(text);
    out
}

/// The number of characters of a dialogue that are kept in mind.
pub open spec fn window_chars(a: AppView) -> nat {
    a.cfg.message_window_tokens * 3
}

/// The history of the dialogue that a message belongs to.
pub open spec fn history_of(a: AppView, msg: IncomingView) -> Seq<StoredMessageView> {
    storage::recent(
        storage::dialogue(a.store.messages, msg.chat_id, thread(msg)),
        0,
        false,
        window_chars(a) as int,
    )
}

/// The request to the model about a question: the knowledge base, the
/// participants and the history as they were before it.
pub open spec fn request(
    a: AppView,
    msg: IncomingView,
    user_id: i64,
    text: Seq<char>,
) -> Seq<ChatMessageView> {
    let history = history_of(a, msg);
    let hits = matcher::matches_for(
        a.cards,
        text,
        a.cfg.knowledge_top_n as int,
        a.cfg.knowledge_max_chars as int,
    );
    prompt::composed(
        DEFAULT_SYSTEM_PROMPT@,
        prompt::knowledge_text(hits),
        storage::states_of(a.store.states, participants(seq![user_id], history)),
        history,
        question(user_id, author_name(msg), text),
    )
}

/// The bot after a message of the dialogue has been noted.
pub open spec fn noted(
    a: AppView,
    msg: IncomingView,
    message: StoredMessageView,
    now: i64,
) -> AppView {
    let row = DialogueRowView {
        chat_id: msg.chat_id,
        thread_id: thread(msg),
        message: message,
        created_at: now,
    };
    AppView { store: StoreView { messages: a.store.messages.push(row), ..a.store }, ..a }
}

/// The message of the history that a question leaves.
pub open spec fn user_message(msg: IncomingView, user_id: i64, text: Seq<char>) -> StoredMessageView {
    StoredMessageView {
        user_id: user_id,
        display_name: author_name(msg),
        role: Role::User,
        content: text,
    }
}

/// Notes a message of the dialogue: see [`noted`].
fn note(app: &mut App, msg: &Incoming, message: StoredMessage, now: i64)
    ensures
        final(app).wf() == old(app).wf(),
        final(app)@ == noted(old(app)@, msg@, message@, now),
{
    app.store.insert_message(
        DialogueRow {
            chat_id: msg.chat_id,
            thread_id: thread_of(msg),
            message: message,
            created_at: now,
        },
    );
}

/// Titled texts of the knowledge base as one text.
fn knowledge_of(hits: &Vec<(String, String)>) -> (r: String)
    ensures
        r@ == prompt::knowledge_text(matcher::pair_views(hits@)),
{
    let mut parts: Vec<(&str, &str)> = Vec::new();
    let mut i: usize = 0;
    while i < hits.len()
        invariant
            i <= hits@.len(),
            parts@.len() == i,
            forall|k: int|
                0 <= k < i ==> (#[trigger] parts@[k]).0@ == hits@[k].0@ && parts@[k].1@
                    == hits@[k].1@,
        decreases hits@.len() - i,
    {
        let hit = &hits[i];
        parts.push((hit.0.as_str(), hit.1.as_str()));
        i += 1;
    }
    assert(prompt::hit_views(parts@) =~= matcher::pair_views(hits@));
    prompt::format_knowledge(parts.as_slice())
}

/// Notes a question and composes the request to the model: see [`request`].
/// The time is in seconds.
pub fn compose_request(
    app: &mut App,
    msg: &Incoming,
    user_id: i64,
    prompt_text: &str,
    now: i64,
) -> (r: Vec<ChatMessage>)
    requires
        old(app).wf(),
        matcher::all_stemmable(matcher::long_tokens(matcher::tokens(prompt_text@))),
    ensures
        final(app).wf(),
        final(app)@ == noted(
            old(app)@,
            msg@,
            user_message(msg@, user_id, prompt_text@),
            now,
        ),
        ChatMessage::views(r@) == request(old(app)@, msg@, user_id, prompt_text@),
{
    let ghost before = app@;
    let name = author_name_of(msg);
    let budget: usize = text::tokens_to_chars(app.cfg.message_window_tokens);
    let history = app.store.recent_messages(msg.chat_id, thread_of(msg), budget);
    let stored = StoredMessage {
        user_id: user_id,
        display_name: name.clone(),
        role: Role::User,
        content: prompt_text.to_owned(),
    };
    note(app, msg, stored, now);
    let ids = participant_ids(user_id, &history);
    let states = app.store.states_for_ids(ids.as_slice());
    let hits = app.matcher.match_query(
        prompt_text,
        app.cfg.knowledge_top_n,
        app.cfg.knowledge_max_chars,
    );
    let knowledge = knowledge_of(&hits);
    let current = question_of(user_id, name.as_str(), prompt_text);
    prompt::build_messages(
        PromptParts {
            system_prompt: DEFAULT_SYSTEM_PROMPT,
            knowledge: knowledge.as_str(),
            user_states: states.as_slice(),
            history: history.as_slice(),
            user_message: current.as_str(),
        },
    )
}

/// Notes a question and composes the request to the model, unless a word of
/// the question is too long for the stemmer.
pub fn try_compose_request(
    app: &mut App,
    msg: &Incoming,
    user_id: i64,
    prompt_text: &str,
    now: i64,
) -> (r: Option<Vec<ChatMessage>>)
    requires
        old(app).wf(),
    ensures
        final(app).wf(),
        match r {
            Some(messages) => {
                &&& matcher::all_stemmable(
                    matcher::long_tokens(matcher::tokens(prompt_text@)),
                )
                &&& final(app)@ == noted(
                    old(app)@,
                    msg@,
                    user_message(msg@, user_id, prompt_text@),
                    now,
                )
                &&& ChatMessage::views(messages@) == request(
                    old(app)@,
                    msg@,
                    user_id,
                    prompt_text@,
                )
            },
            None => final(app)@ == old(app)@ && !matcher::all_stemmable(
                matcher::long_tokens(matcher::tokens(prompt_text@)),
            ),
        },
{
    if matcher::is_stemmable_query(prompt_text) {
        Some(compose_request(app, msg, user_id, prompt_text, now))
    } else {
        None
    }
}

/// A state with its texts cut to a length.
pub open spec fn capped(st: UserStateView, cap: nat) -> UserStateView {
    UserStateView {
        goal: strings::take_chars(st.goal, cap as int),
        current: strings::take_chars(st.current, cap as int),
        ..st
    }
}

/// The states after new ones have been recorded in order, each cut to a
/// length.
pub open spec fn recorded(
    states: Map<i64, StateRowView>,
    news: Seq<UserStateView>,
    cap: nat,
    now: i64,
) -> Map<i64, StateRowView>
    decreases news.len(),
{
    if news.len() == 0 {
        states
    } else {
        let before = recorded(states, news.drop_last(), cap, now);
        let id = news.last().user_id;
        before.insert(id, storage::merged(before.get(id), capped(news.last(), cap), now))
    }
}

/// States with their texts cut to a length.
pub open spec fn all_capped(news: Seq<UserStateView>, cap: nat) -> Seq<UserStateView> {
    news.map_values(|st: UserStateView| capped(st, cap))
}

/// Records new states: see [`recorded`]. Gives the states as they were
/// recorded.
fn record_states(app: &mut App, news: &Vec<UserState>, now: i64) -> (r: Vec<UserState>)
    ensures
        final(app).wf() == old(app).wf(),
        final(app)@ == (AppView {
            store: StoreView {
                states: recorded(
                    old(app)@.store.states,
                    storage::state_views(news@),
                    old(app)@.cfg.user_meta_chars,
                    now,
                ),
                ..old(app)@.store
            },
            ..old(app)@
        }),
        storage::state_views(r@) == all_capped(
            storage::state_views(news@),
            old(app)@.cfg.user_meta_chars,
        ),
{
    let ghost before = app@;
    let ghost all = storage::state_views(news@);
    let cap: usize = app.cfg.user_meta_chars;
    let mut out: Vec<UserState> = Vec::new();
    let mut i: usize = 0;
    assert(all.take(0) =~= Seq::<UserStateView>::empty());
    assert(storage::state_views(out@) =~= all_capped(all.take(0), cap as nat));
    while i < news.len()
        invariant
            i <= news@.len(),
            all == storage::state_views(news@),
            cap == before.cfg.user_meta_chars,
            app.wf() == old(app).wf(),
            app@ == (AppView {
                store: StoreView {
                    states: recorded(before.store.states, all.take(i as int), cap as nat, now),
                    ..before.store
                },
                ..before
            }),
            storage::state_views(out@) == all_capped(all.take(i as int), cap as nat),
        decreases news@.len() - i,
    {
        assert(all.take(i + 1).drop_last() =~= all.take(i as int));
        assert(all.take(i + 1).last() == news@[i as int]@);
        let st = UserState {
            user_id: news[i].user_id,
            display_name: news[i].display_name.clone(),
            goal: strings::first_chars(news[i].goal.as_str(), cap),
            current: strings::first_chars(news[i].current.as_str(), cap),
        };
        assert(st@ == capped(news@[i as int]@, cap as nat));
        app.store.upsert_state_at(&st, now);
        let ghost kept = storage::state_views(out@);
        let ghost view = st@;
        out.push(st);
        assert(storage::state_views(out@) =~= kept.push(view));
        assert(all_capped(all.take(i + 1), cap as nat) =~= kept.push(view));
        i += 1;
    }
    assert(all.take(all.len() as int) =~= all);
    out
}

/// The text that an answer of the model has for the chat: without tags and
/// mentions of the bot. A tag that comes about where a mention stood goes too.
pub open spec fn clean_answer(a: AppView, raw: Seq<char>) -> Seq<char> {
    let spoken = sanitizer::without_mention(
        sanitizer::tidy(sanitizer::strip_tags(raw)),
        a.bot_username,
    );
    if strings::occurs(spoken, sanitizer::tag_open()) {
        sanitizer::tidy(sanitizer::strip_tags(spoken))
    } else {
        spoken
    }
}

/// The messages that an answer of the model is shown in.
pub open spec fn answer_messages(a: AppView, raw: Seq<char>) -> Seq<Seq<char>> {
    let clean = clean_answer(a, raw);
    if strings::blank(clean) {
        seq![LlmError::Empty.hint()]
    } else {
        text::message_chunks(clean, TG_CHUNK as int)
    }
}

/// The message of the history that an answer leaves.
pub open spec fn assistant_message(content: Seq<char>) -> StoredMessageView {
    StoredMessageView {
        user_id: 0,
        display_name: Seq::empty(),
        role: Role::Assistant,
        content: content,
    }
}

/// The bot after the history has been cut to its window.
pub open spec fn windowed(a: AppView) -> AppView {
    AppView {
        store: StoreView {
            messages: storage::window(a.store.messages, window_chars(a) as int),
            ..a.store
        },
        ..a
    }
}

/// The bot after an answer of the model: the states that it holds are
/// recorded, its text is noted, and the history is cut to its window.
pub open spec fn answered(a: AppView, msg: IncomingView, raw: Seq<char>, now: i64) -> AppView {
    let told = AppView {
        store: StoreView {
            states: recorded(
                a.store.states,
                sanitizer::tag_states(raw),
                a.cfg.user_meta_chars,
                now,
            ),
            ..a.store
        },
        ..a
    };
    windowed(noted(told, msg, assistant_message(clean_answer(a, raw)), now))
}

/// Cuts the history to its window: see [`windowed`].
fn cut_history(app: &mut App)
    requires
        old(app).wf(),
    ensures
        final(app).wf(),
        final(app)@ == windowed(old(app)@),
{
    let budget: usize = text::tokens_to_chars(app.cfg.message_window_tokens);
    let removed: u64 = app.store.trim_window(budget);
}

/// The messages that a cleaned answer is shown in.
fn final_messages(clean: &str) -> (r: Vec<String>)
    ensures
        strings::views(r@) == (if strings::blank(clean@) {
            seq![LlmError::Empty.hint()]
        } else {
            text::message_chunks(clean@, TG_CHUNK as int)
        }),
{
    if strings::is_blank(clean) {
        let mut out: Vec<String> = Vec::new();
        out.push(LlmError::Empty.user_hint().to_owned());
        assert(strings::views(out@) =~= seq![LlmError::Empty.hint()]);
        return out;
    }
    text::split_telegram(clean, TG_CHUNK)
}

/// An answer that was taken in.
#[derive(Debug)]
pub struct AcceptedAnswer {
    /// The messages that show it.
    pub messages: Vec<String>,
    /// The text that was noted in the history.
    pub content: String,
    /// The states that were recorded.
    pub states: Vec<UserState>,
}

/// Takes an answer of the model in: see [`answered`]. The time is in seconds.
pub fn accept_answer(app: &mut App, msg: &Incoming, raw: &str, now: i64) -> (r: AcceptedAnswer)
    requires
        old(app).wf(),
    ensures
        final(app).wf(),
        final(app)@ == answered(old(app)@, msg@, raw@, now),
        strings::views(r.messages@) == answer_messages(old(app)@, raw@),
        r.content@ == clean_answer(old(app)@, raw@),
        storage::state_views(r.states@) == all_capped(
            sanitizer::tag_states(raw@),
            old(app)@.cfg.user_meta_chars,
        ),
{
    let (tidied, news) = sanitizer::extract_user_tags(raw);
    let spoken = sanitizer::remove_bot_mention(tidied.as_str(), app.bot_username.as_str());
    let clean = if strings::contains(spoken.as_str(), "<user:") {
        sanitizer::extract_user_tags(spoken.as_str()).0
    } else {
        spoken
    };
    let states = record_states(app, &news, now);
    let none = String::new();
    assert(none@ =~= Seq::<char>::empty());
    let stored = StoredMessage {
        user_id: 0,
        display_name: none,
        role: Role::Assistant,
        content: clean.clone(),
    };
    note(app, msg, stored, now);
    cut_history(app);
    let messages = final_messages(clean.as_str());
    AcceptedAnswer { messages: messages, content: clean, states: states }
}

/// Takes the failure of a request in: the history is cut to its window. Gives
/// the message that shows the failure.
pub fn accept_failure(app: &mut App, e: &LlmError) -> (r: String)
    requires
        old(app).wf(),
    ensures
        final(app).wf(),
        final(app)@ == windowed(old(app)@),
        r@ == e.hint(),
{
    cut_history(app);
    e.user_hint().to_owned()
}

/// What of an answer on its way may be seen: the text before the first tag.
pub open spec fn visible(received: Seq<char>) -> Seq<char> {
    match strings::find(received, "<user:"@) {
        Some(i) => received.take(i),
        None => received,
    }
}

/// The preview of an answer on its way.
pub open spec fn preview(received: Seq<char>) -> Seq<char> {
    let seen = visible(received);
    if seen.len() > PREVIEW_CHARS {
        seen.take(PREVIEW_CHARS as int) + "\n▌"@
    } else {
        seen
    }
}

/// Whether an answer on its way has changed since its length was the given
/// one, and if so its length now and the preview to show, if there is
/// anything to be seen. Lengths are in bytes.
pub fn progress(received: &str, last_len: usize) -> (r: Option<(usize, Option<String>)>)
    ensures
        match r {
            Some((len, shown)) => {
                &&& len == strings::byte_len(received@)
                &&& len != last_len
                &&& !strings::blank(received@)
                &&& strings::optional(shown) == (if strings::blank(preview(received@)) {
                    None::<Seq<char>>
                } else {
                    Some(preview(received@))
                })
            },
            None => strings::byte_len(received@) == last_len || strings::blank(received@),
        },
{
    let len: usize = strings::len_bytes(received);
    if len == last_len || strings::is_blank(received) {
        return None;
    }
    let cs = strings::chars_of(received);
    let open = strings::chars_of("<user:");
    proof {
        strings::lemma_find_from(received@, "<user:"@, 0);
    }
    let end: usize = match strings::slice_find(cs.as_slice(), open.as_slice()) {
        Some(i) => i,
        None => cs.len(),
    };
    assert(received@.take(end as int) =~= visible(received@));
    let shown = if end > PREVIEW_CHARS {
        let cut = slice_subrange(cs.as_slice(), 0, PREVIEW_CHARS);
        assert(cut@ =~= visible(received@).take(PREVIEW_CHARS as int));
        let mut out = strings::string_of(cut);
        out.append("\n▌");
        out
    } else {
        let all = slice_subrange(cs.as_slice(), 0, end);
        assert(all@ =~= visible(received@));
        strings::string_of(all)
    };
    if strings::is_blank(shown.as_str()) {
        Some((len, None))
    } else {
        Some((len, Some(shown)))
    }
}

/// A message never changes more than what is known of the requests of its
/// author, and one that is not addressed to the bot changes nothing.
pub proof fn law_messages_change_little(a: AppView, msg: IncomingView, now: u64)
    ensures
        received(a, msg, now).0 == (AppView { limiter: received(a, msg, now).0.limiter, ..a }),
        msg.private || !heard(a, msg) ==> received(a, msg, now).0 == a,
        !msg.private && !heard(a, msg) ==> received(a, msg, now).1 is Ignore,
{
}

/// In groups the bot answers neither other bots nor commands nor what comes
/// from other places than those that are allowed.
pub proof fn law_others_are_ignored(a: AppView, msg: IncomingView, now: u64)
    requires
        !msg.private,
        ({
            ||| msg.from is None
            ||| msg.from->0.is_bot
            ||| msg.body() is None
            ||| is_command(msg.body()->0)
            ||| !a.cfg.allows_chat(msg.chat_id)
            ||| !a.cfg.allows_thread(thread(msg))
        }),
    ensures
        received(a, msg, now) == (a, MessageStepView::Ignore),
{
}

/// A user who has used all requests is told to wait, and the model is not
/// asked.
pub proof fn law_limit_is_answered(a: AppView, msg: IncomingView, now: u64)
    requires
        !msg.private,
        heard(a, msg),
        a.limiter.wait(msg.from->0.id, now) is Some,
    ensures
        received(a, msg, now).1 == MessageStepView::Reply(
            wait_text(a.limiter.wait(msg.from->0.id, now)->0),
        ),
{
}

/// No id occurs twice.
pub open spec fn distinct(ids: Seq<i64>) -> bool {
    forall|i: int, j: int| 0 <= i < j < ids.len() ==> ids[i] != ids[j]
}

/// Participants are added to those already listed, none of them twice.
proof fn lemma_participants(ids: Seq<i64>, history: Seq<StoredMessageView>)
    requires
        0 < ids.len() < MAX_PARTICIPANTS,
        distinct(ids),
    ensures
        participants(ids, history).len() <= MAX_PARTICIPANTS,
        ids.is_prefix_of(participants(ids, history)),
        distinct(participants(ids, history)),
    decreases history.len(),
{
    if history.len() > 0 {
        let author = history.last().user_id;
        if author != 0 && !ids.contains(author) {
            let more = ids.push(author);
            assert(distinct(more)) by {
                assert forall|i: int, j: int| 0 <= i < j < more.len() implies more[i]
                    != more[j] by {
                    if j == ids.len() {
                        assert(ids.contains(ids[i]));
                    }
                }
            }
            assert(ids =~= more.subrange(0, ids.len() as int));
            if more.len() < MAX_PARTICIPANTS {
                lemma_participants(more, history.drop_last());
                let r = participants(more, history.drop_last());
                assert(more =~= r.subrange(0, more.len() as int));
                assert(ids =~= r.subrange(0, ids.len() as int)) by {
                    assert forall|i: int| 0 <= i < ids.len() implies ids[i] == r[i] by {
                        assert(more[i] == r.subrange(0, more.len() as int)[i]);
                    }
                }
            }
        } else {
            lemma_participants(ids, history.drop_last());
        }
    } else {
        assert(ids =~= ids.subrange(0, ids.len() as int));
    }
}

/// The model is told about a few participants, each of them once, and the
/// author of the question comes first.
pub proof fn law_participants_are_few(user_id: i64, history: Seq<StoredMessageView>)
    ensures
        0 < participants(seq![user_id], history).len() <= MAX_PARTICIPANTS,
        participants(seq![user_id], history)[0] == user_id,
        distinct(participants(seq![user_id], history)),
{
    lemma_participants(seq![user_id], history);
    let r = participants(seq![user_id], history);
    assert(seq![user_id][0] == r.subrange(0, 1)[0]);
}

/// What has been recorded fits.
proof fn lemma_recorded_fit(
    states: Map<i64, StateRowView>,
    news: Seq<UserStateView>,
    cap: nat,
    now: i64,
    i: int,
)
    requires
        0 <= i < news.len(),
    ensures
        recorded(states, news, cap, now).contains_key(news[i].user_id),
        recorded(states, news, cap, now)[news[i].user_id].state.goal.len() <= cap,
        recorded(states, news, cap, now)[news[i].user_id].state.current.len() <= cap,
    decreases news.len(),
{
    if i < news.len() - 1 {
        assert(news.drop_last()[i] == news[i]);
        lemma_recorded_fit(states, news.drop_last(), cap, now, i);
    }
}

/// Whatever the model says of a participant is kept within the limit.
pub proof fn law_states_fit(a: AppView, msg: IncomingView, raw: Seq<char>, now: i64, i: int)
    requires
        0 <= i < sanitizer::tag_states(raw).len(),
    ensures
        ({
            let id = sanitizer::tag_states(raw)[i].user_id;
            let states = answered(a, msg, raw, now).store.states;
            &&& states.contains_key(id)
            &&& states[id].state.goal.len() <= a.cfg.user_meta_chars
            &&& states[id].state.current.len() <= a.cfg.user_meta_chars
        }),
{
    lemma_recorded_fit(
        a.store.states,
        sanitizer::tag_states(raw),
        a.cfg.user_meta_chars,
        now,
        i,
    );
}

/// After an answer every dialogue fits into the window.
pub proof fn law_history_fits(
    a: AppView,
    msg: IncomingView,
    raw: Seq<char>,
    now: i64,
    chat_id: i64,
    thread_id: i64,
)
    ensures
        storage::chars_in(
            storage::dialogue(answered(a, msg, raw, now).store.messages, chat_id, thread_id),
        ) <= window_chars(a),
{
    let told = AppView {
        store: StoreView {
            states: recorded(
                a.store.states,
                sanitizer::tag_states(raw),
                a.cfg.user_meta_chars,
                now,
            ),
            ..a.store
        },
        ..a
    };
    let full = noted(told, msg, assistant_message(clean_answer(a, raw)), now);
    storage::law_window_fits(full.store.messages, window_chars(a) as int, chat_id, thread_id);
}

/// The chat never sees a tag, whatever the model answers.
pub proof fn law_answer_shows_no_tag(a: AppView, raw: Seq<char>)
    ensures
        !strings::occurs(clean_answer(a, raw), sanitizer::tag_open()),
{
    let spoken = sanitizer::without_mention(
        sanitizer::tidy(sanitizer::strip_tags(raw)),
        a.bot_username,
    );
    sanitizer::law_no_tag_is_left(spoken);
}

/// Every message of an answer fits into what the messenger takes.
pub proof fn law_answer_fits(a: AppView, raw: Seq<char>, i: int)
    requires
        0 <= i < answer_messages(a, raw).len(),
    ensures
        answer_messages(a, raw)[i].len() <= TG_CHUNK,
{
    reveal_strlit("Модель вернула пустой ответ.");
    text::law_message_chunks_fit(clean_answer(a, raw), TG_CHUNK as int);
}

} // verus!
