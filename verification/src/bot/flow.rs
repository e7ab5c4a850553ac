//! The bot in groups: whom it hears, what it asks the model, and what it keeps of
//! the answer.

use vstd::prelude::*;

use crate::bot::handlers_admin;
use crate::bot::handlers_admin::CallbackStepView;
use crate::bot::handlers_admin::Command;
use crate::bot::handlers_admin::CommandStepView;
use crate::bot::handlers_chat;
use crate::bot::handlers_chat::MessageStepView;
use crate::bot::router;
use crate::bot::AppView;
use crate::commands;
use crate::db::titles;
use crate::handlers::reports;
use crate::knowledge::matcher;
use crate::llm::client::LlmError;
use crate::llm::prompt;
use crate::storage;
use crate::storage::DialogueRowView;
use crate::storage::Role;
use crate::storage::StateRowView;
use crate::storage::StoredMessageView;
use crate::storage::UserStateView;
use crate::strings;
use crate::strings::basics;
use crate::telegram::IncomingView;
use crate::telegram::SenderView;
use crate::utils::mentions;
use crate::utils::sanitizer;

verus! {

/// A text is a command if its first solid character is a slash.
pub proof fn law_commands_start_with_a_slash(gap: Seq<char>, c: char, rest: Seq<char>)
    requires
        basics::all_white(gap),
        !strings::is_white(c),
    ensures
        handlers_chat::is_command(gap + seq![c] + rest) <==> c == '/',
        !handlers_chat::is_command(gap),
{
    let s = seq![c] + rest;
    assert(gap + seq![c] + rest =~= gap + s);
    assert(s[0] == c);
    basics::law_trim_start(gap, s);
    assert(gap + Seq::<char>::empty() =~= gap);
    basics::law_trim_start(gap, Seq::empty());
}

/// The text of a message, or the caption of what it holds.
pub open spec fn said(msg: IncomingView) -> Option<Seq<char>> {
    if msg.text is Some {
        msg.text
    } else {
        msg.caption
    }
}

/// The topic of a message; zero if there is none.
pub open spec fn topic(msg: IncomingView) -> i64 {
    if msg.thread_id is Some {
        msg.thread_id->0 as i64
    } else {
        0
    }
}

/// The bot hears a message: a person wrote it, it has a text that is no command,
/// the chat and the topic are listed or none is, and it names the bot in whatever
/// case or replies to a message of the bot.
pub open spec fn hears(a: AppView, msg: IncomingView) -> bool {
    &&& msg.from is Some && !msg.from->0.is_bot
    &&& said(msg) is Some && !handlers_chat::is_command(said(msg)->0)
    &&& a.cfg.allowed_chats.len() == 0 || a.cfg.allowed_chats.contains(msg.chat_id)
    &&& a.cfg.allowed_threads.len() == 0 || a.cfg.allowed_threads.contains(topic(msg))
    &&& strings::occurs(
        strings::lowercase(said(msg)->0),
        mentions::mention(strings::lowercase(a.bot_username)),
    ) || (msg.reply is Some && msg.reply->0.from is Some && msg.reply->0.from->0.id == a.bot_id)
}

/// Whom the bot hears.
pub proof fn law_who_is_heard(a: AppView, msg: IncomingView)
    ensures
        handlers_chat::heard(a, msg) <==> hears(a, msg),
{
    reveal_strlit("@");
    assert("@"@ + strings::lowercase(a.bot_username) =~= mentions::mention(
        strings::lowercase(a.bot_username),
    ));
}

/// The first 400 characters of the message that is replied to, if they are not
/// white space alone.
pub open spec fn replied_start(msg: IncomingView) -> Option<Seq<char>> {
    if msg.reply is None {
        None
    } else {
        let body = if msg.reply->0.text is Some {
            msg.reply->0.text->0
        } else if msg.reply->0.caption is Some {
            msg.reply->0.caption->0
        } else {
            Seq::empty()
        };
        let start = if body.len() > 400 {
            body.take(400)
        } else {
            body
        };
        if basics::all_white(start) {
            None
        } else {
            Some(start)
        }
    }
}

/// A message in a group that the bot hears leads to a question to the model if its
/// author has requests left and it has a text of its own or replies to one; if
/// none is left, to a note to wait. Any other leads to nothing. In private chats
/// the bot only sends a note.
pub proof fn law_steps(a: AppView, msg: IncomingView, now: u64)
    ensures
        ({
            let step = handlers_chat::received(a, msg, now).1;
            let free = msg.from is Some && a.limiter.wait(msg.from->0.id, now) is None;
            let own = said(msg) is Some && !strings::blank(
                sanitizer::without_mention(said(msg)->0, a.bot_username),
            );
            let asks = !msg.private && hears(a, msg) && free && (own || replied_start(msg) is Some);
            &&& step is Generate <==> asks
            &&& step is Reply <==> !msg.private && hears(a, msg) && !free
            &&& step is Send <==> msg.private && msg.from is Some
            &&& asks ==> step->user_id == msg.user_id()
        }),
{
    law_who_is_heard(a, msg);
    lemma_quoted(msg);
}

/// What is quoted.
proof fn lemma_quoted(msg: IncomingView)
    ensures
        handlers_chat::quoted(msg) is Some <==> replied_start(msg) is Some,
        replied_start(msg) is Some ==> {
            let author = match msg.reply->0.from {
                Some(u) => handlers_chat::display_name(u),
                None => "неизвестный"@,
            };
            handlers_chat::quoted(msg)->0 == "\n[В ответ на сообщение от "@ + author + ": \""@
                + replied_start(msg)->0 + "\"]"@
        },
{
    if msg.reply is Some {
        let r = msg.reply->0;
        let body = match r.body() {
            Some(b) => b,
            None => Seq::empty(),
        };
        let start = strings::take_chars(body, 400);
        titles::lemma_blank_is_white(start);
    }
}

/// The question to the model is the text without mentions of the bot, or a request
/// to explain if nothing is left of it, and behind it the start of the message
/// that is replied to with the name of its author.
pub proof fn law_question(msg: IncomingView, raw: Seq<char>, bot: Seq<char>)
    ensures
        ({
            let text = sanitizer::without_mention(raw, bot);
            let r = handlers_chat::trigger_text(msg, raw, bot);
            &&& replied_start(msg) is None && basics::all_white(text) ==> r is None
            &&& replied_start(msg) is None && !basics::all_white(text) ==> r == Some(text)
            &&& replied_start(msg) is Some ==> {
                let asked = if basics::all_white(text) {
                    "Разбери сообщение выше."@
                } else {
                    text
                };
                let author = match msg.reply->0.from {
                    Some(u) => handlers_chat::display_name(u),
                    None => "неизвестный"@,
                };
                r == Some(
                    asked + ("\n[В ответ на сообщение от "@ + author + ": \""@ + replied_start(
                        msg,
                    )->0 + "\"]"@),
                )
            }
        }),
{
    lemma_quoted(msg);
    titles::lemma_blank_is_white(sanitizer::without_mention(raw, bot));
}

/// In groups users go by their full name, else by their user name, else by their
/// id behind `id`.
pub proof fn law_names(u: SenderView)
    ensures
        ({
            let full = match u.last_name {
                Some(last) => u.first_name + seq![' '] + last,
                None => u.first_name,
            };
            let name = handlers_chat::display_name(u);
            &&& !basics::all_white(full) ==> name == full
            &&& basics::all_white(full) && u.username is Some ==> name == u.username->0
            &&& basics::all_white(full) && u.username is None ==> name == "id"@ + strings::decimal(
                u.id as nat,
            )
        }),
{
    reveal_strlit(" ");
    assert(" "@ =~= seq![' ']);
    titles::lemma_blank_is_white(u.full_name());
}

/// The time to wait is told in whole seconds, and never as less than one.
pub proof fn law_waiting_times(seconds: u64, nanos: u64)
    requires
        nanos < 1_000_000_000,
        seconds * 1_000_000_000 + nanos <= u64::MAX,
    ensures
        seconds >= 1 ==> handlers_chat::wait_text((seconds * 1_000_000_000 + nanos) as u64)
            == "Слишком часто. Подожди "@ + strings::decimal(seconds as nat) + " с."@,
        handlers_chat::wait_text(nanos) == "Слишком часто. Подожди "@ + strings::decimal(1)
            + " с."@,
{
    assert((seconds * 1_000_000_000 + nanos) / 1_000_000_000 == seconds as int);
}

/// Participants only grow.
proof fn lemma_listed_stay(ids: Seq<i64>, history: Seq<StoredMessageView>, id: i64)
    requires
        ids.contains(id),
    ensures
        handlers_chat::participants(ids, history).contains(id),
    decreases history.len(),
{
    if history.len() > 0 {
        let author = history.last().user_id;
        let more = if author != 0 && !ids.contains(author) {
            ids.push(author)
        } else {
            ids
        };
        assert(more.contains(id)) by {
            let k = ids.index_of(id);
            assert(more[k] == id);
        }
        if more.len() < 6 {
            lemma_listed_stay(more, history.drop_last(), id);
        }
    }
}

/// See [`law_participants_are_told`].
proof fn lemma_all_listed(ids: Seq<i64>, history: Seq<StoredMessageView>, i: int)
    requires
        0 <= i < history.len(),
        history[i].user_id != 0,
        handlers_chat::participants(ids, history).len() < 6,
    ensures
        handlers_chat::participants(ids, history).contains(history[i].user_id),
    decreases history.len(),
{
    let author = history.last().user_id;
    let more = if author != 0 && !ids.contains(author) {
        ids.push(author)
    } else {
        ids
    };
    if i == history.len() - 1 {
        assert(more.contains(author)) by {
            if !ids.contains(author) {
                assert(more[ids.len() as int] == author);
            }
        }
        lemma_listed_stay(more, history.drop_last(), author);
    } else {
        assert(history.drop_last()[i] == history[i]);
        lemma_all_listed(more, history.drop_last(), i);
    }
}

/// See [`law_participants_are_told`].
proof fn lemma_only_authors(ids: Seq<i64>, history: Seq<StoredMessageView>, id: i64)
    requires
        handlers_chat::participants(ids, history).contains(id),
    ensures
        ids.contains(id) || (id != 0 && exists|i: int|
            0 <= i < history.len() && (#[trigger] history[i]).user_id == id),
    decreases history.len(),
{
    if history.len() > 0 {
        let author = history.last().user_id;
        let more = if author != 0 && !ids.contains(author) {
            ids.push(author)
        } else {
            ids
        };
        if more.len() >= 6 {
            let k = more.index_of(id);
            if k < ids.len() {
                assert(ids[k] == id);
            } else {
                assert(history[history.len() - 1].user_id == id);
            }
        } else {
            lemma_only_authors(more, history.drop_last(), id);
            if more.contains(id) {
                let k = more.index_of(id);
                if k < ids.len() {
                    assert(ids[k] == id);
                } else {
                    assert(history[history.len() - 1].user_id == id);
                }
            } else {
                let i = choose|i: int|
                    0 <= i < history.drop_last().len() && (#[trigger] history.drop_last()[i]).user_id
                        == id;
                assert(history[i].user_id == id);
            }
        }
    }
}

/// The model is told about the author of the question and about the people who
/// wrote in the history, six in all at most; if there are fewer, nobody is left
/// out.
pub proof fn law_participants_are_told(
    user_id: i64,
    history: Seq<StoredMessageView>,
    i: int,
    id: i64,
)
    requires
        0 <= i < history.len(),
    ensures
        ({
            let all = handlers_chat::participants(seq![user_id], history);
            &&& all.len() <= 6
            &&& all[0] == user_id
            &&& history[i].user_id != 0 && all.len() < 6 ==> all.contains(history[i].user_id)
            &&& all.contains(id) && id != user_id ==> id != 0 && exists|k: int|
                0 <= k < history.len() && (#[trigger] history[k]).user_id == id
        }),
{
    handlers_chat::law_participants_are_few(user_id, history);
    let all = handlers_chat::participants(seq![user_id], history);
    if history[i].user_id != 0 && all.len() < 6 {
        lemma_all_listed(seq![user_id], history, i);
    }
    if all.contains(id) {
        lemma_only_authors(seq![user_id], history, id);
    }
}

/// A request to the model starts with the prompt, the matching cards of the
/// knowledge base and the states of the participants, goes on with the history of
/// the dialogue, three characters for each token of its window, and ends with the
/// question, signed with the name and the id of its author.
pub proof fn law_request(a: AppView, msg: IncomingView, user_id: i64, text: Seq<char>, i: int)
    ensures
        ({
            let r = handlers_chat::request(a, msg, user_id, text);
            let history = storage::recent(
                storage::dialogue(a.store.messages, msg.chat_id, topic(msg)),
                0,
                false,
                3 * a.cfg.message_window_tokens as int,
            );
            let name = handlers_chat::author_name(msg);
            let hits = matcher::matches_for(
                a.cards,
                text,
                a.cfg.knowledge_top_n as int,
                a.cfg.knowledge_max_chars as int,
            );
            let states = storage::states_of(
                a.store.states,
                handlers_chat::participants(seq![user_id], history),
            );
            &&& r.len() == history.len() + 2
            &&& r[0].role == "system"@
            &&& r[0].content == prompt::system_text(
                crate::config::DEFAULT_SYSTEM_PROMPT@,
                prompt::knowledge_text(hits),
                states,
            )
            &&& 0 <= i < history.len() ==> r[i + 1] == prompt::history_message(history[i])
            &&& r.last().role == "user"@
            &&& user_id != 0 && name.len() > 0 ==> r.last().content == name + " (id="@
                + strings::decimal_int(user_id as int) + "): "@ + text
            &&& user_id == 0 || name.len() == 0 ==> r.last().content == text
        }),
{
    let history = handlers_chat::history_of(a, msg);
    let hits = matcher::matches_for(
        a.cards,
        text,
        a.cfg.knowledge_top_n as int,
        a.cfg.knowledge_max_chars as int,
    );
    prompt::law_composition_frame(
        crate::config::DEFAULT_SYSTEM_PROMPT@,
        prompt::knowledge_text(hits),
        storage::states_of(a.store.states, handlers_chat::participants(seq![user_id], history)),
        history,
        handlers_chat::question(user_id, handlers_chat::author_name(msg), text),
    );
}

/// The last state of a participant in an answer is the one that is kept, its texts
/// cut to the allowed length; states of others stay as they were.
pub proof fn law_last_state_counts(
    states: Map<i64, StateRowView>,
    news: Seq<UserStateView>,
    st: UserStateView,
    cap: nat,
    now: i64,
    other: i64,
)
    ensures
        ({
            let before = handlers_chat::recorded(states, news, cap, now);
            let after = handlers_chat::recorded(states, news.push(st), cap, now);
            let kept = storage::state_of(after, st.user_id)->0;
            &&& storage::state_of(after, st.user_id) is Some
            &&& kept.goal.is_prefix_of(st.goal) && kept.goal.len() == (if st.goal.len() < cap {
                st.goal.len()
            } else {
                cap
            })
            &&& kept.current.is_prefix_of(st.current) && kept.current.len() == (if st.current.len()
                < cap {
                st.current.len()
            } else {
                cap
            })
            &&& st.display_name.len() > 0 ==> kept.display_name == st.display_name
            &&& other != st.user_id ==> storage::state_of(after, other) == storage::state_of(
                before,
                other,
            )
            &&& handlers_chat::recorded(states, Seq::empty(), cap, now) == states
        }),
{
    assert(news.push(st).drop_last() =~= news);
    basics::law_take_chars(st.goal, cap as int);
    basics::law_take_chars(st.current, cap as int);
}

/// An answer that fits into the window is the last message of its dialogue, as it
/// was shown.
pub proof fn law_answer_is_noted(a: AppView, msg: IncomingView, raw: Seq<char>, now: i64)
    requires
        handlers_chat::clean_answer(a, raw).len() <= 3 * a.cfg.message_window_tokens,
    ensures
        ({
            let after = handlers_chat::answered(a, msg, raw, now);
            let told = storage::dialogue(after.store.messages, msg.chat_id, topic(msg));
            &&& told.len() > 0
            &&& told.last().role == Role::Assistant
            &&& told.last().content == handlers_chat::clean_answer(a, raw)
            &&& after.cfg == a.cfg && after.models == a.models && after.cards == a.cards
            &&& after.limiter == a.limiter && after.streaming == a.streaming
        }),
{
    let clean = handlers_chat::clean_answer(a, raw);
    let row = DialogueRowView {
        chat_id: msg.chat_id,
        thread_id: topic(msg),
        message: handlers_chat::assistant_message(clean),
        created_at: now,
    };
    let all = a.store.messages.push(row);
    let budget = 3 * a.cfg.message_window_tokens as int;
    assert(a.store.messages.push(row).drop_last() =~= a.store.messages);
    let whole = storage::dialogue(all, msg.chat_id, topic(msg));
    assert(whole.last() == row.message);
    storage::law_window_keeps_newest(all, budget, msg.chat_id, topic(msg));
    let kept = storage::dialogue(storage::window(all, budget), msg.chat_id, topic(msg));
    if kept.len() == 0 {
        let last = whole.skip(whole.len() - 1);
        assert(last =~= seq![row.message]);
        assert(last.drop_last() =~= Seq::<StoredMessageView>::empty());
        assert(storage::chars_in(last) == clean.len()) by {
            reveal_with_fuel(storage::chars_in, 2);
        }
    } else {
        assert(kept =~= whole.subrange(whole.len() - kept.len(), whole.len() as int));
        assert(kept.last() == whole.last());
    }
    let after = handlers_chat::answered(a, msg, raw, now);
    assert(after.store.messages == storage::window(all, budget));
}

/// A blank answer is shown as a note; an answer that fits into one message is that
/// message.
pub proof fn law_short_answers(a: AppView, raw: Seq<char>)
    ensures
        ({
            let clean = handlers_chat::clean_answer(a, raw);
            let shown = handlers_chat::answer_messages(a, raw);
            &&& strings::blank(clean) ==> shown == seq!["Модель вернула пустой ответ."@]
            &&& !strings::blank(clean) && clean.len() <= 3900 ==> shown == seq![clean]
        }),
{
}

/// What is shown of an answer on its way ends before its first tag and has at most
/// 3800 characters and a mark.
pub proof fn law_previews(before: Seq<char>, rest: Seq<char>)
    requires
        mentions::lacks(before, '<'),
    ensures
        ({
            let shown = if before.len() > 3800 {
                before.take(3800) + "\n▌"@
            } else {
                before
            };
            &&& handlers_chat::preview(before) == shown
            &&& handlers_chat::preview(before + "<user:"@ + rest) == shown
        }),
{
    reveal_strlit("<user:");
    let tag = "<user:"@;
    let s = before + tag + rest;
    mentions::lemma_lacks_occurs(before, tag);
    strings::lemma_find_from(s, tag, 0);
    let n = before.len() as int;
    assert(s.subrange(n, n + tag.len()) =~= tag);
    let k = strings::find(s, tag)->0;
    if k < n {
        assert(s.subrange(k, k + tag.len())[0] == before[k]);
    }
    assert(s.take(n) =~= before);
}

/// The button of a model is labelled with its name, behind a mark if it is in use,
/// and sends its place.
pub proof fn law_buttons(models: Seq<Seq<char>>, active: int, k: int, i: int)
    requires
        0 <= i < k,
    ensures
        handlers_admin::model_buttons(models, active, k).len() == k,
        handlers_admin::model_buttons(models, active, k)[i] == (
            if i == active {
                "✔ "@ + models[i]
            } else {
                models[i]
            },
            "model:"@ + strings::decimal(i as nat),
        ),
    decreases k,
{
    if i < k - 1 {
        law_buttons(models, active, k - 1, i);
    } else if k > 1 {
        law_buttons(models, active, k - 1, 0);
    } else {
        assert(handlers_admin::model_buttons(models, active, 0).len() == 0);
    }
}

/// An administrator's press turns streaming on or off and changes nothing else; a
/// press that means nothing changes nothing.
pub proof fn law_presses(a: AppView, user_id: i64, data: Seq<char>)
    requires
        a.cfg.admins.contains(user_id),
    ensures
        handlers_admin::pressed(a, user_id, Some("stream:toggle"@)).0 == (AppView {
            streaming: !a.streaming,
            ..a
        }),
        handlers_admin::pressed(a, user_id, None).0 == a,
        data != "stream:toggle"@ && !"model:"@.is_prefix_of(data) ==> handlers_admin::pressed(
            a,
            user_id,
            Some(data),
        ) == (a, CallbackStepView::Ignore),
{
    reveal_strlit("stream:toggle");
    reveal_strlit("model:");
    let d = "stream:toggle"@;
    if "model:"@.is_prefix_of(d) {
        assert(d.subrange(0, 6)[0] == d[0]);
    }
}

/// A press for a model that is not in the list changes nothing.
pub proof fn law_missing_models(a: AppView, user_id: i64, i: nat)
    requires
        a.cfg.admins.contains(user_id),
        a.models.models.len() <= i <= usize::MAX,
    ensures
        handlers_admin::pressed(a, user_id, Some("model:"@ + strings::decimal(i))) == (
            a,
            CallbackStepView::Note("Такой модели нет в списке."@),
        ),
{
    reveal_strlit("model:");
    let d = "model:"@ + strings::decimal(i);
    assert("model:"@ =~= d.subrange(0, 6));
    assert(d.skip(6) =~= strings::decimal(i));
    strings::law_parse_unsigned_decimal(i, usize::MAX as nat);
}

/// Commands work for administrators in private chats only: in groups nothing is
/// sent, and others get a note.
pub proof fn law_commands(a: AppView, msg: IncomingView, cmd: Command)
    ensures
        ({
            let step = handlers_admin::commanded(a, msg, cmd);
            &&& !msg.private || msg.from is None ==> step is Ignore
            &&& msg.private && msg.from is Some && !a.cfg.admins.contains(msg.user_id()) ==> step
                == CommandStepView::Send(handlers_admin::STUB_TEXT@)
            &&& msg.private && msg.from is Some && a.cfg.admins.contains(msg.user_id()) ==> (step
                is Menu <==> cmd is Model || cmd is Stream)
        }),
{
}

/// A failed request leads to a hint that tells an overload from other failures.
pub proof fn law_hints(e: LlmError)
    ensures
        e is Http ==> e.hint() == "Не получилось связаться с моделью, попробуй ещё раз."@,
        e matches LlmError::Api { status, body } ==> e.hint() == if status == 429 {
            "Модель перегружена, попробуй через минуту."@
        } else {
            "Модель ответила ошибкой, попробуй ещё раз."@
        },
        e is Empty ==> e.hint() == "Модель вернула пустой ответ."@,
{
}

/// The bot knows four commands, each under its own name, and its menu lists them
/// all.
pub proof fn law_menu(cmd: Command, name: Seq<char>)
    ensures
        handlers_admin::menu().len() == 4,
        handlers_admin::menu()[0].0 == "/start"@,
        handlers_admin::menu()[1].0 == "/help"@,
        handlers_admin::menu()[2].0 == "/model"@,
        handlers_admin::menu()[3].0 == "/stream"@,
        handlers_admin::is_known(name) <==> exists|i: int|
            0 <= i < 4 && (#[trigger] handlers_admin::menu()[i]).0 == name,
        cmd.name() == handlers_admin::menu()[if cmd is Start {
            0
        } else if cmd is Help {
            1
        } else if cmd is Model {
            2
        } else {
            3
        }].0,
{
    let m = handlers_admin::menu();
    assert(m[0].0 == "/start"@ && m[1].0 == "/help"@ && m[2].0 == "/model"@ && m[3].0
        == "/stream"@);
}

/// An administrator sees the model in use above the choice of the model, and
/// exactly the model in use is marked; the greeting shows the model, the name of
/// the bot and whether answers are streamed; the one button for streaming sends
/// what turns it over.
pub proof fn law_answers_to_administrators(a: AppView, msg: IncomingView)
    requires
        msg.private,
        msg.from is Some,
        a.cfg.admins.contains(msg.user_id()),
    ensures
        ({
            let model = handlers_admin::commanded(a, msg, Command::Model);
            let stream = handlers_admin::commanded(a, msg, Command::Stream);
            let start = handlers_admin::commanded(a, msg, Command::Start);
            let names = a.models.models;
            &&& model is Menu
            &&& reports::shows(model->Menu_0, "Активная модель: "@, a.models.name())
            &&& model->Menu_1.len() == names.len()
            &&& forall|i: int|
                0 <= i < names.len() ==> #[trigger] model->Menu_1[i] == (
                    if i == a.models.current {
                        "✔ "@ + names[i]
                    } else {
                        names[i]
                    },
                    "model:"@ + strings::decimal(i as nat),
                )
            &&& stream is Menu
            &&& reports::shows(
                stream->Menu_0,
                "Режим стриминга ответов: "@,
                if a.streaming {
                    "ВКЛЮЧЁН (SSE + живой вывод текста в чат)"@
                } else {
                    "ВЫКЛЮЧЕН (отправка ответа целиком после генерации)"@
                },
            )
            &&& stream->Menu_1.len() == 1
            &&& stream->Menu_1[0].0 == if a.streaming {
                "🟢 Стриминг: ВКЛ (нажми, чтобы выключить)"@
            } else {
                "🔴 Стриминг: ВЫКЛ (нажми, чтобы включить)"@
            }
            &&& handlers_admin::pressed(a, msg.user_id(), Some(stream->Menu_1[0].1)).0 == (AppView {
                streaming: !a.streaming,
                ..a
            })
            &&& start is Send
            &&& reports::shows(start->Send_0, "Активная модель: "@, a.models.name())
            &&& reports::shows(
                start->Send_0,
                "\nСтриминг: "@,
                if a.streaming {
                    "включен"@
                } else {
                    "выключен"@
                },
            )
            &&& reports::shows(start->Send_0, "В группах бот отвечает на @"@, a.bot_username)
        }),
{
    let names = a.models.models;
    let n = names.len() as int;
    let buttons = handlers_admin::model_buttons(names, a.models.current, n);
    assert(buttons.len() == n) by {
        if n > 0 {
            law_buttons(names, a.models.current, n, 0);
        }
    }
    assert forall|i: int| 0 <= i < n implies #[trigger] buttons[i] == (
        if i == a.models.current {
            "✔ "@ + names[i]
        } else {
            names[i]
        },
        "model:"@ + strings::decimal(i as nat),
    ) by {
        law_buttons(names, a.models.current, n, i);
    }
    law_presses(a, msg.user_id(), Seq::empty());
    lemma_menu_texts(a);
    lemma_start_text(a);
}

/// What the texts above the choices show.
proof fn lemma_menu_texts(a: AppView)
    ensures
        reports::shows(
            handlers_admin::models_message(a.models),
            "Активная модель: "@,
            a.models.name(),
        ),
        reports::shows(
            handlers_admin::stream_message(a.streaming),
            "Режим стриминга ответов: "@,
            if a.streaming {
                "ВКЛЮЧЁН (SSE + живой вывод текста в чат)"@
            } else {
                "ВЫКЛЮЧЕН (отправка ответа целиком после генерации)"@
            },
        ),
{
    let e = Seq::<char>::empty();
    let first = "Активная модель: "@ + a.models.name();
    reports::lemma_longer(
        first,
        "\n\nВыбери модель — переключение применяется сразу ко всем чатам."@,
    );
    reports::lemma_ends(e, "Активная модель: "@, a.models.name());
    assert(e + "Активная модель: "@ + a.models.name() =~= first);
    let mode = if a.streaming {
        "ВКЛЮЧЁН (SSE + живой вывод текста в чат)"@
    } else {
        "ВЫКЛЮЧЕН (отправка ответа целиком после генерации)"@
    };
    let second = "Режим стриминга ответов: "@ + mode;
    reports::lemma_longer(second, "\n\nНажми кнопку ниже, чтобы переключить режим на лету:"@);
    reports::lemma_ends(e, "Режим стриминга ответов: "@, mode);
    assert(e + "Режим стриминга ответов: "@ + mode =~= second);
}

/// What the greeting shows.
proof fn lemma_start_text(a: AppView)
    ensures
        reports::shows(
            handlers_admin::start_message(a),
            "Активная модель: "@,
            a.models.name(),
        ),
        reports::shows(
            handlers_admin::start_message(a),
            "\nСтриминг: "@,
            if a.streaming {
                "включен"@
            } else {
                "выключен"@
            },
        ),
        reports::shows(
            handlers_admin::start_message(a),
            "В группах бот отвечает на @"@,
            a.bot_username,
        ),
{
    reveal_strlit("KostubetAI 2.0\nАктивная модель: ");
    reveal_strlit("KostubetAI 2.0\n");
    reveal_strlit("Активная модель: ");
    reveal_strlit(
        "\n\nКоманды:\n/model — сменить модель\n/stream — переключить стриминг ответов\n/help — помощь\n\nВ группах бот отвечает на @",
    );
    reveal_strlit(
        "\n\nКоманды:\n/model — сменить модель\n/stream — переключить стриминг ответов\n/help — помощь\n\n",
    );
    reveal_strlit("В группах бот отвечает на @");
    let name = a.models.name();
    let mode = if a.streaming {
        "включен"@
    } else {
        "выключен"@
    };
    let list = "\n\nКоманды:\n/model — сменить модель\n/stream — переключить стриминг ответов\n/help — помощь\n\nВ группах бот отвечает на @"@;
    let before = "\n\nКоманды:\n/model — сменить модель\n/stream — переключить стриминг ответов\n/help — помощь\n\n"@;
    assert("KostubetAI 2.0\nАктивная модель: "@ =~= "KostubetAI 2.0\n"@ + "Активная модель: "@);
    assert(list =~= before + "В группах бот отвечает на @"@);
    let r1 = "KostubetAI 2.0\nАктивная модель: "@ + name;
    reports::lemma_ends("KostubetAI 2.0\n"@, "Активная модель: "@, name);
    let r2 = r1 + "\nСтриминг: "@;
    reports::lemma_longer(r1, "\nСтриминг: "@);
    let r3 = r2 + mode;
    reports::lemma_longer(r2, mode);
    reports::lemma_ends(r1, "\nСтриминг: "@, mode);
    let r4 = r3 + list;
    reports::lemma_longer(r3, list);
    let r5 = r4 + a.bot_username;
    reports::lemma_longer(r4, a.bot_username);
    reports::lemma_ends(r3 + before, "В группах бот отвечает на @"@, a.bot_username);
    assert(r3 + before + "В группах бот отвечает на @"@ + a.bot_username =~= r5);
    reports::lemma_longer(r5, " и reply к его сообщениям."@);
}

/// The question to the model is read from the message; the request of its author
/// is noted. In private chats administrators are told of the commands and others
/// of the groups.
pub proof fn law_answers_to_messages(a: AppView, msg: IncomingView, now: u64)
    ensures
        ({
            let (after, step) = handlers_chat::received(a, msg, now);
            let text = handlers_chat::trigger_text(msg, said(msg)->0, a.bot_username);
            &&& step is Generate ==> text == Some(step->prompt)
            &&& !msg.private && hears(a, msg) ==> after.limiter == a.limiter.after(
                msg.from->0.id,
                now,
            )
            &&& msg.private && msg.from is Some && a.cfg.admins.contains(msg.user_id()) ==> step
                == MessageStepView::Send(
                "В ЛС доступны только команды: /model, /help, /start."@,
            )
            &&& msg.private && msg.from is Some && !a.cfg.admins.contains(msg.user_id()) ==> step
                == MessageStepView::Send(
                "Бот отвечает только в группах. Обратись к админу, если тебя добавили в чат."@,
            )
        }),
{
    law_who_is_heard(a, msg);
}

/// A question is noted behind all other messages, in its chat and topic, with its
/// author and its time; nothing else changes.
pub proof fn law_question_is_noted(
    a: AppView,
    msg: IncomingView,
    user_id: i64,
    text: Seq<char>,
    now: i64,
)
    ensures
        ({
            let after = handlers_chat::noted(
                a,
                msg,
                handlers_chat::user_message(msg, user_id, text),
                now,
            );
            let row = after.store.messages.last();
            &&& after.store.messages.len() == a.store.messages.len() + 1
            &&& after.store.messages.drop_last() == a.store.messages
            &&& row.chat_id == msg.chat_id && row.thread_id == topic(msg) && row.created_at == now
            &&& row.message.user_id == user_id && row.message.role == Role::User
            &&& row.message.content == text
            &&& row.message.display_name == match msg.from {
                Some(u) => handlers_chat::display_name(u),
                None => Seq::empty(),
            }
            &&& after.store.states == a.store.states
            &&& after == (AppView { store: after.store, ..a })
        }),
{
    let after = handlers_chat::noted(a, msg, handlers_chat::user_message(msg, user_id, text), now);
    assert(after.store.messages.drop_last() =~= a.store.messages);
}

/// What the tags of an answer tell of participants is recorded, and an answer
/// without tags is shown without mentions of the bot.
pub proof fn law_answers_are_read(a: AppView, msg: IncomingView, raw: Seq<char>, now: i64)
    ensures
        handlers_chat::answered(a, msg, raw, now).store.states == handlers_chat::recorded(
            a.store.states,
            sanitizer::tag_states(raw),
            a.cfg.user_meta_chars,
            now,
        ),
        ({
            let spoken = sanitizer::without_mention(
                sanitizer::tidy(sanitizer::strip_tags(raw)),
                a.bot_username,
            );
            !strings::occurs(spoken, "<user:"@) ==> handlers_chat::clean_answer(a, raw) == spoken
        }),
{
    reveal_strlit("<user:");
    assert("<user:"@ =~= sanitizer::tag_open());
}

/// After a press the menu is shown again as the command would show it now, with a
/// note of what was chosen.
pub proof fn law_menus_are_shown_again(a: AppView, msg: IncomingView, i: usize)
    requires
        msg.private,
        msg.from is Some,
        a.cfg.admins.contains(msg.user_id()),
        i < a.models.models.len(),
    ensures
        ({
            let (streamed, step) = handlers_admin::pressed(
                a,
                msg.user_id(),
                Some("stream:toggle"@),
            );
            let menu = handlers_admin::commanded(streamed, msg, Command::Stream);
            let (chosen, other) = handlers_admin::pressed(
                a,
                msg.user_id(),
                Some("model:"@ + strings::decimal(i as nat)),
            );
            let models = handlers_admin::commanded(chosen, msg, Command::Model);
            &&& step == CallbackStepView::Refresh(
                menu->Menu_0,
                menu->Menu_1,
                if a.streaming {
                    "Стриминг выключен"@
                } else {
                    "Стриминг включён"@
                },
            )
            &&& chosen.models.name() == a.models.models[i as int]
            &&& other == CallbackStepView::Refresh(
                models->Menu_0,
                models->Menu_1,
                "Модель: "@ + a.models.models[i as int],
            )
        }),
{
    reveal_strlit("stream:toggle");
    reveal_strlit("model:");
    let d = "stream:toggle"@;
    if "model:"@.is_prefix_of(d) {
        assert(d.subrange(0, 6)[0] == d[0]);
    }
    let digits = strings::decimal(i as nat);
    let data = "model:"@ + digits;
    assert(data.skip(6) =~= digits);
    assert("model:"@.is_prefix_of(data)) by {
        assert(data.subrange(0, 6) =~= "model:"@);
    }
    strings::law_parse_unsigned_decimal(i as nat, usize::MAX as nat);
}

/// A message is a command to the bot if it starts with the name of one, alone,
/// before a space or before the name of the bot; what names another bot or starts
/// with another word is not.
pub proof fn law_commands_are_told_apart(
    msg: IncomingView,
    cmd: Command,
    bot: Seq<char>,
    other: Seq<char>,
    args: Seq<char>,
    name: Seq<char>,
)
    requires
        mentions::lacks(bot, ' '),
        mentions::lacks(bot, '@'),
        mentions::lacks(other, ' '),
        mentions::lacks(other, '@'),
        mentions::lacks(name, ' '),
        mentions::lacks(name, '@'),
    ensures
        said(msg) is None ==> !router::is_command(msg, bot),
        said(msg) == Some(cmd.name()) ==> router::is_command(msg, bot),
        said(msg) == Some(cmd.name() + seq![' '] + args) ==> router::is_command(msg, bot),
        said(msg) == Some(cmd.name() + seq!['@'] + other + seq![' '] + args) ==> (
        router::is_command(msg, bot) <==> titles::same_letters(other, bot)),
        name != "/start"@ && name != "/help"@ && name != "/model"@ && name != "/stream"@ && (said(
            msg,
        ) == Some(name) || said(msg) == Some(name + seq![' '] + args)) ==> !router::is_command(
            msg,
            bot,
        ),
{
    lemma_plain_names(cmd);
    commands::law_command_names_its_bot(cmd.name(), bot, other, args);
    commands::law_command_reads_back(cmd.name(), bot, args);
    commands::law_command_names_its_bot(name, bot, other, args);
    commands::law_command_reads_back(name, bot, args);
}

/// The names of commands hold neither spaces nor `@`.
proof fn lemma_plain_names(cmd: Command)
    ensures
        mentions::lacks(cmd.name(), ' '),
        mentions::lacks(cmd.name(), '@'),
        handlers_admin::is_known(cmd.name()),
{
    reveal_strlit("/start");
    reveal_strlit("/help");
    reveal_strlit("/model");
    reveal_strlit("/stream");
}

} // verus!
