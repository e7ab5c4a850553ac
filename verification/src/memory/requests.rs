//! What a request to the model is made of, and who may send one.

use vstd::prelude::*;

use crate::bot;
use crate::db;
use crate::db::chats;
use crate::db::guides;
use crate::db::StoredMessageView;
use crate::limits;
use crate::memory;
use crate::memory::MemoryManagerView;
use crate::memory::RateLimiterView;
use crate::strings;
use crate::strings::basics;
use crate::text;

verus! {

/// The requests of someone that are less than the window old or still to come.
pub open spec fn within_window(times: Seq<u64>, now: u64, window: u64) -> Seq<u64> {
    times.filter(|t: u64| now < t + window)
}

/// A request is allowed if and only if fewer than the allowed number are within
/// the window; then it is noted, else nothing is.
pub proof fn law_requests_are_counted(l: RateLimiterView, user_id: i64, now: u64)
    requires
        l.window > 0,
    ensures
        ({
            let mine = if l.requests.contains_key(user_id) {
                within_window(l.requests[user_id], now, l.window)
            } else {
                Seq::empty()
            };
            &&& l.allows(user_id, now) <==> mine.len() < l.max_requests
            &&& l.allows(user_id, now) ==> l.after(user_id, now).requests[user_id] == mine.push(now)
            &&& !l.allows(user_id, now) ==> l.after(user_id, now).requests[user_id] == mine
            &&& l.after(user_id, now).max_requests == l.max_requests
            &&& l.after(user_id, now).window == l.window
        }),
{
    limits::law_recent(limits::times_of(l.requests, user_id), now, l.window);
    reveal(Seq::filter);
}

/// In groups a request is refused if and only if the allowed number is within
/// the window. The time to wait is what the oldest of them has left in it.
pub proof fn law_group_requests_are_counted(l: bot::RateLimiterView, user_id: u64, now: u64)
    requires
        l.window > 0,
        l.limit > 0,
    ensures
        ({
            let mine = if l.hits.contains_key(user_id) {
                within_window(l.hits[user_id], now, l.window)
            } else {
                Seq::empty()
            };
            &&& l.wait(user_id, now) is None <==> mine.len() < l.limit
            &&& mine.len() >= l.limit && mine[0] <= now ==> l.wait(user_id, now) == Some(
                (mine[0] + l.window - now) as u64,
            )
        }),
{
    limits::law_recent(limits::times_of(l.hits, user_id), now, l.window);
    reveal(Seq::filter);
}

/// The budget of a chat grows in five equal steps from one participant to six.
pub proof fn law_budget_steps(base: nat, step: nat, participants: nat)
    requires
        step >= 1,
    ensures
        participants <= 1 ==> memory::token_budget(base, base + 5 * step, participants) == base,
        1 <= participants <= 6 ==> memory::token_budget(base, base + 5 * step, participants) == base
            + (participants - 1) * step,
        participants >= 6 ==> memory::token_budget(base, base + 5 * step, participants) == base + 5
            * step,
{
    if 2 <= participants <= 5 {
        assert((5 * step) / 5 == step as int);
        assert((participants - 1) * step <= 4 * step) by (nonlinear_arith)
            requires
                participants <= 5,
                step >= 0,
        ;
    } else if participants == 6 {
        assert((participants - 1) * step == 5 * step) by (nonlinear_arith)
            requires
                participants == 6,
        ;
    } else if participants == 1 {
        assert((participants - 1) * step == 0) by (nonlinear_arith)
            requires
                participants == 1,
        ;
    }
}

/// Where the bounds are close the budget grows by one for each participant until
/// it reaches the larger; a maximum below the base does not count.
pub proof fn law_close_budgets(base: nat, more: nat, participants: nat)
    requires
        more < 5,
        1 <= participants <= 5,
    ensures
        memory::token_budget(base, base + more, participants) == base + (if participants - 1 < more {
            participants - 1
        } else {
            more as int
        }),
        forall|max: nat|
            max <= base ==> #[trigger] memory::token_budget(base, max, participants) == base,
{
    assert((more as int) / 5 == 0);
}

/// A message of at most 15000 characters is kept as it is; of a longer one its
/// first 15000 characters are, with a note.
pub proof fn law_long_messages(text: Seq<char>)
    ensures
        text.len() <= 15000 ==> memory::clipped(text) == text,
        text.len() > 15000 ==> memory::clipped(text) == text.take(15000)
            + "\n[сообщение обрезано из-за длины]"@,
{
}

/// A message of the memory reaches the model under its role: an answer as it
/// is, a message of a user behind the name of its author and a colon, or as it
/// is if the name is not known.
pub proof fn law_remembered(m: StoredMessageView)
    ensures
        ({
            let said = memory::remembered(m);
            &&& m.role == "assistant"@ ==> said.role == "assistant"@ && said.content == m.content
            &&& m.role != "assistant"@ ==> said.role == "user"@
            &&& m.role != "assistant"@ && m.display_name is Some && m.display_name->0.len() > 0
                ==> said.content == m.display_name->0 + ": "@ + m.content
            &&& m.role != "assistant"@ && (m.display_name is None || m.display_name->0.len() == 0)
                ==> said.content == m.content
        }),
{
}

/// A conversation is the system prompt and then every message of the history, in
/// its order.
pub proof fn law_conversation(prompt: Seq<char>, history: Seq<StoredMessageView>)
    ensures
        ({
            let c = memory::conversation(prompt, history);
            &&& c.len() == history.len() + 1
            &&& c[0].role == "system"@ && c[0].content == prompt
            &&& forall|i: int|
                0 <= i < history.len() ==> #[trigger] c[i + 1] == memory::remembered(history[i])
        }),
{
}

/// Every fragment is in the lines of the guides.
proof fn lemma_lines_hold(hits: Seq<(Seq<char>, Seq<char>)>, i: int) -> (parts: (
    Seq<char>,
    Seq<char>,
))
    requires
        0 <= i < hits.len(),
    ensures
        memory::guide_lines(hits) == parts.0 + ("\n— Из гайда «"@ + hits[i].0 + "»:\n"@ + hits[i].1
            + "\n"@) + parts.1,
    decreases hits.len(),
{
    let init = hits.drop_last();
    let (title, chunk) = hits.last();
    let own = "\n— Из гайда «"@ + title + "»:\n"@ + chunk + "\n"@;
    let before = memory::guide_lines(init);
    assert(memory::guide_lines(hits) =~= before + own);
    if i == hits.len() - 1 {
        let e = Seq::<char>::empty();
        assert(before + own + e =~= before + own);
        (before, e)
    } else {
        let (a, b) = lemma_lines_hold(init, i);
        assert(init[i] == hits[i]);
        let mine = "\n— Из гайда «"@ + hits[i].0 + "»:\n"@ + hits[i].1 + "\n"@;
        assert(a + mine + b + own =~= a + mine + (b + own));
        (a, b + own)
    }
}

/// The system prompt for the model starts with the prompt in use, without the
/// white space around it, and is just that if no fragment of a guide belongs to
/// the question; else it holds every fragment with the title of its guide.
pub proof fn law_prompt_holds_the_fragments(
    base: Seq<char>,
    hits: Seq<(Seq<char>, Seq<char>)>,
    i: int,
)
    ensures
        hits.len() == 0 ==> memory::prompt_with_guides(base, hits) == strings::trim(base),
        strings::trim(base).is_prefix_of(memory::prompt_with_guides(base, hits)),
        0 <= i < hits.len() ==> strings::occurs(
            memory::prompt_with_guides(base, hits),
            "\n— Из гайда «"@ + hits[i].0 + "»:\n"@ + hits[i].1 + "\n"@,
        ),
{
    let p = memory::prompt_with_guides(base, hits);
    let head = strings::trim(base);
    if hits.len() > 0 {
        let note =
            "\n\nВыдержки из базы знаний (гайдов), релевантные текущему вопросу. Используй их, если они действительно относятся к делу; если не относятся — игнорируй:\n"@;
        assert(p =~= head + (note + memory::guide_lines(hits)));
        assert(p.subrange(0, head.len() as int) =~= head);
        if 0 <= i < hits.len() {
            let (a, b) = lemma_lines_hold(hits, i);
            let mine = "\n— Из гайда «"@ + hits[i].0 + "»:\n"@ + hits[i].1 + "\n"@;
            assert(p =~= (head + note + a) + mine + b);
            basics::law_occurs(head + note + a, mine, b);
        }
    } else {
        assert(p.subrange(0, head.len() as int) =~= head);
    }
}

/// The request for a question that has just been noted ends with it, under the
/// name of its author, and its system prompt holds the fragments of guides that
/// a search with 4000 characters finds by the words of the question.
pub proof fn law_request_ends_with_the_question(
    m: MemoryManagerView,
    user_id: i64,
    chat_id: i64,
    name: Seq<char>,
    question: Seq<char>,
    now: i64,
    i: int,
)
    requires
        name.len() > 0,
        m.cfg.user_memory_tokens > 0,
    ensures
        ({
            let store = m.store.with_message(user_id, chat_id, name, "user"@, question, now);
            let after = MemoryManagerView { store: store, ..m };
            let r = after.request(chat_id, question);
            let hits = guides::found(
                store.guides.rows,
                text::significant_words(question),
                4000,
            );
            &&& r.len() >= 2
            &&& r[0].role == "system"@
            &&& strings::trim(memory::prompt_in_use(store.settings, m.cfg)).is_prefix_of(
                r[0].content,
            )
            &&& 0 <= i < hits.len() ==> strings::occurs(r[0].content, hits[i].1)
            &&& r.last().role == "user"@
            &&& r.last().content == name + ": "@ + question
        }),
{
    reveal_strlit("user");
    reveal_strlit("assistant");
    let store = m.store.with_message(user_id, chat_id, name, "user"@, question, now);
    let after = MemoryManagerView { store: store, ..m };
    let budget = after.budget(memory::counted_participants(store, chat_id));
    memory::law_budget_progression(
        m.cfg.user_memory_tokens as nat,
        m.cfg.max_group_memory_tokens as nat,
        1,
        memory::counted_participants(store, chat_id),
    );
    let row = chats::ChatRowView {
        user_id: user_id,
        chat_id: chat_id,
        role: "user"@,
        content: question,
        created_at: now,
    };
    let limit = crate::db::char_budget(budget);
    assert(limit > 0);
    chats::law_message_reads_back(m.store.chats.users, m.store.chats.messages, row, name, limit);
    let history = chats::all_told(
        store.chats.users,
        chats::newest(chats::chat_rows(store.chats.messages, chat_id), 0, limit),
    );
    let base = memory::prompt_in_use(store.settings, m.cfg);
    let hits = guides::found(store.guides.rows, text::significant_words(question), 4000);
    law_prompt_holds_the_fragments(base, hits, i);
    law_conversation(memory::prompt_with_guides(base, hits), history);
    let r = after.request(chat_id, question);
    assert(r == memory::conversation(memory::prompt_with_guides(base, hits), history));
    let n = history.len() - 1;
    assert(r[n + 1] == memory::remembered(history[n]));
    assert("user"@.len() != "assistant"@.len());
    law_remembered(history.last());
    assert(r.last() == memory::remembered(history.last()));
    if 0 <= i < hits.len() {
        let p = memory::prompt_with_guides(base, hits);
        let mine = "\n— Из гайда «"@ + hits[i].0 + "»:\n"@ + hits[i].1 + "\n"@;
        strings::lemma_find_from(p, mine, 0);
        let k = strings::find(p, mine)->0;
        let a = p.take(k) + "\n— Из гайда «"@ + hits[i].0 + "»:\n"@;
        let b = "\n"@ + p.skip(k + mine.len());
        assert(p =~= p.take(k) + p.subrange(k, k + mine.len()) + p.skip(k + mine.len()));
        assert(p =~= a + hits[i].1 + b);
        basics::law_occurs(a, hits[i].1, b);
    }
}

/// A second is a thousand million nanoseconds.
pub proof fn law_nanos(seconds: u64)
    ensures
        seconds * 1_000_000_000 <= u64::MAX ==> memory::nanos(seconds) == seconds * 1_000_000_000,
        seconds * 1_000_000_000 > u64::MAX ==> memory::nanos(seconds) == u64::MAX,
{
}

/// A request holds, behind the system prompt, the newest messages of the chat
/// that three characters for each token of its budget take in; the budget is that
/// of its participants, or of one if nobody has written.
pub proof fn law_request_holds_the_history(m: MemoryManagerView, chat_id: i64, question: Seq<char>)
    ensures
        ({
            let all = m.store.chats.messages;
            let people = chats::participants(all, chat_id).len();
            let tokens = memory::token_budget(
                m.cfg.user_memory_tokens as nat,
                m.cfg.max_group_memory_tokens as nat,
                if people == 0 {
                    1
                } else {
                    people
                },
            );
            let history = chats::newest(chats::chat_rows(all, chat_id), 0, db::char_budget(tokens));
            let r = m.request(chat_id, question);
            &&& r.len() == history.len() + 1
            &&& forall|i: int|
                0 <= i < history.len() ==> #[trigger] r[i + 1] == memory::remembered(
                    chats::told(m.store.chats.users, history[i]),
                )
        }),
{
}

/// An allowed request in a group is noted behind those within the window; a
/// refused one is not.
pub proof fn law_group_requests_are_noted(l: bot::RateLimiterView, user_id: u64, now: u64)
    requires
        l.window > 0,
        l.hits.dom().finite(),
    ensures
        ({
            let mine = if l.hits.contains_key(user_id) {
                within_window(l.hits[user_id], now, l.window)
            } else {
                Seq::empty()
            };
            let after = l.after(user_id, now);
            &&& after.hits.contains_key(user_id)
            &&& l.wait(user_id, now) is None ==> after.hits[user_id] == mine.push(now)
            &&& l.wait(user_id, now) is Some ==> after.hits[user_id] == mine
            &&& after.limit == l.limit && after.window == l.window
        }),
{
    let mine = l.recent_of(user_id, now);
    if l.hits.contains_key(user_id) {
        limits::law_recent(l.hits[user_id], now, l.window);
    }
    assert(mine == if l.hits.contains_key(user_id) {
        within_window(l.hits[user_id], now, l.window)
    } else {
        Seq::empty()
    });
    let noted = mine.push(now);
    assert(noted.drop_last() =~= mine);
    assert(limits::recent(noted, now, l.window).len() > 0);
}

} // verus!
