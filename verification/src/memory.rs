//! The memory of conversations and the way of a request to the model.

pub mod requests;

use std::collections::HashMap;
use vstd::prelude::*;

use crate::db;
use crate::db::chats;
use crate::db::guides;
use crate::db::GuideInfo;
use crate::db::LimitStep;
use crate::db::MemoryStore;
use crate::db::MemoryView;
use crate::db::StoredMessage;
use crate::db::StoredMessageView;
use crate::limits;
use crate::llm::ChatMessage;
use crate::llm::ChatMessageView;
use crate::llm::LlmSettings;
use crate::llm::LlmSettingsView;
use crate::strings;
use crate::text;

verus! {

/// How many characters of guides go into a request.
pub const GUIDE_CONTEXT_CHARS: usize = 4000;

/// How many characters of a message are taken.
pub const MESSAGE_CHARS: usize = 15000;

/// The least time between two requests to the model in nanoseconds.
pub const PACE_NANOS: u64 = 50_000_000;

/// The setting with the address of the API.
pub const SETTING_BASE_URL: &'static str = "llm_base_url";

/// The setting with the key of the API.
pub const SETTING_API_KEY: &'static str = "llm_api_key";

/// The setting with the model.
pub const SETTING_MODEL: &'static str = "llm_model";

/// The setting with the system prompt.
pub const SETTING_SYSTEM_PROMPT: &'static str = "system_prompt";

/// At most so many requests of each user within a window of time, so that one
/// user cannot take up the whole queue.
#[derive(Debug)]
pub struct RateLimiter {
    requests: HashMap<i64, Vec<u64>>,
    max_requests: usize,
    window: u64,
}

/// What a [`RateLimiter`] holds. Times are in nanoseconds.
pub struct RateLimiterView {
    pub requests: Map<i64, Seq<u64>>,
    pub max_requests: int,
    pub window: u64,
}

impl View for RateLimiter {
    type V = RateLimiterView;

    closed spec fn view(&self) -> RateLimiterView {
        RateLimiterView {
            requests: limits::time_views(self.requests@),
            max_requests: self.max_requests as int,
            window: self.window,
        }
    }
}

/// The number of users beyond which the table is cleaned.
pub const LIMITER_USERS: usize = 1000;

impl RateLimiterView {
    /// The requests of a user within the window.
    pub open spec fn recent_of(self, user_id: i64, now: u64) -> Seq<u64> {
        limits::recent(limits::times_of(self.requests, user_id), now, self.window)
    }

    /// There is room for another request of the user.
    pub open spec fn allows(self, user_id: i64, now: u64) -> bool {
        self.recent_of(user_id, now).len() < self.max_requests
    }

    /// The table without users who have been quiet, once it has grown.
    pub open spec fn cleaned(self, now: u64) -> Map<i64, Seq<u64>> {
        if self.requests.dom().len() > LIMITER_USERS {
            limits::cut_entries(self.requests, now, self.window)
        } else {
            self.requests
        }
    }

    /// The limiter after a request.
    pub open spec fn after(self, user_id: i64, now: u64) -> RateLimiterView {
        let mine = self.recent_of(user_id, now);
        RateLimiterView {
            requests: self.cleaned(now).insert(
                user_id,
                if self.allows(user_id, now) {
                    mine.push(now)
                } else {
                    mine
                },
            ),
            ..self
        }
    }
}

/// Cleaning does not change what is recent.
proof fn lemma_cleaned(l: RateLimiterView, user_id: i64, now: u64)
    ensures
        limits::recent(limits::times_of(l.cleaned(now), user_id), now, l.window) == l.recent_of(
            user_id,
            now,
        ),
{
    limits::lemma_recent_twice(limits::times_of(l.requests, user_id), now, l.window);
    if l.requests.contains_key(user_id) && l.cleaned(now) != l.requests {
        let r = limits::recent(l.requests[user_id], now, l.window);
        if r.len() == 0 {
            assert(r =~= Seq::<u64>::empty());
        }
    }
}

impl RateLimiter {
    /// A limiter without requests. The window is in nanoseconds.
    pub fn new(max_requests: usize, window: u64) -> (r: RateLimiter)
        ensures
            r@ == (RateLimiterView {
                requests: Map::empty(),
                max_requests: max_requests as int,
                window: window,
            }),
    {
        let r = RateLimiter { requests: HashMap::new(), max_requests: max_requests, window: window };
        assert(r@.requests =~= Map::<i64, Seq<u64>>::empty());
        r
    }

    /// Allows a request and notes it, or refuses it because the limit is
    /// reached.
    pub fn check_and_record(&mut self, user_id: i64, now: u64) -> (r: bool)
        ensures
            r == old(self)@.allows(user_id, now),
            final(self)@ == old(self)@.after(user_id, now),
    {
        let ghost before = self@;
        assert(before.requests.dom() =~= self.requests@.dom());
        if self.requests.len() > LIMITER_USERS {
            self.requests = limits::pruned(&self.requests, now, self.window, true);
        }
        assert(self@.requests == before.cleaned(now));
        proof {
            lemma_cleaned(before, user_id, now);
        }
        let mut mine: Vec<u64> = match self.requests.get(&user_id) {
            Some(times) => limits::recent_of(times, now, self.window),
            None => Vec::new(),
        };
        assert(mine@ =~= before.recent_of(user_id, now));
        let allowed: bool = mine.len() < self.max_requests;
        if allowed {
            mine.push(now);
        }
        self.requests.insert(user_id, mine);
        assert(self@.requests =~= before.after(user_id, now).requests);
        allowed
    }

    /// How many requests are left to a user within the window.
    pub fn remaining(&mut self, user_id: i64, now: u64) -> (r: usize)
        ensures
            r == if old(self)@.allows(user_id, now) {
                old(self)@.max_requests - old(self)@.recent_of(user_id, now).len()
            } else {
                0
            },
            final(self)@ == (RateLimiterView {
                requests: old(self)@.requests.insert(user_id, old(self)@.recent_of(user_id, now)),
                ..old(self)@
            }),
    {
        let ghost before = self@;
        let mine: Vec<u64> = match self.requests.get(&user_id) {
            Some(times) => limits::recent_of(times, now, self.window),
            None => Vec::new(),
        };
        assert(mine@ =~= before.recent_of(user_id, now));
        let left: usize = if mine.len() < self.max_requests {
            self.max_requests - mine.len()
        } else {
            0
        };
        self.requests.insert(user_id, mine);
        assert(self@.requests =~= before.requests.insert(
            user_id,
            before.recent_of(user_id, now),
        ));
        left
    }
}

/// The limit is kept: if no user had more than the allowed number of requests
/// within the window, none has after another request, whether it was allowed
/// or not.
pub proof fn law_limit_is_kept(l: RateLimiterView, user_id: i64, now: u64, other: i64)
    requires
        l.recent_of(other, now).len() <= l.max_requests,
    ensures
        l.after(user_id, now).recent_of(other, now).len() <= l.max_requests,
{
    law_users_are_isolated(l, user_id, now, other);
    if other == user_id {
        lemma_after_mine(l, user_id, now);
    }
}

/// What is left of a user's requests after one of theirs.
proof fn lemma_after_mine(l: RateLimiterView, user_id: i64, now: u64)
    ensures
        l.allows(user_id, now) ==> l.after(user_id, now).recent_of(user_id, now).len() <= l.recent_of(
            user_id,
            now,
        ).len() + 1,
        l.allows(user_id, now) && l.window > 0 ==> l.after(user_id, now).recent_of(user_id, now)
            == l.recent_of(user_id, now).push(now),
        !l.allows(user_id, now) ==> l.after(user_id, now).recent_of(user_id, now) == l.recent_of(
            user_id,
            now,
        ),
{
    let mine = l.recent_of(user_id, now);
    limits::lemma_recent_twice(limits::times_of(l.requests, user_id), now, l.window);
    assert(mine.push(now).drop_last() =~= mine);
}

/// The requests of one user do not touch those of another.
pub proof fn law_users_are_isolated(l: RateLimiterView, user_id: i64, now: u64, other: i64)
    ensures
        other != user_id ==> l.after(user_id, now).recent_of(other, now) == l.recent_of(other, now),
{
    lemma_cleaned(l, other, now);
    if other != user_id {
        assert(limits::times_of(l.after(user_id, now).requests, other) == limits::times_of(
            l.cleaned(now),
            other,
        ));
    }
}

/// An allowed request takes one of those that are left, and a refused one
/// takes none.
pub proof fn law_request_counts_once(l: RateLimiterView, user_id: i64, now: u64)
    requires
        l.window > 0,
    ensures
        l.after(user_id, now).recent_of(user_id, now).len() == l.recent_of(user_id, now).len()
            + if l.allows(user_id, now) {
            1int
        } else {
            0int
        },
{
    lemma_after_mine(l, user_id, now);
}

/// Fragments of guides as the model sees them.
pub open spec fn guide_lines(hits: Seq<(Seq<char>, Seq<char>)>) -> Seq<char>
    decreases hits.len(),
{
    if hits.len() == 0 {
        Seq::empty()
    } else {
        let (title, chunk) = hits.last();
        guide_lines(hits.drop_last()) + "\n— Из гайда «"@ + title + "»:\n"@ + chunk + "\n"@
    }
}

/// The system prompt with the fragments of guides that belong to a question.
pub open spec fn prompt_with_guides(
    base_prompt: Seq<char>,
    hits: Seq<(Seq<char>, Seq<char>)>,
) -> Seq<char> {
    if hits.len() == 0 {
        strings::trim(base_prompt)
    } else {
        strings::trim(base_prompt)
            + "\n\nВыдержки из базы знаний (гайдов), релевантные текущему вопросу. Используй их, если они действительно относятся к делу; если не относятся — игнорируй:\n"@
            + guide_lines(hits)
    }
}

/// See [`prompt_with_guides`].
pub fn build_system_prompt(base_prompt: &str, guide_hits: &[(String, String)]) -> (r: String)
    ensures
        r@ == prompt_with_guides(base_prompt@, guides::pair_views(guide_hits@)),
{
    let ghost all = guides::pair_views(guide_hits@);
    let mut prompt = strings::trimmed(base_prompt);
    if guide_hits.len() > 0 {
        prompt.append(
            "\n\nВыдержки из базы знаний (гайдов), релевантные текущему вопросу. Используй их, если они действительно относятся к делу; если не относятся — игнорируй:\n",
        );
        let ghost head = prompt@;
        let mut i: usize = 0;
        assert(all.take(0) =~= Seq::<(Seq<char>, Seq<char>)>::empty());
        assert(head + guide_lines(all.take(0)) =~= head);
        while i < guide_hits.len()
            invariant
                i <= guide_hits@.len(),
                all == guides::pair_views(guide_hits@),
                prompt@ == head + guide_lines(all.take(i as int)),
            decreases guide_hits@.len() - i,
        {
            proof {
                assert(all.take(i + 1).drop_last() =~= all.take(i as int));
                assert(all.take(i + 1).last() == (
                    guide_hits@[i as int].0@,
                    guide_hits@[i as int].1@,
                ));
            }
            prompt.append("\n— Из гайда «");
            prompt.append(guide_hits[i].0.as_str());
            prompt.append("»:\n");
            prompt.append(guide_hits[i].1.as_str());
            prompt.append("\n");
            assert(prompt@ =~= head + guide_lines(all.take(i + 1)));
            i += 1;
        }
        assert(all.take(all.len() as int) =~= all);
    }
    prompt
}

/// A message of the memory as the model sees it.
pub open spec fn remembered(m: StoredMessageView) -> ChatMessageView {
    if m.role == "assistant"@ {
        ChatMessageView::of_assistant(m.content)
    } else {
        match m.display_name {
            Some(n) => if n.len() > 0 {
                ChatMessageView::of_user(n + ": "@ + m.content)
            } else {
                ChatMessageView::of_user(m.content)
            },
            None => ChatMessageView::of_user(m.content),
        }
    }
}

/// The messages of a request: the system prompt and the history.
pub open spec fn conversation(prompt: Seq<char>, history: Seq<StoredMessageView>) -> Seq<
    ChatMessageView,
> {
    seq![ChatMessageView::of_system(prompt)] + history.map_values(
        |m: StoredMessageView| remembered(m),
    )
}

/// See [`conversation`].
pub fn build_conversation(prompt: String, history: &Vec<StoredMessage>) -> (r: Vec<ChatMessage>)
    ensures
        ChatMessage::views(r@) == conversation(prompt@, StoredMessage::views(history@)),
{
    let ghost all = StoredMessage::views(history@);
    let ghost told = all.map_values(|m: StoredMessageView| remembered(m));
    let ghost first = ChatMessageView::of_system(prompt@);
    let mut messages: Vec<ChatMessage> = Vec::new();
    messages.push(ChatMessage::system(prompt));
    let mut i: usize = 0;
    assert(ChatMessage::views(messages@) =~= seq![first] + told.take(0));
    while i < history.len()
        invariant
            i <= history@.len(),
            all == StoredMessage::views(history@),
            told == all.map_values(|m: StoredMessageView| remembered(m)),
            ChatMessage::views(messages@) == seq![first] + told.take(i as int),
        decreases history@.len() - i,
    {
        let m = &history[i];
        let ghost before = ChatMessage::views(messages@);
        let line = if strings::str_eq(m.role.as_str(), "assistant") {
            ChatMessage::assistant(m.content.clone())
        } else {
            match &m.display_name {
                Some(n) => if !n.as_str().is_empty() {
                    ChatMessage::user_named(n.as_str(), m.content.as_str())
                } else {
                    ChatMessage::user(m.content.clone())
                },
                None => ChatMessage::user(m.content.clone()),
            }
        };
        proof {
            assert(told[i as int] == remembered(all[i as int]));
            assert(all[i as int] == m@);
            assert(line@ == told[i as int]);
        }
        messages.push(line);
        proof {
            assert(ChatMessage::views(messages@) =~= before.push(line@));
            assert((seq![first] + told.take(i as int)).push(line@) =~= seq![first] + told.take(
                i + 1,
            ));
        }
        i += 1;
    }
    assert(told.take(told.len() as int) =~= told);
    messages
}

/// The memory of a chat for a report.
#[derive(Debug)]
pub struct ChatSnapshot {
    pub message_count: i64,
    pub est_tokens: usize,
    pub participants: usize,
    pub budget: usize,
}

/// The settings for a report.
#[derive(Debug)]
pub struct SettingsSnapshot {
    pub base_url: String,
    pub api_key: String,
    pub model: String,
    pub system_prompt: String,
    pub default_base_url: String,
    pub default_model: String,
    pub default_system_prompt: String,
    /// The names of the settings that are set in the database.
    pub overridden: Vec<String>,
}

impl SettingsSnapshot {
    /// The setting is set in the database.
    pub fn is_overridden(&self, key: &str) -> (r: bool)
        ensures
            r == strings::views(self.overridden@).contains(key@),
    {
        let ghost all = strings::views(self.overridden@);
        let mut i: usize = 0;
        while i < self.overridden.len()
            invariant
                i <= self.overridden@.len(),
                all == strings::views(self.overridden@),
                forall|k: int| 0 <= k < i ==> #[trigger] all[k] != key@,
            decreases self.overridden@.len() - i,
        {
            if strings::str_eq(self.overridden[i].as_str(), key) {
                assert(all[i as int] == key@);
                return true;
            }
            i += 1;
        }
        false
    }
}

/// What the memory is configured with.
#[derive(Debug)]
pub struct MemoryConfig {
    /// The tokens of history for one participant.
    pub user_memory_tokens: usize,
    /// The tokens of history for a full group.
    pub max_group_memory_tokens: usize,
    /// The size that the database may reach.
    pub memory_limit_bytes: u64,
    pub rate_limit_requests: usize,
    pub rate_limit_window_secs: u64,
    pub llm_base_url: String,
    pub llm_api_key: String,
    pub llm_model: String,
    pub default_system_prompt: String,
}

/// The tokens of history for a number of participants: `base` for one, equal
/// steps up for each further one, and `max` for six or more.
pub open spec fn token_budget(base: nat, max: nat, participants: nat) -> nat {
    if participants <= 1 || max <= base {
        base
    } else if participants >= 6 {
        max
    } else {
        let fifth = (max - base) / 5;
        let step = if fifth > 1 {
            fifth
        } else {
            1
        };
        let budget = (base + (participants - 1) * step) as nat;
        if budget < max {
            budget
        } else {
            max
        }
    }
}

/// See [`token_budget`].
pub fn budget_for(base: usize, max: usize, participants: usize) -> (r: usize)
    ensures
        r == token_budget(base as nat, max as nat, participants as nat),
{
    if participants <= 1 || max <= base {
        return base;
    }
    if participants >= 6 {
        return max;
    }
    let fifth: usize = (max - base) / 5;
    let step: usize = if fifth > 1 {
        fifth
    } else {
        1
    };
    assert((participants - 1) * step <= 4 * 0xffff_ffff_ffff_ffff) by (nonlinear_arith)
        requires
            0 <= participants - 1 <= 4,
            0 <= step <= 0xffff_ffff_ffff_ffff,
    ;
    let extra: u128 = (participants - 1) as u128 * step as u128;
    if extra < (max - base) as u128 {
        base + extra as usize
    } else {
        max
    }
}

/// A larger group has no smaller budget; one participant has the base, and no
/// group has more than the larger of the two bounds. Six participants or more
/// have the maximum.
pub proof fn law_budget_progression(base: nat, max: nat, a: nat, b: nat)
    requires
        a <= b,
    ensures
        token_budget(base, max, a) <= token_budget(base, max, b),
        token_budget(base, max, 1) == base,
        base <= token_budget(base, max, a),
        base <= max ==> token_budget(base, max, a) <= max,
        a >= 6 && base <= max ==> token_budget(base, max, a) == max,
{
    if a > 1 && max > base {
        let fifth = (max - base) / 5;
        let step = if fifth > 1 {
            fifth
        } else {
            1
        };
        assert((a - 1) * step <= (b - 1) * step) by (nonlinear_arith)
            requires
                1 <= a <= b,
                step >= 0,
        ;
        assert((a - 1) * step >= 0) by (nonlinear_arith)
            requires
                a >= 1,
                step >= 0,
        ;
    } else if b > 1 && max > base {
        let fifth = (max - base) / 5;
        let step = if fifth > 1 {
            fifth
        } else {
            1
        };
        assert((b - 1) * step >= 0) by (nonlinear_arith)
            requires
                b >= 1,
                step >= 0,
        ;
    }
}

/// The text of a message as it is kept: the start of a very long one.
pub open spec fn clipped(text: Seq<char>) -> Seq<char> {
    if text.len() > MESSAGE_CHARS {
        text.take(MESSAGE_CHARS as int) + "\n[сообщение обрезано из-за длины]"@
    } else {
        text
    }
}

/// See [`clipped`].
pub fn clip(text: &str) -> (r: String)
    ensures
        r@ == clipped(text@),
{
    if text.unicode_len() > MESSAGE_CHARS {
        let mut cut = strings::first_chars(text, MESSAGE_CHARS);
        cut.append("\n[сообщение обрезано из-за длины]");
        cut
    } else {
        text.to_owned()
    }
}

/// What is still to wait before the next request to the model, if the last
/// one was the given time ago. Both are in nanoseconds.
pub fn pace_delay(elapsed: u64) -> (r: Option<u64>)
    ensures
        match r {
            Some(d) => elapsed < PACE_NANOS && d == PACE_NANOS - elapsed,
            None => elapsed >= PACE_NANOS,
        },
        r == if elapsed < 50_000_000 {
            Some((50_000_000 - elapsed) as u64)
        } else {
            None
        },
{
    if elapsed < PACE_NANOS {
        Some(PACE_NANOS - elapsed)
    } else {
        None
    }
}

/// A stored setting that is not blank, or else the default.
pub open spec fn setting_or(
    settings: Map<Seq<char>, Seq<char>>,
    key: Seq<char>,
    default: Seq<char>,
) -> Seq<char> {
    match settings.get(key) {
        Some(v) => if strings::blank(v) {
            default
        } else {
            v
        },
        None => default,
    }
}

/// The settings in use. A key in the database counts even if it is blank.
pub open spec fn settings_in_use(
    settings: Map<Seq<char>, Seq<char>>,
    cfg: MemoryConfig,
) -> LlmSettingsView {
    LlmSettingsView {
        base_url: setting_or(settings, SETTING_BASE_URL@, cfg.llm_base_url@),
        api_key: match settings.get(SETTING_API_KEY@) {
            Some(v) => v,
            None => cfg.llm_api_key@,
        },
        model: setting_or(settings, SETTING_MODEL@, cfg.llm_model@),
    }
}

/// The system prompt in use.
pub open spec fn prompt_in_use(
    settings: Map<Seq<char>, Seq<char>>,
    cfg: MemoryConfig,
) -> Seq<char> {
    setting_or(settings, SETTING_SYSTEM_PROMPT@, cfg.default_system_prompt@)
}

/// A request that is ready to be sent.
#[derive(Debug)]
pub struct PreparedReply {
    pub messages: Vec<ChatMessage>,
    pub settings: LlmSettings,
    /// The tokens of history that the chat keeps after the answer.
    pub budget: usize,
}

/// The number of participants that a request counts: at least one.
pub open spec fn counted_participants(m: MemoryView, chat_id: i64) -> nat {
    let n = chats::participants(m.chats.messages, chat_id).len();
    if n > 1 {
        n
    } else {
        1
    }
}

/// The memory manager: the history of chats that all participants share, with
/// a budget that grows with their number.
#[derive(Debug)]
pub struct MemoryManager {
    store: MemoryStore,
    cfg: MemoryConfig,
    rate_limiter: RateLimiter,
}

/// What a [`MemoryManager`] holds.
pub struct MemoryManagerView {
    pub store: MemoryView,
    pub cfg: MemoryConfig,
    pub rate_limiter: RateLimiterView,
}

impl View for MemoryManager {
    type V = MemoryManagerView;

    closed spec fn view(&self) -> MemoryManagerView {
        MemoryManagerView {
            store: self.store@,
            cfg: self.cfg,
            rate_limiter: self.rate_limiter@,
        }
    }
}

impl MemoryManagerView {
    /// The budget of a chat with a number of participants.
    pub open spec fn budget(self, participants: nat) -> nat {
        token_budget(
            self.cfg.user_memory_tokens as nat,
            self.cfg.max_group_memory_tokens as nat,
            participants,
        )
    }

    /// The request for a question that is in the memory already.
    pub open spec fn request(self, chat_id: i64, question: Seq<char>) -> Seq<ChatMessageView> {
        let m = self.store;
        let budget = self.budget(counted_participants(m, chat_id));
        conversation(
            prompt_with_guides(
                prompt_in_use(m.settings, self.cfg),
                guides::found(
                    m.guides.rows,
                    text::significant_words(question),
                    GUIDE_CONTEXT_CHARS as int,
                ),
            ),
            chats::all_told(
                m.chats.users,
                chats::newest(
                    chats::chat_rows(m.chats.messages, chat_id),
                    0,
                    db::char_budget(budget),
                ),
            ),
        )
    }
}

/// The nanoseconds of a number of seconds, as far as the machine can count.
pub open spec fn nanos(seconds: u64) -> u64 {
    if seconds <= u64::MAX / 1_000_000_000 {
        (seconds * 1_000_000_000) as u64
    } else {
        u64::MAX
    }
}

/// See [`nanos`].
pub fn nanos_of(seconds: u64) -> (r: u64)
    ensures
        r == nanos(seconds),
{
    if seconds <= u64::MAX / 1_000_000_000 {
        seconds * 1_000_000_000
    } else {
        u64::MAX
    }
}

impl MemoryManager {
    /// The tables are well formed.
    pub closed spec fn wf(&self) -> bool {
        self.store.wf()
    }

    /// A manager of the given memory.
    pub fn new(store: MemoryStore, cfg: MemoryConfig) -> (r: MemoryManager)
        requires
            store.wf(),
        ensures
            r.wf(),
            r@.store == store@,
            r@.cfg == cfg,
            r@.rate_limiter == (RateLimiterView {
                requests: Map::empty(),
                max_requests: cfg.rate_limit_requests as int,
                window: nanos(cfg.rate_limit_window_secs),
            }),
    {
        let limiter = RateLimiter::new(
            cfg.rate_limit_requests,
            nanos_of(cfg.rate_limit_window_secs),
        );
        MemoryManager { store: store, cfg: cfg, rate_limiter: limiter }
    }

    /// The memory that is managed.
    pub fn store(&self) -> (r: &MemoryStore)
        ensures
            r@ == self@.store,
            self.wf() ==> r.wf(),
    {
        &self.store
    }

    /// The budget of tokens for a number of participants.
    pub fn compute_chat_token_budget(&self, participants: usize) -> (r: usize)
        ensures
            r == self@.budget(participants as nat),
    {
        budget_for(self.cfg.user_memory_tokens, self.cfg.max_group_memory_tokens, participants)
    }

    /// Allows a request of a user and notes it, or refuses it.
    pub fn check_rate_limit(&mut self, user_id: i64, now: u64) -> (r: bool)
        requires
            old(self).wf(),
        ensures
            final(self).wf(),
            r == old(self)@.rate_limiter.allows(user_id, now),
            final(self)@ == (MemoryManagerView {
                rate_limiter: old(self)@.rate_limiter.after(user_id, now),
                ..old(self)@
            }),
    {
        self.rate_limiter.check_and_record(user_id, now)
    }

    /// How many requests are left to a user within the window.
    pub fn rate_limit_remaining(&mut self, user_id: i64, now: u64) -> (r: usize)
        requires
            old(self).wf(),
        ensures
            final(self).wf(),
            r == if old(self)@.rate_limiter.allows(user_id, now) {
                old(self)@.rate_limiter.max_requests - old(self)@.rate_limiter.recent_of(
                    user_id,
                    now,
                ).len()
            } else {
                0
            },
            final(self)@ == (MemoryManagerView {
                rate_limiter: RateLimiterView {
                    requests: old(self)@.rate_limiter.requests.insert(
                        user_id,
                        old(self)@.rate_limiter.recent_of(user_id, now),
                    ),
                    ..old(self)@.rate_limiter
                },
                ..old(self)@
            }),
    {
        self.rate_limiter.remaining(user_id, now)
    }

    /// The number of requests allowed to a user.
    pub fn rate_limit_max(&self) -> (r: usize)
        ensures
            r == self@.cfg.rate_limit_requests,
    {
        self.cfg.rate_limit_requests
    }

    /// The window of the limit in seconds.
    pub fn rate_limit_window_secs(&self) -> (r: u64)
        ensures
            r == self@.cfg.rate_limit_window_secs,
    {
        self.cfg.rate_limit_window_secs
    }

    /// Saves a question and makes the request for it out of the memory that
    /// the participants of the chat share.
    pub fn reply_stream(
        &mut self,
        user_id: i64,
        chat_id: i64,
        display_name: &str,
        text: &str,
        now: i64,
    ) -> (r: PreparedReply)
        requires
            old(self).wf(),
        ensures
            final(self).wf(),
            final(self)@ == (MemoryManagerView {
                store: old(self)@.store.with_message(
                    user_id,
                    chat_id,
                    display_name@,
                    "user"@,
                    clipped(text@),
                    now,
                ),
                ..old(self)@
            }),
            ChatMessage::views(r.messages@) == final(self)@.request(chat_id, clipped(text@)),
            r.settings@ == settings_in_use(old(self)@.store.settings, old(self)@.cfg),
            r.budget == final(self)@.budget(counted_participants(final(self)@.store, chat_id)),
    {
        let question = clip(text);
        self.store.add_message_at(
            user_id,
            chat_id,
            display_name,
            "user",
            question.as_str(),
            now,
        );
        let counted: usize = self.store.chat_participant_count(chat_id);
        let participants: usize = if counted > 1 {
            counted
        } else {
            1
        };
        let budget: usize = self.compute_chat_token_budget(participants);
        let history = self.store.chat_messages_within_tokens(chat_id, budget);
        let words = text::meaningful_words(question.as_str());
        let hits = self.store.search_guide_chunks(&words, GUIDE_CONTEXT_CHARS);
        let base_prompt = self.effective_system_prompt();
        let prompt = build_system_prompt(base_prompt.as_str(), hits.as_slice());
        let messages = build_conversation(prompt, &history);
        PreparedReply { messages: messages, settings: self.effective_settings(), budget: budget }
    }

    /// Saves the answer to a question and removes what no longer fits into the
    /// budget of the chat. Gives the number of messages removed.
    pub fn finish_reply(
        &mut self,
        user_id: i64,
        chat_id: i64,
        answer: &str,
        budget: usize,
        now: i64,
    ) -> (r: usize)
        requires
            old(self).wf(),
        ensures
            final(self).wf(),
            ({
                let told = old(self)@.store.with_message(
                    user_id,
                    chat_id,
                    Seq::empty(),
                    "assistant"@,
                    strings::trim(answer@),
                    now,
                );
                let kept = told.with_trimmed(
                    Some(chat_id),
                    db::char_budget(budget as nat),
                );
                &&& final(self)@ == (MemoryManagerView { store: kept, ..old(self)@ })
                &&& r == told.chats.messages.len() - kept.chats.messages.len()
            }),
    {
        let text = strings::trimmed(answer);
        proof {
            reveal_strlit("");
            assert(""@ =~= Seq::<char>::empty());
        }
        self.store.add_message_at(user_id, chat_id, "", "assistant", text.as_str(), now);
        self.store.trim_chat_history(chat_id, budget)
    }

    /// The size that the database may reach.
    pub fn memory_limit_bytes(&self) -> (r: u64)
        ensures
            r == self@.cfg.memory_limit_bytes,
    {
        self.cfg.memory_limit_bytes
    }

    /// The database is so large that it must be cleaned.
    pub fn over_limit(&self, disk_size: u64) -> (r: bool)
        requires
            self@.cfg.memory_limit_bytes * 95 <= u64::MAX,
        ensures
            r == (disk_size > self@.cfg.memory_limit_bytes * 95 / 100),
    {
        disk_size > self.cfg.memory_limit_bytes * 95 / 100
    }

    /// One step of cleaning the database: see [`MemoryStore::enforce_limit`].
    pub fn check_global_limit(&mut self, stage: u8, disk_size: u64) -> (r: LimitStep)
        requires
            old(self).wf(),
        ensures
            final(self).wf(),
            ({
                let (after, step) = old(self)@.store.limited(
                    stage,
                    disk_size,
                    old(self)@.cfg.memory_limit_bytes,
                );
                &&& r == step
                &&& final(self)@ == (MemoryManagerView { store: after, ..old(self)@ })
            }),
    {
        let limit: u64 = self.cfg.memory_limit_bytes;
        self.store.enforce_limit(stage, disk_size, limit)
    }

    /// Clears the memory of a chat.
    pub fn reset_chat(&mut self, chat_id: i64)
        requires
            old(self).wf(),
        ensures
            final(self).wf(),
            final(self)@.store.chats.messages == chats::without_chat(
                old(self)@.store.chats.messages,
                chat_id,
            ),
            final(self)@.store.chats.users == old(self)@.store.chats.users,
            final(self)@.store.guides == old(self)@.store.guides,
            final(self)@.store.settings == old(self)@.store.settings,
            final(self)@.cfg == old(self)@.cfg,
            final(self)@.rate_limiter == old(self)@.rate_limiter,
    {
        self.store.reset_chat(chat_id);
    }

    /// The memory of a chat for a report.
    pub fn chat_snapshot(&self, chat_id: i64) -> (r: ChatSnapshot)
        ensures
            r.message_count == chats::chat_rows(self@.store.chats.messages, chat_id).len() as i64,
            r.est_tokens == (guides::counted(
                chats::chars_from(self@.store.chats.messages, 0, chat_id),
            ) + 2) / 3,
            r.participants == chats::participants(self@.store.chats.messages, chat_id).len(),
            r.budget == self@.budget(r.participants as nat),
    {
        let (message_count, est_tokens, participants) = self.store.chat_stats(chat_id);
        ChatSnapshot {
            message_count: message_count,
            est_tokens: est_tokens,
            participants: participants,
            budget: self.compute_chat_token_budget(participants),
        }
    }

    /// The numbers of messages, users and guides.
    pub fn global_stats(&self) -> (r: (i64, i64, i64))
        ensures
            r.0 == self@.store.chats.messages.len() as i64,
            r.1 == self@.store.chats.users.len() as i64,
            r.2 == self@.store.guides.rows.len() as i64,
    {
        (self.store.total_messages(), self.store.total_users(), self.store.guides_count())
    }

    /// The list of guides.
    pub fn guides(&self) -> (r: Vec<GuideInfo>)
        ensures
            guides::info_views(r@) == self@.store.guides.rows.map_values(
                |g: guides::GuideRowView| guides::info(g),
            ),
    {
        self.store.guides()
    }

    /// The id of the guide that a query names.
    pub fn find_guide(&self, query: &str) -> (r: Option<i64>)
        ensures
            match r {
                Some(id) => match guides::named(self@.store.guides.rows, query@) {
                    Some(i) => 0 <= i < self@.store.guides.rows.len() && id
                        == self@.store.guides.rows[i].guide_id,
                    None => false,
                },
                None => guides::named(self@.store.guides.rows, query@) is None,
            },
    {
        self.store.find_guide(query)
    }

    /// Removes a guide. Tells whether it was there.
    pub fn delete_guide(&mut self, guide_id: i64) -> (r: bool)
        requires
            old(self).wf(),
        ensures
            final(self).wf(),
            final(self)@.cfg == old(self)@.cfg,
            final(self)@.rate_limiter == old(self)@.rate_limiter,
            final(self)@.store.chats == old(self)@.store.chats,
            final(self)@.store.settings == old(self)@.store.settings,
            final(self)@.store.guides.last_id == old(self)@.store.guides.last_id,
            match guides::by_id(old(self)@.store.guides.rows, guide_id) {
                Some(i) => r && final(self)@.store.guides.rows
                    == old(self)@.store.guides.rows.remove(i),
                None => !r && final(self)@.store.guides.rows == old(self)@.store.guides.rows,
            },
    {
        self.store.delete_guide(guide_id)
    }

    /// Adds a guide. Gives the number of its fragments, or a message for the
    /// user.
    pub fn add_guide(&mut self, title: &str, added_by: i64, content: &str, now: i64) -> (r: Result<
        usize,
        String,
    >)
        requires
            old(self).wf(),
        ensures
            final(self).wf(),
            match r {
                Ok(n) => {
                    &&& old(self)@.store.guides.refusal(title@, content@) is None
                    &&& final(self)@ == (MemoryManagerView {
                        store: old(self)@.store.with_guide(title@, added_by, content@, now),
                        ..old(self)@
                    })
                    &&& n == old(self)@.store.guides.new_row(
                        title@,
                        added_by,
                        content@,
                        now,
                    ).chunks.len()
                },
                Err(e) => {
                    &&& final(self)@ == old(self)@
                    &&& old(self)@.store.guides.refusal(title@, content@) matches Some(reason)
                    &&& e@ == reason.message()
                },
            },
    {
        match self.store.add_guide_at(title, added_by, content, now) {
            Ok(n) => Ok(n),
            Err(e) => Err(e.to_string()),
        }
    }

    /// The tokens of history for one participant.
    pub fn user_memory_tokens(&self) -> (r: usize)
        ensures
            r == self@.cfg.user_memory_tokens,
    {
        self.cfg.user_memory_tokens
    }

    /// A stored setting that is not blank, or else the default.
    fn setting(&self, key: &str, default: &String) -> (r: String)
        requires
            self.wf(),
        ensures
            r@ == setting_or(self@.store.settings, key@, default@),
    {
        match self.store.get_setting(key) {
            Some(v) => if strings::is_blank(v.as_str()) {
                default.clone()
            } else {
                v
            },
            None => default.clone(),
        }
    }

    /// The settings in use.
    pub fn effective_settings(&self) -> (r: LlmSettings)
        requires
            self.wf(),
        ensures
            r@ == settings_in_use(self@.store.settings, self@.cfg),
    {
        let api_key = match self.store.get_setting(SETTING_API_KEY) {
            Some(v) => v,
            None => self.cfg.llm_api_key.clone(),
        };
        LlmSettings {
            base_url: self.setting(SETTING_BASE_URL, &self.cfg.llm_base_url),
            api_key: api_key,
            model: self.setting(SETTING_MODEL, &self.cfg.llm_model),
        }
    }

    /// The system prompt in use.
    pub fn effective_system_prompt(&self) -> (r: String)
        requires
            self.wf(),
        ensures
            r@ == prompt_in_use(self@.store.settings, self@.cfg),
    {
        self.setting(SETTING_SYSTEM_PROMPT, &self.cfg.default_system_prompt)
    }

    /// The settings for a report.
    pub fn settings_snapshot(&self) -> (r: SettingsSnapshot)
        requires
            self.wf(),
        ensures
            ({
                let s = settings_in_use(self@.store.settings, self@.cfg);
                &&& r.base_url@ == s.base_url
                &&& r.api_key@ == s.api_key
                &&& r.model@ == s.model
                &&& r.system_prompt@ == prompt_in_use(self@.store.settings, self@.cfg)
                &&& r.default_base_url@ == self@.cfg.llm_base_url@
                &&& r.default_model@ == self@.cfg.llm_model@
                &&& r.default_system_prompt@ == self@.cfg.default_system_prompt@
                &&& db::settings::rising(strings::views(r.overridden@))
                &&& forall|k: Seq<char>|
                    #[trigger] strings::views(r.overridden@).contains(k)
                        <==> self@.store.settings.contains_key(k)
            }),
    {
        let s = self.effective_settings();
        SettingsSnapshot {
            base_url: s.base_url,
            api_key: s.api_key,
            model: s.model,
            system_prompt: self.effective_system_prompt(),
            default_base_url: self.cfg.llm_base_url.clone(),
            default_model: self.cfg.llm_model.clone(),
            default_system_prompt: self.cfg.default_system_prompt.clone(),
            overridden: self.store.all_settings(),
        }
    }

    /// Sets a setting.
    pub fn set_setting(&mut self, key: &str, value: &str)
        requires
            old(self).wf(),
        ensures
            final(self).wf(),
            final(self)@ == (MemoryManagerView {
                store: MemoryView {
                    settings: old(self)@.store.settings.insert(key@, value@),
                    ..old(self)@.store
                },
                ..old(self)@
            }),
    {
        self.store.set_setting(key, value);
    }

    /// Returns a setting to its default. Tells whether it was set.
    pub fn reset_setting(&mut self, key: &str) -> (r: bool)
        requires
            old(self).wf(),
        ensures
            final(self).wf(),
            final(self)@ == (MemoryManagerView {
                store: MemoryView {
                    settings: old(self)@.store.settings.remove(key@),
                    ..old(self)@.store
                },
                ..old(self)@
            }),
            r == old(self)@.store.settings.contains_key(key@),
    {
        self.store.delete_setting(key)
    }
}

/// A setting that was reset is the default again; one that was set to a value
/// that is not blank is that value.
pub proof fn law_settings_override(
    settings: Map<Seq<char>, Seq<char>>,
    key: Seq<char>,
    value: Seq<char>,
    default: Seq<char>,
)
    ensures
        setting_or(settings.remove(key), key, default) == default,
        !strings::blank(value) ==> setting_or(settings.insert(key, value), key, default) == value,
{
}

} // verus!
