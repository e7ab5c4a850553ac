//! The bot in groups: its state, its limits and its pace.

pub mod answers;
pub mod flow;
pub mod handlers_admin;
pub mod handlers_chat;
pub mod router;

use std::collections::HashMap;
use vstd::prelude::*;

use crate::config::Config;
use crate::config::ConfigView;
use crate::knowledge::loader::KnowledgeCardView;
use crate::knowledge::matcher::Matcher;
use crate::limits;
use crate::llm::client::LlmClient;
use crate::llm::client::LlmClientView;
use crate::llm::state::ModelState;
use crate::llm::state::ModelStateView;
use crate::storage::Store;
use crate::storage::StoreView;

verus! {

/// The least time between two requests to the model in nanoseconds.
pub const PACE_NANOS: u64 = 50_000_000;

/// The state of the bot.
pub struct App {
    pub cfg: Config,
    pub store: Store,
    pub llm: LlmClient,
    pub models: ModelState,
    pub matcher: Matcher,
    pub limiter: RateLimiter,
    pub bot_id: u64,
    pub bot_username: String,
    /// Answers are shown while they come in.
    pub streaming: bool,
}

/// What an [`App`] holds.
pub struct AppView {
    pub cfg: ConfigView,
    pub store: StoreView,
    pub llm: LlmClientView,
    pub models: ModelStateView,
    pub cards: Seq<KnowledgeCardView>,
    pub limiter: RateLimiterView,
    pub bot_id: u64,
    pub bot_username: Seq<char>,
    pub streaming: bool,
}

impl View for App {
    type V = AppView;

    open spec fn view(&self) -> AppView {
        AppView {
            cfg: self.cfg@,
            store: self.store@,
            llm: self.llm@,
            models: self.models@,
            cards: self.matcher@,
            limiter: self.limiter@,
            bot_id: self.bot_id,
            bot_username: self.bot_username@,
            streaming: self.streaming,
        }
    }
}

impl App {
    /// The index of the knowledge base is complete, and the history of a
    /// dialogue can be counted in characters.
    pub open spec fn wf(&self) -> bool {
        &&& self.matcher.wf()
        &&& self.cfg.message_window_tokens * 3 <= usize::MAX
    }

    /// What is still to wait before the next request to the model, if the last
    /// one was the given time ago. Both are in nanoseconds. Nothing means that
    /// the request may go out now.
    pub fn wait_pace(elapsed: u64) -> (r: Option<u64>)
        ensures
            match r {
                Some(d) => elapsed < PACE_NANOS && d == PACE_NANOS - elapsed,
                None => elapsed >= PACE_NANOS,
            },
            r == if elapsed < 50_000_000 {
                Some((50_000_000 - elapsed) as u64)
            } else {
                None
            },
    {
        if elapsed >= PACE_NANOS {
            None
        } else {
            Some(PACE_NANOS - elapsed)
        }
    }

    /// Answers are shown while they come in.
    pub fn is_streaming(&self) -> (r: bool)
        ensures
            r == self@.streaming,
    {
        self.streaming
    }

    /// Turns the streaming of answers on or off. Tells whether it is on.
    pub fn toggle_streaming(&mut self) -> (r: bool)
        ensures
            r == !old(self)@.streaming,
            final(self)@ == (AppView { streaming: r, ..old(self)@ }),
            final(self).wf() == old(self).wf(),
    {
        self.streaming = !self.streaming;
        self.streaming
    }
}

/// At most so many requests of each user within a window of time.
#[derive(Debug)]
pub struct RateLimiter {
    hits: HashMap<u64, Vec<u64>>,
    limit: usize,
    window: u64,
}

/// What a [`RateLimiter`] holds. Times are in nanoseconds.
pub struct RateLimiterView {
    pub hits: Map<u64, Seq<u64>>,
    pub limit: int,
    pub window: u64,
}

impl View for RateLimiter {
    type V = RateLimiterView;

    closed spec fn view(&self) -> RateLimiterView {
        RateLimiterView {
            hits: limits::time_views(self.hits@),
            limit: self.limit as int,
            window: self.window,
        }
    }
}

/// The number of users beyond which the table is cleaned.
pub const LIMITER_USERS: usize = 1000;

impl RateLimiterView {
    /// The requests of a user within the window.
    pub open spec fn recent_of(self, user_id: u64, now: u64) -> Seq<u64> {
        limits::recent(limits::times_of(self.hits, user_id), now, self.window)
    }

    /// How long a user has to wait until the oldest request leaves the window;
    /// nothing if there is room for another request.
    pub open spec fn wait(self, user_id: u64, now: u64) -> Option<u64> {
        let mine = self.recent_of(user_id, now);
        if mine.len() < self.limit {
            None
        } else if mine.len() == 0 {
            Some(self.window)
        } else {
            Some((self.window - limits::age(now, mine[0])) as u64)
        }
    }

    /// The limiter after a request. One that is refused is not noted.
    pub open spec fn after(self, user_id: u64, now: u64) -> RateLimiterView {
        let mine = self.recent_of(user_id, now);
        if self.wait(user_id, now) is Some {
            RateLimiterView { hits: self.hits.insert(user_id, mine), ..self }
        } else {
            let hits = self.hits.insert(user_id, mine.push(now));
            RateLimiterView {
                hits: if hits.dom().len() > LIMITER_USERS {
                    limits::live_entries(hits, now, self.window)
                } else {
                    hits
                },
                ..self
            }
        }
    }
}

/// Every moment within the window is younger than the window.
proof fn lemma_recent_young(times: Seq<u64>, now: u64, window: u64)
    ensures
        forall|i: int|
            0 <= i < limits::recent(times, now, window).len() ==> limits::age(
                now,
                #[trigger] limits::recent(times, now, window)[i],
            ) < window,
    decreases times.len(),
{
    if times.len() > 0 {
        lemma_recent_young(times.drop_last(), now, window);
        let rest = limits::recent(times.drop_last(), now, window);
        let r = limits::recent(times, now, window);
        assert forall|i: int| 0 <= i < r.len() implies limits::age(now, #[trigger] r[i])
            < window by {
            if i < rest.len() {
                assert(r[i] == rest[i]);
            }
        }
    }
}

impl RateLimiter {
    /// A limiter without requests. The window is in nanoseconds.
    pub fn new(limit: usize, window: u64) -> (r: RateLimiter)
        ensures
            r@ == (RateLimiterView { hits: Map::empty(), limit: limit as int, window: window }),
    {
        let r = RateLimiter { hits: HashMap::new(), limit: limit, window: window };
        assert(r@.hits =~= Map::<u64, Seq<u64>>::empty());
        r
    }

    /// Notes a request, or gives the time to wait if the limit is reached.
    pub fn check_and_record(&mut self, user_id: u64, now: u64) -> (r: Option<u64>)
        ensures
            r == old(self)@.wait(user_id, now),
            final(self)@ == old(self)@.after(user_id, now),
    {
        let ghost before = self@;
        let mut mine: Vec<u64> = match self.hits.get(&user_id) {
            Some(times) => limits::recent_of(times, now, self.window),
            None => Vec::new(),
        };
        assert(mine@ =~= before.recent_of(user_id, now));
        proof {
            lemma_recent_young(limits::times_of(before.hits, user_id), now, before.window);
        }
        if mine.len() >= self.limit {
            let wait: u64 = if mine.len() == 0 {
                self.window
            } else {
                let oldest: u64 = mine[0];
                assert(limits::age(now, mine@[0]) < before.window);
                if now >= oldest {
                    self.window - (now - oldest)
                } else {
                    self.window
                }
            };
            self.hits.insert(user_id, mine);
            assert(self@.hits =~= before.hits.insert(user_id, before.recent_of(user_id, now)));
            return Some(wait);
        }
        mine.push(now);
        self.hits.insert(user_id, mine);
        let ghost noted = before.hits.insert(user_id, before.recent_of(user_id, now).push(now));
        assert(self@.hits =~= noted);
        assert(noted.dom() =~= self.hits@.dom());
        if self.hits.len() > LIMITER_USERS {
            self.hits = limits::pruned(&self.hits, now, self.window, false);
        }
        assert(self@.hits == before.after(user_id, now).hits);
        None
    }
}

/// The requests of one user do not touch those of another.
pub proof fn law_users_are_isolated(l: RateLimiterView, user_id: u64, now: u64, other: u64)
    requires
        other != user_id,
    ensures
        l.after(user_id, now).recent_of(other, now) == l.recent_of(other, now),
{
    let mine = l.recent_of(user_id, now);
    let hits = l.hits.insert(user_id, mine.push(now));
    assert(limits::times_of(hits, other) == limits::times_of(l.hits, other));
    let kept = limits::live_entries(hits, now, l.window);
    if !kept.contains_key(other) {
        let r = limits::recent(limits::times_of(l.hits, other), now, l.window);
        if l.hits.contains_key(other) {
            assert(r =~= Seq::<u64>::empty());
        }
    }
}

/// The limit is kept: no user ever has more requests within the window than
/// are allowed, and one who is refused has used them all.
pub proof fn law_limit_is_kept(l: RateLimiterView, user_id: u64, now: u64)
    requires
        l.recent_of(user_id, now).len() <= l.limit,
    ensures
        l.after(user_id, now).recent_of(user_id, now).len() <= l.limit,
        l.wait(user_id, now) is Some ==> l.recent_of(user_id, now).len() == l.limit,
{
    let mine = l.recent_of(user_id, now);
    limits::lemma_recent_twice(limits::times_of(l.hits, user_id), now, l.window);
    assert(mine.push(now).drop_last() =~= mine);
}

/// After the time that a user was told to wait there is room for a request.
pub proof fn law_waiting_helps(l: RateLimiterView, user_id: u64, now: u64, later: u64)
    requires
        l.limit > 0,
        l.recent_of(user_id, now).len() <= l.limit,
        l.wait(user_id, now) matches Some(d) && later >= now + d,
        forall|i: int|
            0 <= i < limits::times_of(l.hits, user_id).len() ==> #[trigger] limits::times_of(
                l.hits,
                user_id,
            )[i] <= now,
    ensures
        l.after(user_id, now).wait(user_id, later) is None,
{
    let times = limits::times_of(l.hits, user_id);
    let mine = l.recent_of(user_id, now);
    lemma_recent_young(times, now, l.window);
    lemma_recent_among(times, now, l.window);
    lemma_oldest_leaves(mine, later, l.window);
}

/// A moment within the window is one of the moments.
proof fn lemma_recent_among(times: Seq<u64>, now: u64, window: u64)
    requires
        forall|i: int| 0 <= i < times.len() ==> #[trigger] times[i] <= now,
    ensures
        forall|i: int|
            0 <= i < limits::recent(times, now, window).len() ==> #[trigger] limits::recent(
                times,
                now,
                window,
            )[i] <= now,
    decreases times.len(),
{
    if times.len() > 0 {
        let init = times.drop_last();
        assert forall|i: int| 0 <= i < init.len() implies #[trigger] init[i] <= now by {
            assert(init[i] == times[i]);
        }
        lemma_recent_among(init, now, window);
        let rest = limits::recent(init, now, window);
        let r = limits::recent(times, now, window);
        assert(times[times.len() - 1] <= now);
        assert forall|i: int| 0 <= i < r.len() implies #[trigger] r[i] <= now by {
            if i < rest.len() {
                assert(r[i] == rest[i]);
            }
        }
    }
}

/// If the first moment has left the window, fewer are left.
proof fn lemma_oldest_leaves(times: Seq<u64>, later: u64, window: u64)
    requires
        times.len() > 0,
        limits::age(later, times[0]) >= window,
    ensures
        limits::recent(times, later, window).len() < times.len(),
    decreases times.len(),
{
    if times.len() > 1 {
        lemma_oldest_leaves(times.drop_last(), later, window);
    } else {
        assert(times.drop_last() =~= Seq::<u64>::empty());
        assert(limits::recent(times.drop_last(), later, window).len() == 0);
    }
}

} // verus!
