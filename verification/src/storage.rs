//! Dialogue history and the state of each participant.

pub mod dialogues;

use std::collections::HashMap;
use vstd::prelude::*;

use crate::clock;
use crate::rows;
use crate::strings;

verus! {

/// The author of a message in the history.
#[derive(Debug, Clone, Copy, PartialEq, Eq, Structural)]
pub enum Role {
    User,
    Assistant,
}

impl Role {
    /// The name of the role in the database and in requests.
    pub open spec fn name(self) -> Seq<char> {
        match self {
            Role::User => "user"@,
            Role::Assistant => "assistant"@,
        }
    }

    /// See [`Role::name`].
    pub fn as_str(self) -> (r: &'static str)
        ensures
            r@ == self.name(),
    {
        match self {
            Role::User => "user",
            Role::Assistant => "assistant",
        }
    }

    /// The role of a name in the database: anything but the assistant is a
    /// user.
    pub open spec fn of_name(name: Seq<char>) -> Role {
        if name == "assistant"@ {
            Role::Assistant
        } else {
            Role::User
        }
    }

    /// See [`Role::of_name`].
    pub fn from_name(name: &str) -> (r: Role)
        ensures
            r == Role::of_name(name@),
    {
        if strings::str_eq(name, "assistant") {
            Role::Assistant
        } else {
            Role::User
        }
    }
}

/// A message of the dialogue history.
#[derive(Debug)]
pub struct StoredMessage {
    pub user_id: i64,
    pub display_name: String,
    pub role: Role,
    pub content: String,
}

/// What a [`StoredMessage`] holds.
pub struct StoredMessageView {
    pub user_id: i64,
    pub display_name: Seq<char>,
    pub role: Role,
    pub content: Seq<char>,
}

impl View for StoredMessage {
    type V = StoredMessageView;

    open spec fn view(&self) -> StoredMessageView {
        StoredMessageView {
            user_id: self.user_id,
            display_name: self.display_name@,
            role: self.role,
            content: self.content@,
        }
    }
}

impl Clone for StoredMessage {
    fn clone(&self) -> (r: StoredMessage)
        ensures
            r@ == self@,
    {
        StoredMessage {
            user_id: self.user_id,
            display_name: self.display_name.clone(),
            role: self.role,
            content: self.content.clone(),
        }
    }
}

/// What the assistant keeps in mind about a participant.
#[derive(Debug)]
pub struct UserState {
    pub user_id: i64,
    pub display_name: String,
    pub goal: String,
    pub current: String,
}

/// What a [`UserState`] holds.
pub struct UserStateView {
    pub user_id: i64,
    pub display_name: Seq<char>,
    pub goal: Seq<char>,
    pub current: Seq<char>,
}

impl View for UserState {
    type V = UserStateView;

    open spec fn view(&self) -> UserStateView {
        UserStateView {
            user_id: self.user_id,
            display_name: self.display_name@,
            goal: self.goal@,
            current: self.current@,
        }
    }
}

impl Clone for UserState {
    fn clone(&self) -> (r: UserState)
        ensures
            r@ == self@,
    {
        UserState {
            user_id: self.user_id,
            display_name: self.display_name.clone(),
            goal: self.goal.clone(),
            current: self.current.clone(),
        }
    }
}

impl Default for UserState {
    fn default() -> (r: UserState)
        ensures
            r@ == UserStateView::empty(),
    {
        UserState {
            user_id: 0,
            display_name: String::new(),
            goal: String::new(),
            current: String::new(),
        }
    }
}

impl UserStateView {
    /// The state of nobody.
    pub open spec fn empty() -> UserStateView {
        UserStateView {
            user_id: 0,
            display_name: Seq::empty(),
            goal: Seq::empty(),
            current: Seq::empty(),
        }
    }

    /// A field of the tag, or nothing if the field is empty. Quotation marks
    /// become apostrophes.
    pub open spec fn field(name: Seq<char>, value: Seq<char>) -> Seq<char> {
        if value.len() == 0 {
            Seq::empty()
        } else {
            " "@ + name + "=\""@ + strings::replace(value, "\""@, "'"@) + "\""@
        }
    }

    /// The tag that stands for the state in a prompt.
    pub open spec fn tag(self) -> Seq<char> {
        "<user:@"@ + self.display_name + Self::field("goal"@, self.goal) + Self::field(
            "current"@,
            self.current,
        ) + " id="@ + strings::decimal_int(self.user_id as int) + ">"@
    }
}

/// Appends one field of a tag.
fn push_field(out: &mut String, name: &str, value: &str)
    ensures
        final(out)@ == old(out)@ + UserStateView::field(name@, value@),
{
    if value.is_empty() {
        assert(out@ =~= old(out)@ + UserStateView::field(name@, value@));
        return;
    }
    out.append(" ");
    out.append(name);
    out.append("=\"");
    out.append(strings::replaced(value, "\"", "'").as_str());
    out.append("\"");
    assert(out@ =~= old(out)@ + UserStateView::field(name@, value@));
}

impl UserState {
    /// The tag for a prompt. Empty fields are left out.
    pub fn to_tag(&self) -> (r: String)
        ensures
            r@ == self@.tag(),
    {
        let mut out = "<user:@".to_owned();
        out.append(self.display_name.as_str());
        push_field(&mut out, "goal", self.goal.as_str());
        push_field(&mut out, "current", self.current.as_str());
        out.append(" id=");
        out.append(strings::decimal_i64(self.user_id).as_str());
        out.append(">");
        out
    }
}

/// The current time in seconds since the start of 1970.
pub fn now_ts() -> (r: i64)
    ensures
        exists|seconds: Option<u64>| r == #[trigger] clock::timestamp_of(seconds),
{
    clock::now()
}

/// A message with its place: the chat and the topic in it.
#[derive(Debug)]
pub struct DialogueRow {
    pub chat_id: i64,
    pub thread_id: i64,
    pub message: StoredMessage,
    pub created_at: i64,
}

/// What a [`DialogueRow`] holds.
pub struct DialogueRowView {
    pub chat_id: i64,
    pub thread_id: i64,
    pub message: StoredMessageView,
    pub created_at: i64,
}

impl View for DialogueRow {
    type V = DialogueRowView;

    open spec fn view(&self) -> DialogueRowView {
        DialogueRowView {
            chat_id: self.chat_id,
            thread_id: self.thread_id,
            message: self.message@,
            created_at: self.created_at,
        }
    }
}

impl DialogueRowView {
    /// The row belongs to the dialogue.
    pub open spec fn within(self, chat_id: i64, thread_id: i64) -> bool {
        self.chat_id == chat_id && self.thread_id == thread_id
    }
}

/// A participant's state and the time of its last change.
#[derive(Debug)]
pub struct StateRow {
    pub state: UserState,
    pub updated_at: i64,
}

/// What a [`StateRow`] holds.
pub struct StateRowView {
    pub state: UserStateView,
    pub updated_at: i64,
}

impl View for StateRow {
    type V = StateRowView;

    open spec fn view(&self) -> StateRowView {
        StateRowView { state: self.state@, updated_at: self.updated_at }
    }
}

/// The history of all dialogues and the state of all participants.
pub struct Store {
    messages: Vec<DialogueRow>,
    states: HashMap<i64, StateRow>,
}

/// What a [`Store`] holds: the messages from the oldest to the newest, and the
/// states by participant.
pub struct StoreView {
    pub messages: Seq<DialogueRowView>,
    pub states: Map<i64, StateRowView>,
}

/// The views of a list of rows.
pub open spec fn row_views(v: Seq<DialogueRow>) -> Seq<DialogueRowView> {
    v.map_values(|r: DialogueRow| r@)
}

/// The views of a list of messages.
pub open spec fn message_views(v: Seq<StoredMessage>) -> Seq<StoredMessageView> {
    v.map_values(|m: StoredMessage| m@)
}

/// The views of a list of states.
pub open spec fn state_views(v: Seq<UserState>) -> Seq<UserStateView> {
    v.map_values(|s: UserState| s@)
}

impl View for Store {
    type V = StoreView;

    closed spec fn view(&self) -> StoreView {
        StoreView {
            messages: row_views(self.messages@),
            states: self.states@.map_values(|r: StateRow| r@),
        }
    }
}

/// The messages of one dialogue, from the oldest to the newest.
pub open spec fn dialogue(
    all: Seq<DialogueRowView>,
    chat_id: i64,
    thread_id: i64,
) -> Seq<StoredMessageView>
    decreases all.len(),
{
    if all.len() == 0 {
        Seq::empty()
    } else {
        let rest = dialogue(all.drop_last(), chat_id, thread_id);
        if all.last().within(chat_id, thread_id) {
            rest.push(all.last().message)
        } else {
            rest
        }
    }
}

/// The newest messages that fit into what is left of a budget of characters.
/// The very first is taken whatever its length.
pub open spec fn recent(
    messages: Seq<StoredMessageView>,
    used: int,
    taken: bool,
    budget: int,
) -> Seq<StoredMessageView>
    decreases messages.len(),
{
    if messages.len() == 0 {
        Seq::empty()
    } else {
        let m = messages.last();
        let size = m.content.len();
        if taken && used + size > budget {
            Seq::empty()
        } else {
            recent(messages.drop_last(), used + size, true, budget).push(m)
        }
    }
}

/// The characters of the dialogue in the rows from `k` on.
pub open spec fn chars_from(
    all: Seq<DialogueRowView>,
    k: int,
    chat_id: i64,
    thread_id: i64,
) -> nat
    decreases all.len() - k,
{
    if k < 0 || k >= all.len() {
        0
    } else {
        chars_from(all, k + 1, chat_id, thread_id) + if all[k].within(chat_id, thread_id) {
            all[k].message.content.len()
        } else {
            0
        }
    }
}

/// The row and the newer ones of its dialogue fit into the budget.
pub open spec fn in_window(all: Seq<DialogueRowView>, budget: int) -> spec_fn(int) -> bool {
    |i: int| chars_from(all, i, all[i].chat_id, all[i].thread_id) <= budget
}

/// The rows that the sliding window leaves.
pub open spec fn window(all: Seq<DialogueRowView>, budget: int) -> Seq<DialogueRowView> {
    rows::survivors(all, all.len() as int, in_window(all, budget))
}

/// The state that a new one leaves in place of an older one: an empty name
/// does not replace a known one.
pub open spec fn merged(older: Option<StateRowView>, new: UserStateView, now: i64) -> StateRowView {
    let display_name = match older {
        Some(row) => if new.display_name.len() == 0 {
            row.state.display_name
        } else {
            new.display_name
        },
        None => new.display_name,
    };
    StateRowView { state: UserStateView { display_name: display_name, ..new }, updated_at: now }
}

/// The state of a participant, if there is one.
pub open spec fn state_of(states: Map<i64, StateRowView>, user_id: i64) -> Option<UserStateView> {
    if states.contains_key(user_id) {
        Some(UserStateView { user_id: user_id, ..states[user_id].state })
    } else {
        None
    }
}

/// The known states of the listed participants, in order.
pub open spec fn states_of(
    states: Map<i64, StateRowView>,
    user_ids: Seq<i64>,
) -> Seq<UserStateView>
    decreases user_ids.len(),
{
    if user_ids.len() == 0 {
        Seq::empty()
    } else {
        let rest = states_of(states, user_ids.drop_last());
        match state_of(states, user_ids.last()) {
            Some(st) => rest.push(st),
            None => rest,
        }
    }
}

/// A number for each dialogue.
pub open spec fn dialogue_key(chat_id: i64, thread_id: i64) -> u128 {
    ((chat_id + 0x8000_0000_0000_0000) * 0x1_0000_0000_0000_0000 + (thread_id
        + 0x8000_0000_0000_0000)) as u128
}

/// See [`dialogue_key`].
fn key_of(chat_id: i64, thread_id: i64) -> (r: u128)
    ensures
        r == dialogue_key(chat_id, thread_id),
{
    let c: u128 = (chat_id as i128 + 0x8000_0000_0000_0000) as u128;
    let t: u128 = (thread_id as i128 + 0x8000_0000_0000_0000) as u128;
    c * 0x1_0000_0000_0000_0000 + t
}

/// What a table of totals says of a dialogue.
spec fn total_in(totals: Map<u128, u128>, chat_id: i64, thread_id: i64) -> int {
    let key = dialogue_key(chat_id, thread_id);
    if totals.contains_key(key) {
        totals[key] as int
    } else {
        0
    }
}

impl Store {
    /// A store without messages and states.
    pub fn new() -> (r: Store)
        ensures
            r@.messages == Seq::<DialogueRowView>::empty(),
            r@.states == Map::<i64, StateRowView>::empty(),
    {
        let r = Store { messages: Vec::new(), states: HashMap::new() };
        assert(r@.messages =~= Seq::<DialogueRowView>::empty());
        assert(r@.states =~= Map::<i64, StateRowView>::empty());
        r
    }

    /// Appends a message at the given time.
    pub fn insert_message(&mut self, row: DialogueRow)
        ensures
            final(self)@.messages == old(self)@.messages.push(row@),
            final(self)@.states == old(self)@.states,
    {
        self.messages.push(row);
        assert(self@.messages =~= old(self)@.messages.push(row@));
    }

    /// Appends a message to the history of a dialogue.
    pub fn add_message(
        &mut self,
        chat_id: i64,
        thread_id: i64,
        user_id: i64,
        display_name: &str,
        role: Role,
        content: &str,
    )
        ensures
            final(self)@.messages.len() == old(self)@.messages.len() + 1,
            final(self)@.messages.drop_last() == old(self)@.messages,
            final(self)@.messages.last().within(chat_id, thread_id),
            final(self)@.messages.last().message == (StoredMessageView {
                user_id: user_id,
                display_name: display_name@,
                role: role,
                content: content@,
            }),
            final(self)@.states == old(self)@.states,
    {
        let row = DialogueRow {
            chat_id: chat_id,
            thread_id: thread_id,
            message: StoredMessage {
                user_id: user_id,
                display_name: display_name.to_owned(),
                role: role,
                content: content.to_owned(),
            },
            created_at: now_ts(),
        };
        self.insert_message(row);
        assert(old(self)@.messages.push(row@).drop_last() =~= old(self)@.messages);
    }

    /// The last messages of a dialogue within a budget of characters, from the
    /// oldest to the newest.
    pub fn recent_messages(&self, chat_id: i64, thread_id: i64, budget_chars: usize) -> (r: Vec<
        StoredMessage,
    >)
        ensures
            message_views(r@) == recent(
                dialogue(self@.messages, chat_id, thread_id),
                0,
                false,
                budget_chars as int,
            ),
    {
        let ghost all = row_views(self.messages@);
        let ghost goal = recent(
            dialogue(all, chat_id, thread_id),
            0,
            false,
            budget_chars as int,
        );
        let mut out: Vec<StoredMessage> = Vec::new();
        let mut used: u128 = 0;
        let mut more: bool = true;
        let count: usize = self.messages.len();
        let mut i: usize = count;
        assert(all.take(i as int) =~= all);
        assert(message_views(out@).reverse() =~= Seq::<StoredMessageView>::empty());
        assert(goal + Seq::<StoredMessageView>::empty() =~= goal);
        while more && i > 0
            invariant
                all == row_views(self.messages@),
                i <= count == self.messages@.len(),
                used <= (count - i) * 0x1_0000_0000_0000_0000,
                more ==> goal == recent(
                    dialogue(all.take(i as int), chat_id, thread_id),
                    used as int,
                    out@.len() > 0,
                    budget_chars as int,
                ) + message_views(out@).reverse(),
                !more ==> goal == message_views(out@).reverse(),
            decreases i,
        {
            let ghost before = message_views(out@).reverse();
            let row = &self.messages[i - 1];
            proof {
                assert(all.take(i as int).drop_last() =~= all.take(i - 1));
                assert(all.take(i as int).last() == row@);
            }
            if row.chat_id == chat_id && row.thread_id == thread_id {
                let size: usize = row.message.content.as_str().unicode_len();
                let ghost d = dialogue(all.take(i as int), chat_id, thread_id);
                assert(d.last() == row.message@);
                assert(d.drop_last() =~= dialogue(all.take(i - 1), chat_id, thread_id));
                if out.len() > 0 && used + size as u128 > budget_chars as u128 {
                    more = false;
                    assert(Seq::<StoredMessageView>::empty() + before =~= before);
                } else {
                    used = used + size as u128;
                    let m = row.message.clone();
                    out.push(m);
                    proof {
                        let rest = recent(
                            d.drop_last(),
                            used as int,
                            true,
                            budget_chars as int,
                        );
                        assert(message_views(out@).reverse() =~= seq![m@] + before);
                        assert(rest.push(m@) + before =~= rest + (seq![m@] + before));
                    }
                }
            }
            i -= 1;
        }
        proof {
            if more {
                assert(all.take(0) =~= Seq::<DialogueRowView>::empty());
                assert(Seq::<StoredMessageView>::empty() + message_views(out@).reverse()
                    =~= message_views(out@).reverse());
            }
        }
        let ghost taken = out@;
        let r = rows::reversed(out);
        assert(message_views(r@) =~= message_views(taken).reverse());
        r
    }

    /// The number of messages of a dialogue.
    pub fn message_count(&self, chat_id: i64, thread_id: i64) -> (r: usize)
        ensures
            r == dialogue(self@.messages, chat_id, thread_id).len(),
    {
        let ghost all = row_views(self.messages@);
        let mut count: usize = 0;
        let mut i: usize = 0;
        assert(dialogue(all.take(0), chat_id, thread_id).len() == 0);
        while i < self.messages.len()
            invariant
                i <= self.messages@.len(),
                all == row_views(self.messages@),
                count <= i,
                count == dialogue(all.take(i as int), chat_id, thread_id).len(),
            decreases self.messages@.len() - i,
        {
            assert(all.take(i + 1).drop_last() =~= all.take(i as int));
            assert(all.take(i + 1).last() == self.messages@[i as int]@);
            if self.messages[i].chat_id == chat_id && self.messages[i].thread_id == thread_id {
                count += 1;
            }
            i += 1;
        }
        assert(all.take(all.len() as int) =~= all);
        count
    }

    /// The sliding window: removes the oldest messages of each dialogue beyond
    /// the budget. Gives the number of messages removed.
    pub fn trim_window(&mut self, budget_chars: usize) -> (r: u64)
        ensures
            final(self)@.messages == window(old(self)@.messages, budget_chars as int),
            final(self)@.states == old(self)@.states,
            r == old(self)@.messages.len() - final(self)@.messages.len(),
    {
        let ghost budget = budget_chars as int;
        let ghost all = row_views(self.messages@);
        let ghost keep = in_window(all, budget);
        let ghost goal = rows::survivors(all, all.len() as int, keep);
        let count: usize = self.messages.len();
        let mut kept: Vec<DialogueRow> = Vec::new();
        let mut totals: HashMap<u128, u128> = HashMap::new();
        assert(all.take(all.len() as int) =~= all);
        assert(goal + row_views(kept@).reverse() =~= goal);
        while self.messages.len() > 0
            invariant
                count == all.len(),
                self.messages@.len() + kept@.len() <= count,
                row_views(self.messages@) == all.take(self.messages@.len() as int),
                budget == budget_chars,
                keep == in_window(all, budget),
                goal == rows::survivors(all, self.messages@.len() as int, keep) + row_views(
                    kept@,
                ).reverse(),
                forall|c: i64, t: i64|
                    #[trigger] total_in(totals@, c, t) == chars_from(
                        all,
                        self.messages@.len() as int,
                        c,
                        t,
                    ),
                forall|c: i64, t: i64|
                    #[trigger] total_in(totals@, c, t) <= (count - self.messages@.len())
                        * 0x1_0000_0000_0000_0000,
                self.states@ == old(self).states@,
            decreases self.messages@.len(),
        {
            let ghost k = self.messages@.len() as int;
            let ghost before = row_views(kept@).reverse();
            let ghost earlier = totals@;
            match self.messages.pop() {
                Some(row) => {
                    assert(all.take(k).last() == row@);
                    assert(all[k - 1] == row@);
                    assert(row_views(self.messages@) =~= all.take(k - 1));
                    let key: u128 = key_of(row.chat_id, row.thread_id);
                    let so_far: u128 = match totals.get(&key) {
                        Some(v) => *v,
                        None => 0,
                    };
                    assert(so_far == total_in(totals@, row.chat_id, row.thread_id));
                    let total: u128 = so_far + row.message.content.as_str().unicode_len() as u128;
                    totals.insert(key, total);
                    assert(total == chars_from(all, k - 1, row.chat_id, row.thread_id));
                    assert forall|c: i64, t: i64|
                        #[trigger] total_in(totals@, c, t) == chars_from(all, k - 1, c, t)
                            && total_in(totals@, c, t) <= (count - (k - 1))
                            * 0x1_0000_0000_0000_0000 by {
                        assert(total_in(earlier, c, t) == chars_from(all, k, c, t));
                        if c == row.chat_id && t == row.thread_id {
                        } else {
                            assert(dialogue_key(c, t) != key);
                            assert(total_in(totals@, c, t) == total_in(earlier, c, t));
                        }
                    }
                    if total <= budget_chars as u128 {
                        assert(keep(k - 1));
                        kept.push(row);
                        assert(row_views(kept@).reverse() =~= seq![row@] + before);
                        assert(rows::survivors(all, k - 1, keep).push(row@) + before
                            =~= rows::survivors(all, k - 1, keep) + (seq![row@] + before));
                    } else {
                        assert(!keep(k - 1));
                    }
                },
                None => {},
            }
        }
        let ghost newest_first = kept@;
        self.messages = rows::reversed(kept);
        proof {
            assert(row_views(self.messages@) =~= row_views(newest_first).reverse());
            assert(goal =~= row_views(self.messages@));
        }
        (count - self.messages.len()) as u64
    }

    /// The state of a participant.
    pub fn get_state(&self, user_id: i64) -> (r: Option<UserState>)
        ensures
            match r {
                Some(st) => state_of(self@.states, user_id) == Some(st@),
                None => state_of(self@.states, user_id) is None,
            },
    {
        match self.states.get(&user_id) {
            Some(row) => {
                let mut st = row.state.clone();
                st.user_id = user_id;
                Some(st)
            },
            None => None,
        }
    }

    /// Records a state at the given time.
    pub fn upsert_state_at(&mut self, state: &UserState, now: i64)
        ensures
            final(self)@.messages == old(self)@.messages,
            final(self)@.states == old(self)@.states.insert(
                state.user_id,
                merged(old(self)@.states.get(state.user_id), state@, now),
            ),
    {
        let mut row = StateRow { state: state.clone(), updated_at: now };
        match self.states.get(&state.user_id) {
            Some(older) => {
                if state.display_name.as_str().is_empty() {
                    row.state.display_name = older.state.display_name.clone();
                }
            },
            None => {},
        }
        let id: i64 = state.user_id;
        assert(row@ == merged(self@.states.get(id), state@, now));
        self.states.insert(id, row);
        assert(self@.states =~= old(self)@.states.insert(id, row@));
    }

    /// Records the state of a participant. An empty name keeps the known one.
    pub fn upsert_state(&mut self, state: &UserState)
        ensures
            final(self)@.messages == old(self)@.messages,
            exists|now: i64|
                final(self)@.states == old(self)@.states.insert(
                    state.user_id,
                    #[trigger] merged(old(self)@.states.get(state.user_id), state@, now),
                ),
    {
        let now: i64 = now_ts();
        self.upsert_state_at(state, now);
        assert(self@.states == old(self)@.states.insert(
            state.user_id,
            merged(old(self)@.states.get(state.user_id), state@, now),
        ));
    }

    /// The known states of the listed participants.
    pub fn states_for_ids(&self, user_ids: &[i64]) -> (r: Vec<UserState>)
        ensures
            state_views(r@) == states_of(self@.states, user_ids@),
    {
        let mut out: Vec<UserState> = Vec::new();
        let mut i: usize = 0;
        assert(state_views(out@) =~= states_of(self@.states, user_ids@.take(0)));
        while i < user_ids.len()
            invariant
                i <= user_ids@.len(),
                state_views(out@) == states_of(self@.states, user_ids@.take(i as int)),
            decreases user_ids@.len() - i,
        {
            assert(user_ids@.take(i + 1).drop_last() =~= user_ids@.take(i as int));
            let ghost before = state_views(out@);
            match self.get_state(user_ids[i]) {
                Some(st) => {
                    out.push(st);
                    assert(state_views(out@) =~= before.push(st@));
                },
                None => {},
            }
            i += 1;
        }
        assert(user_ids@.take(user_ids@.len() as int) =~= user_ids@);
        out
    }
}

/// The total length of a list of messages.
pub open spec fn chars_in(messages: Seq<StoredMessageView>) -> nat
    decreases messages.len(),
{
    if messages.len() == 0 {
        0
    } else {
        chars_in(messages.drop_last()) + messages.last().content.len()
    }
}

/// Dialogues do not mix: a message changes only the dialogue that it is in.
pub proof fn law_dialogues_are_isolated(
    all: Seq<DialogueRowView>,
    row: DialogueRowView,
    chat_id: i64,
    thread_id: i64,
)
    ensures
        row.within(chat_id, thread_id) ==> dialogue(all.push(row), chat_id, thread_id) == dialogue(
            all,
            chat_id,
            thread_id,
        ).push(row.message),
        !row.within(chat_id, thread_id) ==> dialogue(all.push(row), chat_id, thread_id)
            == dialogue(all, chat_id, thread_id),
{
    assert(all.push(row).drop_last() =~= all);
}

/// A message that was written is read back word for word, and last.
pub proof fn law_message_reads_back(all: Seq<DialogueRowView>, row: DialogueRowView, budget: int)
    ensures
        ({
            let read = recent(
                dialogue(all.push(row), row.chat_id, row.thread_id),
                0,
                false,
                budget,
            );
            read.len() > 0 && read.last() == row.message
        }),
{
    assert(all.push(row).drop_last() =~= all);
}

/// The messages that are read back from a dialogue are its newest ones. There
/// is at least one unless the dialogue is empty, more than one only within the
/// budget, and as many as the budget takes.
pub proof fn law_recent_is_newest(messages: Seq<StoredMessageView>, budget: int)
    ensures
        recent(messages, 0, false, budget).is_suffix_of(messages),
        messages.len() > 0 ==> recent(messages, 0, false, budget).len() > 0,
        recent(messages, 0, false, budget).len() > 1 ==> chars_in(
            recent(messages, 0, false, budget),
        ) <= budget,
        recent(messages, 0, false, budget).len() < messages.len() ==> chars_in(
            messages.skip(messages.len() - recent(messages, 0, false, budget).len() - 1),
        ) > budget,
{
    lemma_recent(messages, 0, false, budget);
}

/// See [`law_recent_is_newest`].
proof fn lemma_recent(messages: Seq<StoredMessageView>, used: int, taken: bool, budget: int)
    ensures
        recent(messages, used, taken, budget).is_suffix_of(messages),
        messages.len() > 0 && !taken ==> recent(messages, used, taken, budget).len() > 0,
        taken && used <= budget ==> used + chars_in(recent(messages, used, taken, budget))
            <= budget,
        taken && used > budget ==> recent(messages, used, taken, budget).len() == 0,
        !taken && recent(messages, used, taken, budget).len() > 1 ==> used + chars_in(
            recent(messages, used, taken, budget),
        ) <= budget,
        recent(messages, used, taken, budget).len() < messages.len() ==> used + chars_in(
            messages.skip(messages.len() - recent(messages, used, taken, budget).len() - 1),
        ) > budget,
    decreases messages.len(),
{
    let r = recent(messages, used, taken, budget);
    if messages.len() > 0 {
        let m = messages.last();
        let size = m.content.len();
        if !(taken && used + size > budget) {
            lemma_recent(messages.drop_last(), used + size, true, budget);
            let rest = recent(messages.drop_last(), used + size, true, budget);
            assert(r.drop_last() =~= rest);
            let n = messages.len() as int;
            assert(r =~= messages.subrange(n - r.len(), n)) by {
                assert(rest =~= messages.drop_last().subrange(n - 1 - rest.len(), n - 1));
                assert forall|i: int| 0 <= i < r.len() implies r[i] == messages[n - r.len() + i] by {
                    if i < rest.len() {
                        assert(rest[i] == messages.drop_last()[n - 1 - rest.len() + i]);
                    }
                }
            }
            if r.len() < n {
                let k = n - r.len() - 1;
                assert(messages.skip(k).drop_last() =~= messages.drop_last().skip(k));
                assert(messages.skip(k).last() == m);
            }
        } else {
            assert(r =~= messages.subrange(messages.len() as int, messages.len() as int));
            let newest = messages.skip(messages.len() - 1);
            assert(newest.drop_last() =~= Seq::<StoredMessageView>::empty());
            assert(newest.last() == m);
        }
    } else {
        assert(r =~= messages);
    }
}

/// The rows of a dialogue hold its characters.
proof fn lemma_chars_from(all: Seq<DialogueRowView>, k: int, chat_id: i64, thread_id: i64)
    requires
        0 <= k <= all.len(),
    ensures
        chars_from(all, 0, chat_id, thread_id) == chars_in(
            dialogue(all.take(k), chat_id, thread_id),
        ) + chars_from(all, k, chat_id, thread_id),
    decreases k,
{
    if k > 0 {
        lemma_chars_from(all, k - 1, chat_id, thread_id);
        assert(all.take(k).drop_last() =~= all.take(k - 1));
        assert(all.take(k).last() == all[k - 1]);
        let rest = dialogue(all.take(k - 1), chat_id, thread_id);
        assert(rest.push(all[k - 1].message).drop_last() =~= rest);
    } else {
        assert(all.take(0) =~= Seq::<DialogueRowView>::empty());
    }
}

/// Newer rows hold no more characters.
proof fn lemma_chars_from_falls(all: Seq<DialogueRowView>, i: int, chat_id: i64, thread_id: i64)
    requires
        0 <= i <= all.len(),
    ensures
        chars_from(all, i, chat_id, thread_id) <= chars_from(all, 0, chat_id, thread_id),
    decreases i,
{
    if i > 0 {
        lemma_chars_from_falls(all, i - 1, chat_id, thread_id);
    }
}

/// The rows of a dialogue among the first `k` that stay, with the newer ones
/// of the dialogue, fit into the budget.
proof fn lemma_window_fits(
    all: Seq<DialogueRowView>,
    k: int,
    budget: int,
    chat_id: i64,
    thread_id: i64,
)
    requires
        0 <= k <= all.len(),
    ensures
        chars_from(all, k, chat_id, thread_id) > budget ==> dialogue(
            rows::survivors(all, k, in_window(all, budget)),
            chat_id,
            thread_id,
        ).len() == 0,
        chars_from(all, k, chat_id, thread_id) <= budget ==> chars_from(
            all,
            k,
            chat_id,
            thread_id,
        ) + chars_in(
            dialogue(rows::survivors(all, k, in_window(all, budget)), chat_id, thread_id),
        ) <= budget,
    decreases k,
{
    let keep = in_window(all, budget);
    if k > 0 {
        lemma_window_fits(all, k - 1, budget, chat_id, thread_id);
        let rest = rows::survivors(all, k - 1, keep);
        if keep(k - 1) {
            assert(rest.push(all[k - 1]).drop_last() =~= rest);
            let d = dialogue(rest, chat_id, thread_id);
            assert(d.push(all[k - 1].message).drop_last() =~= d);
        }
    }
}

/// After the window has moved, every dialogue fits into the budget.
pub proof fn law_window_fits(
    all: Seq<DialogueRowView>,
    budget: int,
    chat_id: i64,
    thread_id: i64,
)
    ensures
        budget >= 0 ==> chars_in(dialogue(window(all, budget), chat_id, thread_id)) <= budget,
        budget < 0 ==> dialogue(window(all, budget), chat_id, thread_id).len() == 0,
{
    lemma_window_fits(all, all.len() as int, budget, chat_id, thread_id);
}

/// Moving the window again removes nothing more.
pub proof fn law_window_is_stable(all: Seq<DialogueRowView>, budget: int)
    ensures
        window(window(all, budget), budget) == window(all, budget),
{
    let w = window(all, budget);
    let n = w.len() as int;
    assert(w.take(n) =~= w);
    assert forall|i: int| 0 <= i < n implies #[trigger] in_window(w, budget)(i) by {
        let c = w[i].chat_id;
        let t = w[i].thread_id;
        law_window_fits(all, budget, c, t);
        lemma_chars_from(w, n, c, t);
        lemma_chars_from_falls(w, i, c, t);
        lemma_row_in_dialogue(w, n, i);
    }
    rows::lemma_survivors_all(w, n, in_window(w, budget));
}

/// A row is in its dialogue.
proof fn lemma_row_in_dialogue(all: Seq<DialogueRowView>, k: int, i: int)
    requires
        0 <= i < k <= all.len(),
    ensures
        dialogue(all.take(k), all[i].chat_id, all[i].thread_id).len() > 0,
    decreases k,
{
    assert(all.take(k).drop_last() =~= all.take(k - 1));
    assert(all.take(k).last() == all[k - 1]);
    if i < k - 1 {
        lemma_row_in_dialogue(all, k - 1, i);
    }
}

/// The window of a dialogue holds its newest messages, and as many as the budget
/// takes.
pub proof fn law_window_keeps_newest(
    all: Seq<DialogueRowView>,
    budget: int,
    chat_id: i64,
    thread_id: i64,
)
    ensures
        ({
            let kept = dialogue(window(all, budget), chat_id, thread_id);
            let whole = dialogue(all, chat_id, thread_id);
            &&& kept.is_suffix_of(whole)
            &&& kept.len() < whole.len() ==> chars_in(whole.skip(whole.len() - kept.len() - 1))
                > budget
        }),
{
    let n = all.len() as int;
    lemma_window_suffix(all, n, budget, chat_id, thread_id);
    assert(all.take(n) =~= all);
}

/// See [`law_window_keeps_newest`].
proof fn lemma_window_suffix(
    all: Seq<DialogueRowView>,
    k: int,
    budget: int,
    chat_id: i64,
    thread_id: i64,
)
    requires
        0 <= k <= all.len(),
    ensures
        dialogue(
            rows::survivors(all, k, in_window(all, budget)),
            chat_id,
            thread_id,
        ).is_suffix_of(dialogue(all.take(k), chat_id, thread_id)),
        ({
            let kept = dialogue(
                rows::survivors(all, k, in_window(all, budget)),
                chat_id,
                thread_id,
            );
            let whole = dialogue(all.take(k), chat_id, thread_id);
            kept.len() < whole.len() ==> chars_in(whole.skip(whole.len() - kept.len() - 1))
                + chars_from(all, k, chat_id, thread_id) > budget
        }),
    decreases k,
{
    let keep = in_window(all, budget);
    let kept = dialogue(rows::survivors(all, k, keep), chat_id, thread_id);
    let d = dialogue(all.take(k), chat_id, thread_id);
    if k > 0 {
        lemma_window_suffix(all, k - 1, budget, chat_id, thread_id);
        lemma_window_fits(all, k - 1, budget, chat_id, thread_id);
        assert(all.take(k).drop_last() =~= all.take(k - 1));
        assert(all.take(k).last() == all[k - 1]);
        let rest = rows::survivors(all, k - 1, keep);
        let kept0 = dialogue(rest, chat_id, thread_id);
        let d0 = dialogue(all.take(k - 1), chat_id, thread_id);
        if keep(k - 1) {
            assert(rest.push(all[k - 1]).drop_last() =~= rest);
        }
        if all[k - 1].within(chat_id, thread_id) {
            if keep(k - 1) {
                let m = all[k - 1].message;
                let a = d0.len() - kept0.len();
                assert(kept0 =~= d0.subrange(a, d0.len() as int));
                assert(d0.push(m).subrange(a, d0.len() as int + 1) =~= d0.subrange(
                    a,
                    d0.len() as int,
                ).push(m));
                if kept.len() < d.len() {
                    let j = a - 1;
                    assert(d.skip(j).drop_last() =~= d0.skip(j));
                    assert(d.skip(j).last() == m);
                }
            } else {
                assert(kept =~= d.subrange(d.len() as int, d.len() as int));
                let newest = d.skip(d.len() - 1);
                assert(newest.drop_last() =~= Seq::<StoredMessageView>::empty());
                assert(newest.last() == all[k - 1].message);
            }
        }
    } else {
        assert(all.take(0) =~= Seq::<DialogueRowView>::empty());
        assert(kept =~= d);
    }
}

/// A recorded state is read back; an empty name leaves the known one, and the
/// states of others stay as they were.
pub proof fn law_state_reads_back(
    states: Map<i64, StateRowView>,
    new: UserStateView,
    now: i64,
    other: i64,
)
    ensures
        ({
            let after = states.insert(new.user_id, merged(states.get(new.user_id), new, now));
            &&& other != new.user_id ==> state_of(after, other) == state_of(states, other)
            &&& match (state_of(after, new.user_id), state_of(states, new.user_id)) {
                (Some(st), Some(was)) => st == (UserStateView {
                    display_name: if new.display_name.len() == 0 {
                        was.display_name
                    } else {
                        new.display_name
                    },
                    ..new
                }),
                (Some(st), None) => st == new,
                (None, _) => false,
            }
        }),
{
}

} // verus!
