//! Messages of chats and the people who write them.

use std::collections::HashMap;
use std::collections::HashSet;
use vstd::prelude::*;

use crate::db::StoredMessage;
use crate::db::StoredMessageView;
use crate::rows;
use crate::sort;
use crate::strings;

verus! {

/// A person who has written to the bot.
#[derive(Debug)]
pub struct UserRow {
    pub user_id: i64,
    pub first_seen: i64,
    pub last_activity: i64,
    pub display_name: String,
}

/// What a [`UserRow`] holds.
pub struct UserRowView {
    pub user_id: i64,
    pub first_seen: i64,
    pub last_activity: i64,
    pub display_name: Seq<char>,
}

impl View for UserRow {
    type V = UserRowView;

    open spec fn view(&self) -> UserRowView {
        UserRowView {
            user_id: self.user_id,
            first_seen: self.first_seen,
            last_activity: self.last_activity,
            display_name: self.display_name@,
        }
    }
}

/// A message of a chat.
#[derive(Debug)]
pub struct ChatRow {
    pub user_id: i64,
    pub chat_id: i64,
    pub role: String,
    pub content: String,
    pub created_at: i64,
}

/// What a [`ChatRow`] holds.
pub struct ChatRowView {
    pub user_id: i64,
    pub chat_id: i64,
    pub role: Seq<char>,
    pub content: Seq<char>,
    pub created_at: i64,
}

impl View for ChatRow {
    type V = ChatRowView;

    open spec fn view(&self) -> ChatRowView {
        ChatRowView {
            user_id: self.user_id,
            chat_id: self.chat_id,
            role: self.role@,
            content: self.content@,
            created_at: self.created_at,
        }
    }
}

/// The views of a list of users.
pub open spec fn user_views(v: Seq<UserRow>) -> Seq<UserRowView> {
    v.map_values(|r: UserRow| r@)
}

/// The views of a list of messages.
pub open spec fn chat_views(v: Seq<ChatRow>) -> Seq<ChatRowView> {
    v.map_values(|r: ChatRow| r@)
}

/// The row of a user.
pub open spec fn user_at(users: Seq<UserRowView>, user_id: i64) -> Option<int>
    decreases users.len(),
{
    if users.len() == 0 {
        None
    } else if users.last().user_id == user_id {
        Some(users.len() - 1)
    } else {
        user_at(users.drop_last(), user_id)
    }
}

/// The row that was found is the user's.
pub proof fn lemma_user_at(users: Seq<UserRowView>, user_id: i64)
    ensures
        match user_at(users, user_id) {
            Some(i) => 0 <= i < users.len() && users[i].user_id == user_id,
            None => forall|i: int| 0 <= i < users.len() ==> #[trigger] users[i].user_id != user_id,
        },
    decreases users.len(),
{
    if users.len() > 0 && users.last().user_id != user_id {
        lemma_user_at(users.drop_last(), user_id);
        if user_at(users.drop_last(), user_id) is None {
            assert forall|i: int| 0 <= i < users.len() implies #[trigger] users[i].user_id
                != user_id by {
                if i < users.len() - 1 {
                    assert(users.drop_last()[i] == users[i]);
                }
            }
        }
    }
}

/// No user is held twice.
pub open spec fn distinct_users(users: Seq<UserRowView>) -> bool {
    forall|i: int, j: int|
        0 <= i < j < users.len() ==> #[trigger] users[i].user_id != #[trigger] users[j].user_id
}

/// The users after one of them has written. An empty name does not replace a
/// known one.
pub open spec fn touched(
    users: Seq<UserRowView>,
    user_id: i64,
    display_name: Seq<char>,
    now: i64,
) -> Seq<UserRowView> {
    match user_at(users, user_id) {
        Some(i) => users.update(
            i,
            UserRowView {
                last_activity: now,
                display_name: if display_name.len() == 0 {
                    users[i].display_name
                } else {
                    display_name
                },
                ..users[i]
            },
        ),
        None => users.push(
            UserRowView {
                user_id: user_id,
                first_seen: now,
                last_activity: now,
                display_name: display_name,
            },
        ),
    }
}

/// The messages of a chat, from the oldest to the newest.
pub open spec fn chat_rows(all: Seq<ChatRowView>, chat_id: i64) -> Seq<ChatRowView>
    decreases all.len(),
{
    if all.len() == 0 {
        Seq::empty()
    } else {
        let rest = chat_rows(all.drop_last(), chat_id);
        if all.last().chat_id == chat_id {
            rest.push(all.last())
        } else {
            rest
        }
    }
}

/// The newest messages up to the one that fills the budget, where `filled`
/// characters are taken already.
pub open spec fn newest(messages: Seq<ChatRowView>, filled: int, budget: int) -> Seq<ChatRowView>
    decreases messages.len(),
{
    if messages.len() == 0 || filled >= budget {
        Seq::empty()
    } else {
        let m = messages.last();
        newest(messages.drop_last(), filled + m.content.len(), budget).push(m)
    }
}

/// A message with the name of its author.
pub open spec fn told(users: Seq<UserRowView>, m: ChatRowView) -> StoredMessageView {
    StoredMessageView {
        role: m.role,
        content: m.content,
        display_name: match user_at(users, m.user_id) {
            Some(i) => Some(users[i].display_name),
            None => None,
        },
    }
}

/// Messages with the names of their authors.
pub open spec fn all_told(users: Seq<UserRowView>, messages: Seq<ChatRowView>) -> Seq<
    StoredMessageView,
> {
    messages.map_values(|m: ChatRowView| told(users, m))
}

/// The people who have written in a chat.
pub open spec fn participants(all: Seq<ChatRowView>, chat_id: i64) -> Set<i64>
    decreases all.len(),
{
    if all.len() == 0 {
        Set::empty()
    } else {
        let rest = participants(all.drop_last(), chat_id);
        if all.last().chat_id == chat_id && all.last().role == "user"@ {
            rest.insert(all.last().user_id)
        } else {
            rest
        }
    }
}

/// The characters of a chat in the rows from `k` on.
pub open spec fn chars_from(all: Seq<ChatRowView>, k: int, chat_id: i64) -> nat
    decreases all.len() - k,
{
    if k < 0 || k >= all.len() {
        0
    } else {
        chars_from(all, k + 1, chat_id) + if all[k].chat_id == chat_id {
            all[k].content.len()
        } else {
            0
        }
    }
}

/// Trimming keeps the row: its chat is not the one to trim, or the newer rows
/// of the chat leave room in the budget.
pub open spec fn within_budget(
    all: Seq<ChatRowView>,
    only: Option<i64>,
    budget: int,
) -> spec_fn(int) -> bool {
    |i: int|
        match only {
            Some(chat_id) => all[i].chat_id != chat_id || chars_from(all, i + 1, chat_id) < budget,
            None => chars_from(all, i + 1, all[i].chat_id) < budget,
        }
}

/// The rows that trimming leaves, in one chat or in all.
pub open spec fn trimmed(
    all: Seq<ChatRowView>,
    only: Option<i64>,
    budget: int,
) -> Seq<ChatRowView> {
    rows::survivors(all, all.len() as int, within_budget(all, only, budget))
}

/// The rows of the other chats.
pub open spec fn without_chat(all: Seq<ChatRowView>, chat_id: i64) -> Seq<ChatRowView> {
    rows::survivors(all, all.len() as int, |i: int| all[i].chat_id != chat_id)
}

/// The order of users by their last message, the latest first.
pub open spec fn activity(users: Seq<UserRowView>) -> Seq<(i128, i64)> {
    users.map_values(|u: UserRowView| (u.last_activity as i128, u.user_id))
}

/// The user is among the `n` who wrote last.
pub open spec fn lately_active(users: Seq<UserRowView>, n: int) -> spec_fn(int) -> bool {
    |i: int|
        exists|p: int|
            0 <= p < n && p < users.len() && #[trigger] sort::ranked(
                users.len() as int,
                sort::score_before(activity(users)),
            )[p] == i
}

/// The users who wrote last.
pub open spec fn active_users(users: Seq<UserRowView>, n: int) -> Seq<UserRowView> {
    rows::survivors(users, users.len() as int, lately_active(users, n))
}

/// The user is not among those who wrote last.
pub open spec fn dropped_user(users: Seq<UserRowView>, n: int, user_id: i64) -> bool {
    exists|i: int|
        0 <= i < users.len() && #[trigger] users[i].user_id == user_id && !lately_active(users, n)(
            i,
        )
}

/// The messages of everyone but the users who are dropped.
pub open spec fn active_messages(
    all: Seq<ChatRowView>,
    users: Seq<UserRowView>,
    n: int,
) -> Seq<ChatRowView> {
    rows::survivors(
        all,
        all.len() as int,
        |i: int| !dropped_user(users, n, all[i].user_id),
    )
}

/// The messages of all chats and the people who write them.
#[derive(Debug)]
pub struct Chats {
    users: Vec<UserRow>,
    messages: Vec<ChatRow>,
}

/// What [`Chats`] holds.
pub struct ChatsView {
    pub users: Seq<UserRowView>,
    pub messages: Seq<ChatRowView>,
}

impl View for Chats {
    type V = ChatsView;

    closed spec fn view(&self) -> ChatsView {
        ChatsView { users: user_views(self.users@), messages: chat_views(self.messages@) }
    }
}

impl ChatsView {
    /// No user is held twice.
    pub open spec fn wf(self) -> bool {
        distinct_users(self.users)
    }
}

/// Trimming tells of each chat how much of it is newer.
spec fn total_in(totals: Map<i64, u128>, chat_id: i64) -> int {
    if totals.contains_key(chat_id) {
        totals[chat_id] as int
    } else {
        0
    }
}

impl Chats {
    /// No messages and no users.
    pub fn new() -> (r: Chats)
        ensures
            r@.wf(),
            r@.users == Seq::<UserRowView>::empty(),
            r@.messages == Seq::<ChatRowView>::empty(),
    {
        let r = Chats { users: Vec::new(), messages: Vec::new() };
        assert(r@.users =~= Seq::<UserRowView>::empty());
        assert(r@.messages =~= Seq::<ChatRowView>::empty());
        r
    }

    /// The tables with the given rows, if no user occurs twice. The messages
    /// are given from the oldest to the newest.
    pub fn restore(users: Vec<UserRow>, messages: Vec<ChatRow>) -> (r: Option<Chats>)
        ensures
            match r {
                Some(c) => c@.wf() && c@.users == user_views(users@) && c@.messages == chat_views(
                    messages@,
                ),
                None => !distinct_users(user_views(users@)),
            },
    {
        let ghost uv = user_views(users@);
        let mut seen: HashSet<i64> = HashSet::new();
        let mut i: usize = 0;
        while i < users.len()
            invariant
                i <= users@.len(),
                uv == user_views(users@),
                forall|x: i64|
                    #[trigger] seen@.contains(x) <==> exists|k: int|
                        0 <= k < i && #[trigger] uv[k].user_id == x,
                forall|a: int, b: int|
                    0 <= a < b < i ==> #[trigger] uv[a].user_id != #[trigger] uv[b].user_id,
            decreases users@.len() - i,
        {
            let id: i64 = users[i].user_id;
            assert(uv[i as int].user_id == id);
            if seen.contains(&id) {
                proof {
                    let k = choose|k: int| 0 <= k < i && #[trigger] uv[k].user_id == id;
                    assert(uv[k].user_id == uv[i as int].user_id);
                }
                return None;
            }
            let ghost before = seen@;
            seen.insert(id);
            assert forall|x: i64|
                #[trigger] seen@.contains(x) <==> exists|k: int|
                    0 <= k < i + 1 && #[trigger] uv[k].user_id == x by {
                assert(before.contains(x) <==> exists|k: int|
                    0 <= k < i && #[trigger] uv[k].user_id == x);
                if x == id {
                    assert(uv[i as int].user_id == x);
                }
            }
            i += 1;
        }
        Some(Chats { users: users, messages: messages })
    }

    /// The row of a user.
    fn find_user(&self, user_id: i64) -> (r: Option<usize>)
        ensures
            match r {
                Some(i) => i < self.users@.len() && user_at(self@.users, user_id) == Some(i as int),
                None => user_at(self@.users, user_id) is None,
            },
    {
        let ghost all = user_views(self.users@);
        let mut i: usize = self.users.len();
        assert(all.take(i as int) =~= all);
        while i > 0
            invariant
                i <= self.users@.len(),
                all == user_views(self.users@),
                user_at(all, user_id) == user_at(all.take(i as int), user_id),
            decreases i,
        {
            assert(all.take(i as int).last() == self.users@[i - 1]@);
            assert(all.take(i as int).drop_last() =~= all.take(i - 1));
            if self.users[i - 1].user_id == user_id {
                return Some(i - 1);
            }
            i -= 1;
        }
        None
    }

    /// Appends a message and notes that its author was there.
    pub fn add(&mut self, row: ChatRow, display_name: &str)
        requires
            old(self)@.wf(),
        ensures
            final(self)@.wf(),
            final(self)@.users == touched(
                old(self)@.users,
                row.user_id,
                display_name@,
                row.created_at,
            ),
            final(self)@.messages == old(self)@.messages.push(row@),
    {
        let ghost before = self@.users;
        proof {
            lemma_user_at(before, row.user_id);
        }
        match self.find_user(row.user_id) {
            Some(i) => {
                let name = if display_name.is_empty() {
                    self.users[i].display_name.clone()
                } else {
                    display_name.to_owned()
                };
                let known = UserRow {
                    user_id: row.user_id,
                    first_seen: self.users[i].first_seen,
                    last_activity: row.created_at,
                    display_name: name,
                };
                self.users.set(i, known);
                assert(self@.users =~= before.update(i as int, known@));
            },
            None => {
                let new = UserRow {
                    user_id: row.user_id,
                    first_seen: row.created_at,
                    last_activity: row.created_at,
                    display_name: display_name.to_owned(),
                };
                self.users.push(new);
                assert(self@.users =~= before.push(new@));
            },
        }
        self.messages.push(row);
        assert(self@.messages =~= old(self)@.messages.push(row@));
    }

    /// The user is held.
    pub fn knows(&self, user_id: i64) -> (r: bool)
        ensures
            r == (user_at(self@.users, user_id) is Some),
    {
        self.find_user(user_id).is_some()
    }

    /// The newest messages of a chat within a budget of characters, from the
    /// oldest to the newest.
    pub fn within(&self, chat_id: i64, budget: usize) -> (r: Vec<StoredMessage>)
        ensures
            StoredMessage::views(r@) == all_told(
                self@.users,
                newest(chat_rows(self@.messages, chat_id), 0, budget as int),
            ),
    {
        let ghost all = chat_views(self.messages@);
        let ghost users = self@.users;
        let ghost goal = all_told(users, newest(chat_rows(all, chat_id), 0, budget as int));
        let count: usize = self.messages.len();
        let mut out: Vec<StoredMessage> = Vec::new();
        let mut filled: u128 = 0;
        let mut i: usize = count;
        assert(all.take(i as int) =~= all);
        assert(goal + StoredMessage::views(out@).reverse() =~= goal);
        while i > 0 && filled < budget as u128
            invariant
                all == chat_views(self.messages@),
                users == self@.users,
                i <= count == self.messages@.len(),
                filled <= (count - i) * 0x1_0000_0000_0000_0000,
                goal == all_told(
                    users,
                    newest(chat_rows(all.take(i as int), chat_id), filled as int, budget as int),
                ) + StoredMessage::views(out@).reverse(),
            decreases i,
        {
            let ghost before = StoredMessage::views(out@).reverse();
            let row = &self.messages[i - 1];
            proof {
                assert(all.take(i as int).drop_last() =~= all.take(i - 1));
                assert(all.take(i as int).last() == row@);
            }
            if row.chat_id == chat_id {
                let size: usize = row.content.as_str().unicode_len();
                let ghost d = chat_rows(all.take(i as int), chat_id);
                assert(d.drop_last() =~= chat_rows(all.take(i - 1), chat_id));
                assert(d.last() == row@);
                let name = match self.find_user(row.user_id) {
                    Some(k) => {
                        proof {
                            lemma_user_at(users, row.user_id);
                        }
                        Some(self.users[k].display_name.clone())
                    },
                    None => None,
                };
                let m = StoredMessage {
                    role: row.role.clone(),
                    content: row.content.clone(),
                    display_name: name,
                };
                assert(m@ == told(users, row@));
                filled = filled + size as u128;
                out.push(m);
                proof {
                    let rest = newest(d.drop_last(), filled as int, budget as int);
                    assert(StoredMessage::views(out@).reverse() =~= seq![m@] + before);
                    assert(all_told(users, rest.push(row@)) + before =~= all_told(users, rest) + (
                    seq![m@] + before));
                }
            }
            i -= 1;
        }
        proof {
            assert(all.take(0) =~= Seq::<ChatRowView>::empty());
            assert(newest(chat_rows(all.take(i as int), chat_id), filled as int, budget as int)
                =~= Seq::<ChatRowView>::empty());
            assert(goal =~= StoredMessage::views(out@).reverse());
        }
        let ghost taken = out@;
        let r = rows::reversed(out);
        assert(StoredMessage::views(r@) =~= StoredMessage::views(taken).reverse());
        r
    }

    /// The number of people who have written in a chat.
    pub fn participant_count(&self, chat_id: i64) -> (r: usize)
        ensures
            r == participants(self@.messages, chat_id).len(),
    {
        let ghost all = chat_views(self.messages@);
        let mut seen: HashSet<i64> = HashSet::new();
        let mut i: usize = 0;
        assert(seen@ =~= participants(all.take(0), chat_id));
        while i < self.messages.len()
            invariant
                i <= self.messages@.len(),
                all == chat_views(self.messages@),
                seen@ == participants(all.take(i as int), chat_id),
            decreases self.messages@.len() - i,
        {
            assert(all.take(i + 1).drop_last() =~= all.take(i as int));
            assert(all.take(i + 1).last() == self.messages@[i as int]@);
            if self.messages[i].chat_id == chat_id && strings::str_eq(
                self.messages[i].role.as_str(),
                "user",
            ) {
                seen.insert(self.messages[i].user_id);
            }
            i += 1;
        }
        assert(all.take(all.len() as int) =~= all);
        seen.len()
    }

    /// Removes what does not fit into a budget of characters, in one chat or
    /// in all. Gives the number of messages removed.
    pub fn trim(&mut self, only: Option<i64>, budget: i128) -> (r: usize)
        ensures
            final(self)@.users == old(self)@.users,
            final(self)@.messages == trimmed(old(self)@.messages, only, budget as int),
            r == old(self)@.messages.len() - final(self)@.messages.len(),
    {
        let ghost all = chat_views(self.messages@);
        let ghost keep = within_budget(all, only, budget as int);
        let ghost goal = rows::survivors(all, all.len() as int, keep);
        let count: usize = self.messages.len();
        let mut kept: Vec<ChatRow> = Vec::new();
        let mut totals: HashMap<i64, u128> = HashMap::new();
        assert(all.take(all.len() as int) =~= all);
        assert(goal + chat_views(kept@).reverse() =~= goal);
        while self.messages.len() > 0
            invariant
                count == all.len(),
                self.messages@.len() + kept@.len() <= count,
                chat_views(self.messages@) == all.take(self.messages@.len() as int),
                keep == within_budget(all, only, budget as int),
                goal == rows::survivors(all, self.messages@.len() as int, keep) + chat_views(
                    kept@,
                ).reverse(),
                forall|c: i64|
                    #[trigger] total_in(totals@, c) == chars_from(
                        all,
                        self.messages@.len() as int,
                        c,
                    ),
                forall|c: i64|
                    #[trigger] total_in(totals@, c) <= (count - self.messages@.len())
                        * 0x1_0000_0000_0000_0000,
                self.users@ == old(self).users@,
            decreases self.messages@.len(),
        {
            let ghost k = self.messages@.len() as int;
            let ghost before = chat_views(kept@).reverse();
            let ghost earlier = totals@;
            match self.messages.pop() {
                Some(row) => {
                    assert(all.take(k).last() == row@);
                    assert(all[k - 1] == row@);
                    assert(chat_views(self.messages@) =~= all.take(k - 1));
                    let newer: u128 = match totals.get(&row.chat_id) {
                        Some(v) => *v,
                        None => 0,
                    };
                    assert(newer == total_in(totals@, row.chat_id));
                    let total: u128 = newer + row.content.as_str().unicode_len() as u128;
                    totals.insert(row.chat_id, total);
                    assert forall|c: i64|
                        #[trigger] total_in(totals@, c) == chars_from(all, k - 1, c) && total_in(
                            totals@,
                            c,
                        ) <= (count - (k - 1)) * 0x1_0000_0000_0000_0000 by {
                        assert(total_in(earlier, c) == chars_from(all, k, c));
                    }
                    let fits: bool = budget > 0 && newer < budget as u128;
                    let ours: bool = match only {
                        Some(c) => row.chat_id == c,
                        None => true,
                    };
                    if !ours || fits {
                        assert(keep(k - 1));
                        kept.push(row);
                        assert(chat_views(kept@).reverse() =~= seq![row@] + before);
                        assert(rows::survivors(all, k - 1, keep).push(row@) + before
                            =~= rows::survivors(all, k - 1, keep) + (seq![row@] + before));
                    } else {
                        assert(!keep(k - 1));
                    }
                },
                None => {},
            }
        }
        let ghost newest_first = kept@;
        self.messages = rows::reversed(kept);
        proof {
            assert(chat_views(self.messages@) =~= chat_views(newest_first).reverse());
            assert(goal =~= chat_views(self.messages@));
        }
        count - self.messages.len()
    }

    /// The number of messages of a chat and their characters.
    pub fn size_of(&self, chat_id: i64) -> (r: (usize, u128))
        ensures
            r.0 == chat_rows(self@.messages, chat_id).len(),
            r.1 == chars_from(self@.messages, 0, chat_id),
    {
        let ghost all = chat_views(self.messages@);
        let n: usize = self.messages.len();
        let mut count: usize = 0;
        let mut chars: u128 = 0;
        let mut i: usize = 0;
        assert(chat_rows(all.take(0), chat_id).len() == 0);
        while i < n
            invariant
                i <= n == self.messages@.len(),
                all == chat_views(self.messages@),
                count <= i,
                count == chat_rows(all.take(i as int), chat_id).len(),
                chars + chars_from(all, i as int, chat_id) == chars_from(all, 0, chat_id),
                chars <= i * 0x1_0000_0000_0000_0000,
            decreases n - i,
        {
            assert(all.take(i + 1).drop_last() =~= all.take(i as int));
            assert(all.take(i + 1).last() == self.messages@[i as int]@);
            assert(all[i as int] == self.messages@[i as int]@);
            if self.messages[i].chat_id == chat_id {
                count += 1;
                chars = chars + self.messages[i].content.as_str().unicode_len() as u128;
            }
            i += 1;
        }
        assert(all.take(all.len() as int) =~= all);
        (count, chars)
    }

    /// Removes the messages of a chat.
    pub fn reset(&mut self, chat_id: i64)
        ensures
            final(self)@.users == old(self)@.users,
            final(self)@.messages == without_chat(old(self)@.messages, chat_id),
    {
        let ghost all = chat_views(self.messages@);
        let ghost keep = |i: int| all[i].chat_id != chat_id;
        let ghost goal = rows::survivors(all, all.len() as int, keep);
        let mut kept: Vec<ChatRow> = Vec::new();
        assert(all.take(all.len() as int) =~= all);
        assert(goal + chat_views(kept@).reverse() =~= goal);
        while self.messages.len() > 0
            invariant
                self.messages@.len() <= all.len(),
                chat_views(self.messages@) == all.take(self.messages@.len() as int),
                keep == |i: int| all[i].chat_id != chat_id,
                goal == rows::survivors(all, self.messages@.len() as int, keep) + chat_views(
                    kept@,
                ).reverse(),
                self.users@ == old(self).users@,
            decreases self.messages@.len(),
        {
            let ghost k = self.messages@.len() as int;
            let ghost before = chat_views(kept@).reverse();
            match self.messages.pop() {
                Some(row) => {
                    assert(all.take(k).last() == row@);
                    assert(all[k - 1] == row@);
                    assert(chat_views(self.messages@) =~= all.take(k - 1));
                    if row.chat_id != chat_id {
                        assert(keep(k - 1));
                        kept.push(row);
                        assert(chat_views(kept@).reverse() =~= seq![row@] + before);
                        assert(rows::survivors(all, k - 1, keep).push(row@) + before
                            =~= rows::survivors(all, k - 1, keep) + (seq![row@] + before));
                    } else {
                        assert(!keep(k - 1));
                    }
                },
                None => {},
            }
        }
        let ghost newest_first = kept@;
        self.messages = rows::reversed(kept);
        proof {
            assert(chat_views(self.messages@) =~= chat_views(newest_first).reverse());
            assert(goal =~= chat_views(self.messages@));
        }
    }

    /// Which users are among the `n` who wrote last.
    fn active_marks(&self, n: usize) -> (r: Vec<bool>)
        ensures
            r@.len() == self@.users.len(),
            forall|i: int| 0 <= i < r@.len() ==> #[trigger] r@[i] == lately_active(
                self@.users,
                n as int,
            )(i),
    {
        let ghost users = self@.users;
        let count: usize = self.users.len();
        let mut keys: Vec<(i128, i64)> = Vec::new();
        let mut marks: Vec<bool> = Vec::new();
        let mut i: usize = 0;
        while i < count
            invariant
                i <= count == self.users@.len(),
                users == user_views(self.users@),
                keys@ == activity(users).take(i as int),
                marks@.len() == i,
                forall|k: int| 0 <= k < i ==> !#[trigger] marks@[k],
            decreases count - i,
        {
            let key = (self.users[i].last_activity as i128, self.users[i].user_id);
            assert(activity(users)[i as int] == key);
            assert(activity(users).take(i as int).push(key) =~= activity(users).take(i + 1));
            keys.push(key);
            marks.push(false);
            i += 1;
        }
        assert(activity(users).take(count as int) =~= activity(users));
        let order = sort::rank_scores(&keys);
        let ghost ranking = sort::ranked(count as int, sort::score_before(activity(users)));
        let mut p: usize = 0;
        while p < order.len() && p < n
            invariant
                p <= order@.len() == count,
                p <= n,
                marks@.len() == count,
                ranking == sort::positions(order@),
                forall|k: int| 0 <= k < order@.len() ==> #[trigger] order@[k] < count,
                forall|k: int|
                    0 <= k < count ==> (#[trigger] marks@[k] <==> exists|q: int|
                        0 <= q < p && #[trigger] ranking[q] == k),
            decreases order@.len() - p,
        {
            let ghost was = marks@;
            marks.set(order[p], true);
            assert(ranking[p as int] == order@[p as int]);
            assert forall|k: int| 0 <= k < count implies (#[trigger] marks@[k] <==> exists|q: int|
                0 <= q < p + 1 && #[trigger] ranking[q] == k) by {
                assert(was[k] <==> exists|q: int| 0 <= q < p && #[trigger] ranking[q] == k);
                if k == order@[p as int] {
                    assert(ranking[p as int] == k);
                }
            }
            p += 1;
        }
        assert forall|k: int| 0 <= k < marks@.len() implies #[trigger] marks@[k] == lately_active(
            users,
            n as int,
        )(k) by {
            assert(marks@[k] <==> exists|q: int| 0 <= q < p && #[trigger] ranking[q] == k);
        }
        marks
    }

    /// Removes all but the `n` users who wrote last, with their messages.
    pub fn keep_active(&mut self, n: usize)
        requires
            old(self)@.wf(),
        ensures
            final(self)@.wf(),
            final(self)@.users == active_users(old(self)@.users, n as int),
            final(self)@.messages == active_messages(
                old(self)@.messages,
                old(self)@.users,
                n as int,
            ),
    {
        let marks = self.active_marks(n);
        let ghost users = self@.users;
        let ghost keep_user = lately_active(users, n as int);
        let ghost users_goal = rows::survivors(users, users.len() as int, keep_user);
        let mut gone: HashSet<i64> = HashSet::new();
        let mut kept_users: Vec<UserRow> = Vec::new();
        assert(users.take(users.len() as int) =~= users);
        assert(users_goal + user_views(kept_users@).reverse() =~= users_goal);
        while self.users.len() > 0
            invariant
                self.users@.len() <= users.len() == marks@.len(),
                user_views(self.users@) == users.take(self.users@.len() as int),
                keep_user == lately_active(users, n as int),
                forall|i: int| 0 <= i < marks@.len() ==> #[trigger] marks@[i] == keep_user(i),
                users_goal == rows::survivors(users, self.users@.len() as int, keep_user)
                    + user_views(kept_users@).reverse(),
                forall|x: i64|
                    #[trigger] gone@.contains(x) <==> exists|i: int|
                        self.users@.len() <= i < users.len() && #[trigger] users[i].user_id == x
                            && !keep_user(i),
                self.messages@ == old(self).messages@,
            decreases self.users@.len(),
        {
            let ghost k = self.users@.len() as int;
            let ghost before = user_views(kept_users@).reverse();
            let ghost earlier = gone@;
            let at: usize = self.users.len() - 1;
            match self.users.pop() {
                Some(row) => {
                    assert(users.take(k).last() == row@);
                    assert(users[k - 1] == row@);
                    assert(user_views(self.users@) =~= users.take(k - 1));
                    if marks[at] {
                        assert(keep_user(k - 1));
                        kept_users.push(row);
                        assert(user_views(kept_users@).reverse() =~= seq![row@] + before);
                        assert(rows::survivors(users, k - 1, keep_user).push(row@) + before
                            =~= rows::survivors(users, k - 1, keep_user) + (seq![row@] + before));
                    } else {
                        assert(!keep_user(k - 1));
                        gone.insert(row.user_id);
                    }
                    assert forall|x: i64|
                        #[trigger] gone@.contains(x) <==> exists|i: int|
                            k - 1 <= i < users.len() && #[trigger] users[i].user_id == x
                                && !keep_user(i) by {
                        assert(earlier.contains(x) <==> exists|i: int|
                            k <= i < users.len() && #[trigger] users[i].user_id == x && !keep_user(
                                i,
                            ));
                        if x == row.user_id {
                            assert(users[k - 1].user_id == x);
                        }
                    }
                },
                None => {},
            }
        }
        let ghost newest_users = kept_users@;
        self.users = rows::reversed(kept_users);
        proof {
            assert(user_views(self.users@) =~= user_views(newest_users).reverse());
            assert(users_goal =~= user_views(self.users@));
            lemma_survivors_distinct(users, users.len() as int, keep_user);
        }

        let ghost all = chat_views(self.messages@);
        let ghost keep = |i: int| !dropped_user(users, n as int, all[i].user_id);
        let ghost goal = rows::survivors(all, all.len() as int, keep);
        let mut kept: Vec<ChatRow> = Vec::new();
        assert(all.take(all.len() as int) =~= all);
        assert(goal + chat_views(kept@).reverse() =~= goal);
        while self.messages.len() > 0
            invariant
                self.messages@.len() <= all.len(),
                chat_views(self.messages@) == all.take(self.messages@.len() as int),
                keep == |i: int| !dropped_user(users, n as int, all[i].user_id),
                forall|x: i64| #[trigger] gone@.contains(x) <==> dropped_user(users, n as int, x),
                goal == rows::survivors(all, self.messages@.len() as int, keep) + chat_views(
                    kept@,
                ).reverse(),
                user_views(self.users@) == users_goal,
            decreases self.messages@.len(),
        {
            let ghost k = self.messages@.len() as int;
            let ghost before = chat_views(kept@).reverse();
            match self.messages.pop() {
                Some(row) => {
                    assert(all.take(k).last() == row@);
                    assert(all[k - 1] == row@);
                    assert(chat_views(self.messages@) =~= all.take(k - 1));
                    if !gone.contains(&row.user_id) {
                        assert(keep(k - 1));
                        kept.push(row);
                        assert(chat_views(kept@).reverse() =~= seq![row@] + before);
                        assert(rows::survivors(all, k - 1, keep).push(row@) + before
                            =~= rows::survivors(all, k - 1, keep) + (seq![row@] + before));
                    } else {
                        assert(!keep(k - 1));
                    }
                },
                None => {},
            }
        }
        let ghost newest_first = kept@;
        self.messages = rows::reversed(kept);
        proof {
            assert(chat_views(self.messages@) =~= chat_views(newest_first).reverse());
            assert(goal =~= chat_views(self.messages@));
        }
    }

    /// The number of messages.
    pub fn message_count(&self) -> (r: usize)
        ensures
            r == self@.messages.len(),
    {
        self.messages.len()
    }

    /// The number of users.
    pub fn user_count(&self) -> (r: usize)
        ensures
            r == self@.users.len(),
    {
        self.users.len()
    }
}

/// The user is one of the first `k`.
spec fn among(users: Seq<UserRowView>, k: int, u: UserRowView) -> bool {
    exists|j: int| 0 <= j < k && #[trigger] users[j] == u
}

/// Users that stay are still distinct.
proof fn lemma_survivors_distinct(users: Seq<UserRowView>, k: int, keep: spec_fn(int) -> bool)
    requires
        distinct_users(users),
        0 <= k <= users.len(),
    ensures
        distinct_users(rows::survivors(users, k, keep)),
        forall|i: int|
            0 <= i < rows::survivors(users, k, keep).len() ==> among(
                users,
                k,
                #[trigger] rows::survivors(users, k, keep)[i],
            ),
    decreases k,
{
    if k > 0 {
        lemma_survivors_distinct(users, k - 1, keep);
        let rest = rows::survivors(users, k - 1, keep);
        let r = rows::survivors(users, k, keep);
        assert forall|i: int| 0 <= i < r.len() implies among(users, k, #[trigger] r[i]) by {
            if i < rest.len() {
                assert(r[i] == rest[i]);
                assert(among(users, k - 1, rest[i]));
            } else {
                assert(users[k - 1] == r[i]);
            }
        }
        assert forall|a: int, b: int| 0 <= a < b < r.len() implies #[trigger] r[a].user_id
            != #[trigger] r[b].user_id by {
            assert(r[a] == rest[a]);
            if b < rest.len() {
                assert(r[b] == rest[b]);
            } else {
                assert(among(users, k - 1, rest[a]));
                let j = choose|j: int| 0 <= j < k - 1 && #[trigger] users[j] == rest[a];
                assert(users[j].user_id != users[k - 1].user_id);
            }
        }
    }
}

/// Chats do not mix: a message changes only its own chat.
pub proof fn law_chats_are_isolated(all: Seq<ChatRowView>, row: ChatRowView, chat_id: i64)
    ensures
        row.chat_id == chat_id ==> chat_rows(all.push(row), chat_id) == chat_rows(
            all,
            chat_id,
        ).push(row),
        row.chat_id != chat_id ==> chat_rows(all.push(row), chat_id) == chat_rows(all, chat_id),
{
    assert(all.push(row).drop_last() =~= all);
}

/// After a reset the chat is empty and the others are as they were.
pub proof fn law_reset_clears_chat(all: Seq<ChatRowView>, chat_id: i64, other: i64)
    ensures
        chat_rows(without_chat(all, chat_id), chat_id).len() == 0,
        other != chat_id ==> chat_rows(without_chat(all, chat_id), other) == chat_rows(all, other),
{
    let n = all.len() as int;
    lemma_reset(all, n, chat_id, other);
    assert(all.take(n) =~= all);
}

/// See [`law_reset_clears_chat`].
proof fn lemma_reset(all: Seq<ChatRowView>, k: int, chat_id: i64, other: i64)
    requires
        0 <= k <= all.len(),
    ensures
        chat_rows(
            rows::survivors(all, k, |i: int| all[i].chat_id != chat_id),
            chat_id,
        ).len() == 0,
        other != chat_id ==> chat_rows(
            rows::survivors(all, k, |i: int| all[i].chat_id != chat_id),
            other,
        ) == chat_rows(all.take(k), other),
    decreases k,
{
    let keep = |i: int| all[i].chat_id != chat_id;
    if k > 0 {
        lemma_reset(all, k - 1, chat_id, other);
        let rest = rows::survivors(all, k - 1, keep);
        assert(rest.push(all[k - 1]).drop_last() =~= rest);
        assert(all.take(k).drop_last() =~= all.take(k - 1));
        assert(all.take(k).last() == all[k - 1]);
    } else {
        assert(all.take(0) =~= Seq::<ChatRowView>::empty());
    }
}

/// The messages of a chat among the first `k` that trimming leaves are those
/// that the budget takes in.
proof fn lemma_trim_window(all: Seq<ChatRowView>, k: int, chat_id: i64, budget: int)
    requires
        0 <= k <= all.len(),
    ensures
        chat_rows(rows::survivors(all, k, within_budget(all, Some(chat_id), budget)), chat_id)
            == newest(chat_rows(all.take(k), chat_id), chars_from(all, k, chat_id) as int, budget),
    decreases k,
{
    let keep = within_budget(all, Some(chat_id), budget);
    if k > 0 {
        lemma_trim_window(all, k - 1, chat_id, budget);
        let rest = rows::survivors(all, k - 1, keep);
        assert(rest.push(all[k - 1]).drop_last() =~= rest);
        assert(all.take(k).drop_last() =~= all.take(k - 1));
        assert(all.take(k).last() == all[k - 1]);
        if all[k - 1].chat_id == chat_id {
            let d0 = chat_rows(all.take(k - 1), chat_id);
            assert(d0.push(all[k - 1]).drop_last() =~= d0);
            let filled = chars_from(all, k, chat_id) as int;
            if filled >= budget {
                lemma_newest_full(d0, filled + all[k - 1].content.len(), budget);
            }
        }
    } else {
        assert(all.take(0) =~= Seq::<ChatRowView>::empty());
    }
}

/// A full budget takes in nothing.
proof fn lemma_newest_full(messages: Seq<ChatRowView>, filled: int, budget: int)
    requires
        filled >= budget,
    ensures
        newest(messages, filled, budget).len() == 0,
{
}

/// Selecting again from what was selected changes nothing.
proof fn lemma_newest_again(messages: Seq<ChatRowView>, filled: int, budget: int)
    ensures
        newest(newest(messages, filled, budget), filled, budget) == newest(
            messages,
            filled,
            budget,
        ),
    decreases messages.len(),
{
    if messages.len() > 0 && filled < budget {
        let m = messages.last();
        let rest = newest(messages.drop_last(), filled + m.content.len(), budget);
        lemma_newest_again(messages.drop_last(), filled + m.content.len(), budget);
        assert(rest.push(m).drop_last() =~= rest);
    }
}

/// Trimming a chat leaves exactly the messages that the budget takes in, and
/// selecting by the same budget afterwards gives the same messages. Other
/// chats are as they were.
pub proof fn law_trim_leaves_window(all: Seq<ChatRowView>, chat_id: i64, budget: int, other: i64)
    ensures
        chat_rows(trimmed(all, Some(chat_id), budget), chat_id) == newest(
            chat_rows(all, chat_id),
            0,
            budget,
        ),
        newest(chat_rows(trimmed(all, Some(chat_id), budget), chat_id), 0, budget) == newest(
            chat_rows(all, chat_id),
            0,
            budget,
        ),
        other != chat_id ==> chat_rows(trimmed(all, Some(chat_id), budget), other) == chat_rows(
            all,
            other,
        ),
{
    let n = all.len() as int;
    assert(all.take(n) =~= all);
    lemma_trim_window(all, n, chat_id, budget);
    lemma_newest_again(chat_rows(all, chat_id), 0, budget);
    if other != chat_id {
        lemma_trim_others(all, n, chat_id, budget, other);
    }
}

/// Trimming one chat leaves another alone.
proof fn lemma_trim_others(all: Seq<ChatRowView>, k: int, chat_id: i64, budget: int, other: i64)
    requires
        0 <= k <= all.len(),
        other != chat_id,
    ensures
        chat_rows(rows::survivors(all, k, within_budget(all, Some(chat_id), budget)), other)
            == chat_rows(all.take(k), other),
    decreases k,
{
    let keep = within_budget(all, Some(chat_id), budget);
    if k > 0 {
        lemma_trim_others(all, k - 1, chat_id, budget, other);
        let rest = rows::survivors(all, k - 1, keep);
        assert(rest.push(all[k - 1]).drop_last() =~= rest);
        assert(all.take(k).drop_last() =~= all.take(k - 1));
        assert(all.take(k).last() == all[k - 1]);
    } else {
        assert(all.take(0) =~= Seq::<ChatRowView>::empty());
    }
}

/// What a budget takes in is the newest part of a chat, and all but its oldest
/// message is shorter than the budget.
pub proof fn law_newest_within_budget(messages: Seq<ChatRowView>, budget: int)
    ensures
        newest(messages, 0, budget).is_suffix_of(messages),
        newest(messages, 0, budget).len() > 0 ==> length_of_rows(
            newest(messages, 0, budget).drop_first(),
        ) < budget,
        newest(messages, 0, budget).len() < messages.len() ==> length_of_rows(
            newest(messages, 0, budget),
        ) >= budget,
{
    lemma_newest_within(messages, 0, budget);
}

/// The characters of a list of messages.
pub open spec fn length_of_rows(messages: Seq<ChatRowView>) -> nat
    decreases messages.len(),
{
    if messages.len() == 0 {
        0
    } else {
        length_of_rows(messages.drop_last()) + messages.last().content.len()
    }
}

/// See [`law_newest_within_budget`].
proof fn lemma_newest_within(messages: Seq<ChatRowView>, filled: int, budget: int)
    ensures
        newest(messages, filled, budget).is_suffix_of(messages),
        newest(messages, filled, budget).len() > 0 ==> filled + length_of_rows(
            newest(messages, filled, budget).drop_first(),
        ) < budget,
        newest(messages, filled, budget).len() < messages.len() ==> filled + length_of_rows(
            newest(messages, filled, budget),
        ) >= budget,
    decreases messages.len(),
{
    let r = newest(messages, filled, budget);
    let n = messages.len() as int;
    if messages.len() > 0 && filled < budget {
        let m = messages.last();
        let rest = newest(messages.drop_last(), filled + m.content.len(), budget);
        lemma_newest_within(messages.drop_last(), filled + m.content.len(), budget);
        assert(rest =~= messages.drop_last().subrange(n - 1 - rest.len(), n - 1));
        assert(r =~= messages.subrange(n - r.len(), n)) by {
            assert forall|i: int| 0 <= i < r.len() implies r[i] == messages[n - r.len() + i] by {
                if i < rest.len() {
                    assert(rest[i] == messages.drop_last()[n - 1 - rest.len() + i]);
                }
            }
        }
        assert(r.drop_last() =~= rest);
        if rest.len() > 0 {
            assert(r.drop_first().drop_last() =~= rest.drop_first());
            assert(r.drop_first().last() == m);
        } else {
            assert(r.drop_first() =~= Seq::<ChatRowView>::empty());
        }
    } else {
        assert(r =~= messages.subrange(n, n));
    }
}

/// A message that was written is read back word for word, and last, with the
/// name that its author is known by.
pub proof fn law_message_reads_back(
    users: Seq<UserRowView>,
    all: Seq<ChatRowView>,
    row: ChatRowView,
    display_name: Seq<char>,
    budget: int,
)
    requires
        budget > 0,
    ensures
        ({
            let after = touched(users, row.user_id, display_name, row.created_at);
            let read = all_told(
                after,
                newest(chat_rows(all.push(row), row.chat_id), 0, budget),
            );
            &&& read.len() > 0
            &&& read.last().role == row.role
            &&& read.last().content == row.content
            &&& display_name.len() > 0 ==> read.last().display_name == Some(display_name)
        }),
{
    assert(all.push(row).drop_last() =~= all);
    let after = touched(users, row.user_id, display_name, row.created_at);
    lemma_touched_user(users, row.user_id, display_name, row.created_at);
}

/// The user who wrote is known.
proof fn lemma_touched_user(
    users: Seq<UserRowView>,
    user_id: i64,
    display_name: Seq<char>,
    now: i64,
)
    ensures
        ({
            let after = touched(users, user_id, display_name, now);
            &&& user_at(after, user_id) matches Some(i)
            &&& display_name.len() > 0 ==> after[i].display_name == display_name
        }),
    decreases users.len(),
{
    let after = touched(users, user_id, display_name, now);
    match user_at(users, user_id) {
        None => {
            assert(after.last().user_id == user_id);
        },
        Some(i) => {
            if users.last().user_id == user_id {
                assert(after.last().user_id == user_id);
            } else {
                let init = users.drop_last();
                lemma_touched_user(init, user_id, display_name, now);
                lemma_user_at(init, user_id);
                let before = touched(init, user_id, display_name, now);
                lemma_user_at(before, user_id);
                assert(after.drop_last() =~= before);
                assert(after.last() == users.last());
                let k = user_at(before, user_id)->0;
                assert(after[k] == before[k]);
            }
        },
    }
}

} // verus!
