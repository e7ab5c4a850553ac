//! The memory of chats, the guides and the settings.

pub mod amounts;
pub mod chats;
pub mod guides;
pub mod keeping;
pub mod relevance;
pub mod schema;
pub mod settings;
pub mod titles;

use vstd::prelude::*;

use crate::clock;
use crate::strings;
use crate::text::WordSet;

pub use crate::db::chats::ChatRow;
pub use crate::db::chats::Chats;
pub use crate::db::chats::ChatsView;
pub use crate::db::chats::UserRow;
pub use crate::db::guides::AddGuideError;
pub use crate::db::guides::AddGuideKind;
pub use crate::db::guides::GuideInfo;
pub use crate::db::guides::GuideRow;
pub use crate::db::guides::Guides;
pub use crate::db::guides::GuidesView;
pub use crate::db::settings::Settings;

verus! {

/// A message kept in the memory of a chat.
#[derive(Debug)]
pub struct StoredMessage {
    pub role: String,
    pub content: String,
    pub display_name: Option<String>,
}

/// What a [`StoredMessage`] holds.
pub struct StoredMessageView {
    pub role: Seq<char>,
    pub content: Seq<char>,
    pub display_name: Option<Seq<char>>,
}

impl View for StoredMessage {
    type V = StoredMessageView;

    open spec fn view(&self) -> StoredMessageView {
        StoredMessageView {
            role: self.role@,
            content: self.content@,
            display_name: match self.display_name {
                Some(n) => Some(n@),
                None => None,
            },
        }
    }
}

impl StoredMessage {
    /// The views of a list of messages.
    pub open spec fn views(v: Seq<StoredMessage>) -> Seq<StoredMessageView> {
        v.map_values(|m: StoredMessage| m@)
    }
}

impl Clone for StoredMessage {
    fn clone(&self) -> (r: StoredMessage)
        ensures
            r@ == self@,
    {
        StoredMessage {
            role: self.role.clone(),
            content: self.content.clone(),
            display_name: match &self.display_name {
                Some(n) => Some(n.clone()),
                None => None,
            },
        }
    }
}

/// The current time in seconds since the start of 1970.
fn unix_now() -> (r: i64)
    ensures
        exists|seconds: Option<u64>| r == #[trigger] clock::timestamp_of(seconds),
{
    clock::now()
}

/// A rough number of tokens for a number of characters: three characters make
/// a token, and a rest of fewer counts as one.
pub fn est_chars_to_tokens(chars: usize) -> (r: usize)
    ensures
        r == (chars + 2) / 3,
{
    chars / 3 + if chars % 3 > 0 {
        1
    } else {
        0
    }
}

/// The characters that a number of tokens stands for, as far as the machine
/// can count.
pub open spec fn char_budget(tokens: nat) -> int {
    guides::counted(tokens * 3)
}

/// See [`char_budget`].
fn budget_of(tokens: usize) -> (r: usize)
    ensures
        r == char_budget(tokens as nat),
{
    if tokens <= usize::MAX / 3 {
        tokens * 3
    } else {
        usize::MAX
    }
}

/// What to do next about the size of the database.
#[derive(Debug, Clone, Copy, PartialEq, Eq, Structural)]
pub enum LimitStep {
    /// The stage at which the database fitted; 5 if it never did.
    Done(u8),
    /// Compact the database, measure it and go on with this stage.
    Vacuum(u8),
}

/// The size that cleaning aims at: 95 per cent of the limit, so that it does
/// not start again with every message.
pub open spec fn soft_limit(limit_bytes: u64) -> int {
    limit_bytes - limit_bytes as int / 20
}

/// The characters of each chat that the first stage leaves.
pub const GENTLE_CHARS: i64 = 3000;

/// The characters of each chat that the second stage leaves.
pub const HARSH_CHARS: i64 = 300;

/// The users that the third stage leaves.
pub const ACTIVE_USERS: usize = 500;

/// The guides that the fourth stage removes.
pub const OLD_GUIDES: usize = 50;

/// The memory of chats, the guides and the settings.
#[derive(Debug)]
pub struct MemoryStore {
    chats: Chats,
    guides: Guides,
    settings: Settings,
}

/// What a [`MemoryStore`] holds.
pub struct MemoryView {
    pub chats: ChatsView,
    pub guides: GuidesView,
    pub settings: Map<Seq<char>, Seq<char>>,
}

impl View for MemoryStore {
    type V = MemoryView;

    closed spec fn view(&self) -> MemoryView {
        MemoryView { chats: self.chats@, guides: self.guides@, settings: self.settings@ }
    }
}

impl MemoryView {
    /// The memory after a message has been added at a given time.
    pub open spec fn with_message(
        self,
        user_id: i64,
        chat_id: i64,
        display_name: Seq<char>,
        role: Seq<char>,
        content: Seq<char>,
        now: i64,
    ) -> MemoryView {
        MemoryView {
            chats: ChatsView {
                users: chats::touched(self.chats.users, user_id, display_name, now),
                messages: self.chats.messages.push(
                    chats::ChatRowView {
                        user_id: user_id,
                        chat_id: chat_id,
                        role: role,
                        content: content,
                        created_at: now,
                    },
                ),
            },
            ..self
        }
    }

    /// The memory after the messages of chats have been trimmed.
    pub open spec fn with_trimmed(self, only: Option<i64>, budget: int) -> MemoryView {
        MemoryView {
            chats: ChatsView {
                messages: chats::trimmed(self.chats.messages, only, budget),
                ..self.chats
            },
            ..self
        }
    }

    /// The memory after a guide has been added at a given time.
    pub open spec fn with_guide(
        self,
        title: Seq<char>,
        added_by: i64,
        content: Seq<char>,
        now: i64,
    ) -> MemoryView {
        MemoryView {
            guides: GuidesView {
                rows: self.guides.rows.push(
                    self.guides.new_row(title, added_by, content, now),
                ),
                last_id: (self.guides.last_id + 1) as i64,
            },
            ..self
        }
    }

    /// The memory after the users who wrote long ago have been dropped.
    pub open spec fn with_active_users(self) -> MemoryView {
        MemoryView {
            chats: ChatsView {
                users: chats::active_users(self.chats.users, ACTIVE_USERS as int),
                messages: chats::active_messages(
                    self.chats.messages,
                    self.chats.users,
                    ACTIVE_USERS as int,
                ),
            },
            ..self
        }
    }

    /// The memory after the oldest guides have been dropped.
    pub open spec fn without_old_guides(self) -> MemoryView {
        MemoryView {
            guides: GuidesView {
                rows: guides::without_oldest(self.guides.rows, OLD_GUIDES as int),
                ..self.guides
            },
            ..self
        }
    }

    /// One step of keeping the database within its limit: what the memory
    /// becomes and what to do next.
    pub open spec fn limited(self, stage: u8, disk_size: u64, limit_bytes: u64) -> (
        MemoryView,
        LimitStep,
    ) {
        if disk_size <= soft_limit(limit_bytes) {
            (self, LimitStep::Done(stage))
        } else if stage == 0 {
            (self.with_trimmed(None, GENTLE_CHARS as int), LimitStep::Vacuum(1))
        } else if stage == 1 {
            (self.with_trimmed(None, HARSH_CHARS as int), LimitStep::Vacuum(2))
        } else if stage == 2 {
            (self.with_active_users(), LimitStep::Vacuum(3))
        } else if stage == 3 {
            if self.without_old_guides().guides.rows.len() == self.guides.rows.len() {
                (self.without_old_guides(), LimitStep::Done(5))
            } else {
                (self.without_old_guides(), LimitStep::Vacuum(4))
            }
        } else {
            (self, LimitStep::Done(5))
        }
    }
}

impl MemoryStore {
    /// The tables are well formed.
    pub closed spec fn wf(&self) -> bool {
        &&& self.chats@.wf()
        &&& self.guides@.wf()
        &&& self.settings.wf()
    }

    /// An empty memory.
    pub fn new() -> (r: MemoryStore)
        ensures
            r.wf(),
            r@.chats.users.len() == 0,
            r@.chats.messages.len() == 0,
            r@.guides.rows.len() == 0,
            r@.guides.last_id == 0,
            r@.settings == Map::<Seq<char>, Seq<char>>::empty(),
    {
        MemoryStore { chats: Chats::new(), guides: Guides::new(), settings: Settings::new() }
    }

    /// The memory with tables that were read from a database.
    pub fn restore(chats: Chats, guides: Guides, settings: Settings) -> (r: MemoryStore)
        requires
            chats@.wf(),
            guides@.wf(),
            settings.wf(),
        ensures
            r.wf(),
            r@ == (MemoryView { chats: chats@, guides: guides@, settings: settings@ }),
    {
        MemoryStore { chats: chats, guides: guides, settings: settings }
    }

    /// Saves a message at the given time.
    pub fn add_message_at(
        &mut self,
        user_id: i64,
        chat_id: i64,
        display_name: &str,
        role: &str,
        content: &str,
        now: i64,
    )
        requires
            old(self).wf(),
        ensures
            final(self).wf(),
            final(self)@ == old(self)@.with_message(
                user_id,
                chat_id,
                display_name@,
                role@,
                content@,
                now,
            ),
    {
        let row = ChatRow {
            user_id: user_id,
            chat_id: chat_id,
            role: role.to_owned(),
            content: content.to_owned(),
            created_at: now,
        };
        self.chats.add(row, display_name);
    }

    /// Saves a message in the memory of a chat. An empty name keeps the known
    /// one.
    pub fn add_message(
        &mut self,
        user_id: i64,
        chat_id: i64,
        display_name: &str,
        role: &str,
        content: &str,
    )
        requires
            old(self).wf(),
        ensures
            final(self).wf(),
            exists|now: i64|
                final(self)@ == #[trigger] old(self)@.with_message(
                    user_id,
                    chat_id,
                    display_name@,
                    role@,
                    content@,
                    now,
                ),
    {
        let now: i64 = unix_now();
        self.add_message_at(user_id, chat_id, display_name, role, content, now);
    }

    /// The last messages of a chat within a budget of tokens, from the oldest
    /// to the newest, with the names of their authors.
    pub fn chat_messages_within_tokens(&self, chat_id: i64, token_budget: usize) -> (r: Vec<
        StoredMessage,
    >)
        ensures
            StoredMessage::views(r@) == chats::all_told(
                self@.chats.users,
                chats::newest(
                    chats::chat_rows(self@.chats.messages, chat_id),
                    0,
                    char_budget(token_budget as nat),
                ),
            ),
    {
        self.chats.within(chat_id, budget_of(token_budget))
    }

    /// The user is held.
    pub fn knows_user(&self, user_id: i64) -> (r: bool)
        ensures
            r == (chats::user_at(self@.chats.users, user_id) is Some),
    {
        self.chats.knows(user_id)
    }

    /// The number of people who have written in a chat.
    pub fn chat_participant_count(&self, chat_id: i64) -> (r: usize)
        ensures
            r == chats::participants(self@.chats.messages, chat_id).len(),
    {
        self.chats.participant_count(chat_id)
    }

    /// Removes the messages of a chat that do not fit into a budget of tokens.
    /// Gives the number of messages removed.
    pub fn trim_chat_history(&mut self, chat_id: i64, token_budget: usize) -> (r: usize)
        requires
            old(self).wf(),
        ensures
            final(self).wf(),
            final(self)@ == old(self)@.with_trimmed(
                Some(chat_id),
                char_budget(token_budget as nat),
            ),
            r == old(self)@.chats.messages.len() - final(self)@.chats.messages.len(),
    {
        self.chats.trim(Some(chat_id), budget_of(token_budget) as i128)
    }

    /// The number of messages of a chat, a rough number of their tokens, and
    /// the number of people who have written.
    pub fn chat_stats(&self, chat_id: i64) -> (r: (i64, usize, usize))
        ensures
            r.0 == chats::chat_rows(self@.chats.messages, chat_id).len() as i64,
            r.1 == (guides::counted(chats::chars_from(self@.chats.messages, 0, chat_id)) + 2) / 3,
            r.2 == chats::participants(self@.chats.messages, chat_id).len(),
    {
        let (count, chars) = self.chats.size_of(chat_id);
        let total: usize = if chars <= usize::MAX as u128 {
            chars as usize
        } else {
            usize::MAX
        };
        (count as i64, est_chars_to_tokens(total), self.chat_participant_count(chat_id))
    }

    /// Removes the messages of a chat.
    pub fn reset_chat(&mut self, chat_id: i64)
        requires
            old(self).wf(),
        ensures
            final(self).wf(),
            final(self)@ == (MemoryView {
                chats: ChatsView {
                    messages: chats::without_chat(old(self)@.chats.messages, chat_id),
                    ..old(self)@.chats
                },
                ..old(self)@
            }),
    {
        self.chats.reset(chat_id);
    }

    /// Removes from every chat what does not fit into a budget of characters.
    /// Gives the number of messages removed.
    pub fn trim_all_chats(&mut self, char_budget: i64) -> (r: usize)
        requires
            old(self).wf(),
        ensures
            final(self).wf(),
            final(self)@ == old(self)@.with_trimmed(None, char_budget as int),
            r == old(self)@.chats.messages.len() - final(self)@.chats.messages.len(),
    {
        self.chats.trim(None, char_budget as i128)
    }

    /// The row that a new guide takes, if nothing speaks against it.
    pub fn plan_guide(&self, title: &str, added_by: i64, content: &str, now: i64) -> (r: Option<
        GuideRow,
    >)
        ensures
            match r {
                Some(row) => self@.guides.refusal(title@, content@) is None && row@
                    == self@.guides.new_row(title@, added_by, content@, now),
                None => self@.guides.refusal(title@, content@) is Some,
            },
    {
        match self.guides.plan(title, added_by, content, now) {
            Ok(row) => Some(row),
            Err(_) => None,
        }
    }

    /// Adds a guide at the given time. Gives the number of its fragments.
    pub fn add_guide_at(&mut self, title: &str, added_by: i64, content: &str, now: i64) -> (r:
        Result<usize, AddGuideError>)
        requires
            old(self).wf(),
        ensures
            final(self).wf(),
            match r {
                Ok(n) => {
                    &&& old(self)@.guides.refusal(title@, content@) is None
                    &&& final(self)@ == old(self)@.with_guide(title@, added_by, content@, now)
                    &&& n == old(self)@.guides.new_row(
                        title@,
                        added_by,
                        content@,
                        now,
                    ).chunks.len()
                },
                Err(e) => {
                    &&& final(self)@ == old(self)@
                    &&& guides::refused_with(old(self)@.guides.refusal(title@, content@), e)
                },
            },
    {
        self.guides.add(title, added_by, content, now)
    }

    /// Adds a guide. Gives the number of its fragments.
    pub fn add_guide(&mut self, title: &str, added_by: i64, content: &str) -> (r: Result<
        usize,
        AddGuideError,
    >)
        requires
            old(self).wf(),
        ensures
            final(self).wf(),
            match r {
                Ok(n) => {
                    &&& old(self)@.guides.refusal(title@, content@) is None
                    &&& exists|now: i64|
                        final(self)@ == #[trigger] old(self)@.with_guide(
                            title@,
                            added_by,
                            content@,
                            now,
                        )
                    &&& n == old(self)@.guides.new_row(title@, added_by, content@, 0).chunks.len()
                },
                Err(e) => {
                    &&& final(self)@ == old(self)@
                    &&& guides::refused_with(old(self)@.guides.refusal(title@, content@), e)
                },
            },
    {
        let now: i64 = unix_now();
        self.add_guide_at(title, added_by, content, now)
    }

    /// The list of guides.
    pub fn guides(&self) -> (r: Vec<GuideInfo>)
        ensures
            guides::info_views(r@) == self@.guides.rows.map_values(
                |g: guides::GuideRowView| guides::info(g),
            ),
    {
        self.guides.list()
    }

    /// The number of guides.
    pub fn guides_count(&self) -> (r: i64)
        ensures
            r == self@.guides.rows.len() as i64,
    {
        self.guides.len() as i64
    }

    /// The id of the guide that a query names: an id, a title or the start of
    /// just one title.
    pub fn find_guide(&self, query: &str) -> (r: Option<i64>)
        ensures
            match r {
                Some(id) => match guides::named(self@.guides.rows, query@) {
                    Some(i) => 0 <= i < self@.guides.rows.len() && id
                        == self@.guides.rows[i].guide_id,
                    None => false,
                },
                None => guides::named(self@.guides.rows, query@) is None,
            },
    {
        self.guides.find(query)
    }

    /// Removes a guide. Tells whether it was there.
    pub fn delete_guide(&mut self, guide_id: i64) -> (r: bool)
        requires
            old(self).wf(),
        ensures
            final(self).wf(),
            final(self)@.chats == old(self)@.chats,
            final(self)@.settings == old(self)@.settings,
            final(self)@.guides.last_id == old(self)@.guides.last_id,
            match guides::by_id(old(self)@.guides.rows, guide_id) {
                Some(i) => r && final(self)@.guides.rows == old(self)@.guides.rows.remove(i),
                None => !r && final(self)@.guides.rows == old(self)@.guides.rows,
            },
    {
        self.guides.delete(guide_id)
    }

    /// The fragments that answer a question, with the titles of their guides,
    /// chosen by shared words and fitted into a budget of characters.
    pub fn search_guide_chunks(&self, query_words: &WordSet, budget_chars: usize) -> (r: Vec<
        (String, String),
    >)
        ensures
            guides::pair_views(r@) == guides::found(
                self@.guides.rows,
                query_words@,
                budget_chars as int,
            ),
    {
        self.guides.search(query_words, budget_chars)
    }

    /// The value of a setting, if it is set.
    pub fn get_setting(&self, key: &str) -> (r: Option<String>)
        requires
            self.wf(),
        ensures
            match r {
                Some(v) => self@.settings.get(key@) == Some(v@),
                None => self@.settings.get(key@) is None,
            },
    {
        self.settings.get(key)
    }

    /// Sets a setting.
    pub fn set_setting(&mut self, key: &str, value: &str)
        requires
            old(self).wf(),
        ensures
            final(self).wf(),
            final(self)@ == (MemoryView {
                settings: old(self)@.settings.insert(key@, value@),
                ..old(self)@
            }),
    {
        self.settings.set(key, value);
    }

    /// Removes a setting. Tells whether it was set.
    pub fn delete_setting(&mut self, key: &str) -> (r: bool)
        requires
            old(self).wf(),
        ensures
            final(self).wf(),
            final(self)@ == (MemoryView {
                settings: old(self)@.settings.remove(key@),
                ..old(self)@
            }),
            r == old(self)@.settings.contains_key(key@),
    {
        self.settings.remove(key)
    }

    /// The names of all settings in order.
    pub fn all_settings(&self) -> (r: Vec<String>)
        requires
            self.wf(),
        ensures
            settings::rising(strings::views(r@)),
            forall|k: Seq<char>|
                #[trigger] strings::views(r@).contains(k) <==> self@.settings.contains_key(k),
    {
        self.settings.names()
    }

    /// The number of messages in all chats.
    pub fn total_messages(&self) -> (r: i64)
        ensures
            r == self@.chats.messages.len() as i64,
    {
        self.chats.message_count() as i64
    }

    /// The number of users.
    pub fn total_users(&self) -> (r: i64)
        ensures
            r == self@.chats.users.len() as i64,
    {
        self.chats.user_count() as i64
    }

    /// Keeps the database within its limit, one stage at a time and the gentle
    /// stages first: shorter histories, much shorter histories, only the users
    /// who wrote last, fewer guides. Starts with stage 0; the size is measured
    /// before each stage.
    pub fn enforce_limit(&mut self, stage: u8, disk_size: u64, limit_bytes: u64) -> (r: LimitStep)
        requires
            old(self).wf(),
        ensures
            final(self).wf(),
            (final(self)@, r) == old(self)@.limited(stage, disk_size, limit_bytes),
    {
        let soft: u64 = limit_bytes - limit_bytes / 20;
        if disk_size <= soft {
            return LimitStep::Done(stage);
        }
        if stage == 0 {
            let _ = self.trim_all_chats(GENTLE_CHARS);
            LimitStep::Vacuum(1)
        } else if stage == 1 {
            let _ = self.trim_all_chats(HARSH_CHARS);
            LimitStep::Vacuum(2)
        } else if stage == 2 {
            self.chats.keep_active(ACTIVE_USERS);
            LimitStep::Vacuum(3)
        } else if stage == 3 {
            let removed: usize = self.guides.drop_oldest(OLD_GUIDES);
            if removed == 0 {
                LimitStep::Done(5)
            } else {
                LimitStep::Vacuum(4)
            }
        } else {
            LimitStep::Done(5)
        }
    }
}

/// A setting is read back as it was written; the others stay.
pub proof fn law_setting_reads_back(
    m: MemoryView,
    key: Seq<char>,
    value: Seq<char>,
    other: Seq<char>,
)
    ensures
        m.settings.insert(key, value).get(key) == Some(value),
        m.settings.remove(key).get(key) is None,
        other != key ==> m.settings.insert(key, value).get(other) == m.settings.get(other),
        other != key ==> m.settings.remove(key).get(other) == m.settings.get(other),
{
}

/// Keeping the limit ends: every step is the last one or goes on with the next
/// stage, and none goes on beyond the fourth.
pub proof fn law_limit_ends(m: MemoryView, stage: u8, disk_size: u64, limit_bytes: u64)
    requires
        stage <= 4,
    ensures
        match m.limited(stage, disk_size, limit_bytes).1 {
            LimitStep::Done(n) => n == stage || n == 5,
            LimitStep::Vacuum(n) => n == stage + 1 && n <= 4,
        },
{
}

} // verus!
