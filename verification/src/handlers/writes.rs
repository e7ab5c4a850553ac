//! What commands write, and the errors that the writes may end with.

use vstd::prelude::*;

use crate::db;
use crate::db::chats;
use crate::db::guides::GuideRowView;
use crate::db::ChatsView;
use crate::db::GuideRow;
use crate::db::GuidesView;
use crate::db::MemoryView;
use crate::handlers::access;
use crate::handlers::commands;
use crate::handlers::commands::Command;
use crate::handlers::guides;
use crate::handlers::settings;
use crate::handlers::AppState;
use crate::handlers::AppStateView;
use crate::memory::SETTING_API_KEY;
use crate::memory::SETTING_BASE_URL;
use crate::memory::SETTING_MODEL;
use crate::memory::SETTING_SYSTEM_PROMPT;
use crate::strings;
use crate::telegram::Attachment;
use crate::telegram::AttachmentView;
use crate::telegram::Incoming;
use crate::telegram::IncomingView;

verus! {

/// The errors that writes ended with.
pub open spec fn error_views(v: Seq<Option<String>>) -> Seq<Option<Seq<char>>> {
    v.map_values(|e: Option<String>| strings::optional(e))
}

/// The error that a write ended with, if any.
pub open spec fn error_at(errors: Seq<Option<Seq<char>>>, i: int) -> Option<Seq<char>> {
    if 0 <= i < errors.len() {
        errors[i]
    } else {
        None
    }
}

/// See [`error_at`].
pub fn error_of(errors: &Vec<Option<String>>, i: usize) -> (r: Option<String>)
    ensures
        strings::optional(r) == error_at(error_views(errors@), i as int),
{
    if i < errors.len() {
        match &errors[i] {
            Some(e) => Some(e.clone()),
            None => None,
        }
    } else {
        None
    }
}

/// A change that is written to the database before the memory follows it.
#[derive(Debug)]
pub enum Write {
    /// Remove the messages of a chat.
    ResetChat(i64),
    /// Add a guide.
    AddGuide(GuideRow),
    /// Remove a guide.
    DeleteGuide(i64),
    /// Set a setting.
    PutSetting(String, String),
    /// Remove a setting.
    DropSetting(String),
}

/// What a [`Write`] holds.
pub enum WriteView {
    ResetChat(i64),
    AddGuide(GuideRowView),
    DeleteGuide(i64),
    PutSetting(Seq<char>, Seq<char>),
    DropSetting(Seq<char>),
}

impl View for Write {
    type V = WriteView;

    open spec fn view(&self) -> WriteView {
        match self {
            Write::ResetChat(id) => WriteView::ResetChat(*id),
            Write::AddGuide(row) => WriteView::AddGuide(row@),
            Write::DeleteGuide(id) => WriteView::DeleteGuide(*id),
            Write::PutSetting(key, value) => WriteView::PutSetting(key@, value@),
            Write::DropSetting(key) => WriteView::DropSetting(key@),
        }
    }
}

/// The views of a list of writes.
pub open spec fn write_views(v: Seq<Write>) -> Seq<WriteView> {
    v.map_values(|w: Write| w@)
}

impl WriteView {
    /// The memory after the write.
    pub open spec fn applied(self, m: MemoryView) -> MemoryView {
        match self {
            WriteView::ResetChat(id) => MemoryView {
                chats: ChatsView {
                    messages: chats::without_chat(m.chats.messages, id),
                    ..m.chats
                },
                ..m
            },
            WriteView::AddGuide(row) => MemoryView {
                guides: GuidesView { rows: m.guides.rows.push(row), last_id: row.guide_id },
                ..m
            },
            WriteView::DeleteGuide(id) => match db::guides::by_id(m.guides.rows, id) {
                Some(i) => MemoryView {
                    guides: GuidesView { rows: m.guides.rows.remove(i), ..m.guides },
                    ..m
                },
                None => m,
            },
            WriteView::PutSetting(key, value) => MemoryView {
                settings: m.settings.insert(key, value),
                ..m
            },
            WriteView::DropSetting(key) => MemoryView { settings: m.settings.remove(key), ..m },
        }
    }
}

/// The memory after the writes that ended without an error.
pub open spec fn all_applied(
    m: MemoryView,
    writes: Seq<WriteView>,
    errors: Seq<Option<Seq<char>>>,
) -> MemoryView
    decreases writes.len(),
{
    if writes.len() == 0 {
        m
    } else {
        let before = all_applied(m, writes.drop_last(), errors);
        if error_at(errors, writes.len() - 1) is None {
            writes.last().applied(before)
        } else {
            before
        }
    }
}

/// The write of a new guide, unless it is refused.
pub open spec fn guide_writes(
    m: MemoryView,
    title: Seq<char>,
    added_by: i64,
    content: Seq<char>,
    now: i64,
) -> Seq<WriteView> {
    if m.guides.refusal(title, content) is None {
        seq![WriteView::AddGuide(m.guides.new_row(title, added_by, content, now))]
    } else {
        Seq::empty()
    }
}

/// The write of a setting, if the value is accepted.
pub open spec fn setting_writes(
    s: AppStateView,
    user_id: i64,
    key: Seq<char>,
    text: Seq<char>,
    most: int,
    address: bool,
) -> Seq<WriteView> {
    if settings::accepted(s, user_id, text, most, address) {
        seq![WriteView::PutSetting(key, strings::trim(text))]
    } else {
        Seq::empty()
    }
}

/// The removals of the settings that a query in lower case names.
pub open spec fn reset_writes(query: Seq<char>) -> Seq<WriteView> {
    if query.len() == 0 {
        Seq::empty()
    } else if settings::means_all(query) {
        seq![
            WriteView::DropSetting(SETTING_MODEL@),
            WriteView::DropSetting(SETTING_BASE_URL@),
            WriteView::DropSetting(SETTING_API_KEY@),
            WriteView::DropSetting(SETTING_SYSTEM_PROMPT@),
        ]
    } else {
        match settings::named_setting(query) {
            Some(key) => seq![WriteView::DropSetting(key)],
            None => Seq::empty(),
        }
    }
}

/// What a command in a private chat writes.
pub open spec fn writes_for(
    s: AppStateView,
    msg: IncomingView,
    cmd: Command,
    now: i64,
) -> Seq<WriteView> {
    let m = s.mgr.store;
    let user_id = msg.user_id();
    let admin = access::open_to(s.cfg.admins, user_id);
    match cmd {
        Command::Reset => if admin {
            seq![WriteView::ResetChat(msg.chat_id)]
        } else {
            Seq::empty()
        },
        Command::GuideAdd(title) => match msg.reply {
            Some(r) => match r.body() {
                Some(content) => if admin && strings::trim(title@).len() > 0 {
                    guide_writes(m, strings::trim(title@), user_id, content, now)
                } else {
                    Seq::empty()
                },
                None => Seq::empty(),
            },
            None => Seq::empty(),
        },
        Command::GuideDel(query) => match db::guides::named(
            m.guides.rows,
            strings::trim(query@),
        ) {
            Some(i) => if admin {
                seq![WriteView::DeleteGuide(m.guides.rows[i].guide_id)]
            } else {
                Seq::empty()
            },
            None => Seq::empty(),
        },
        Command::SetModel(v) => setting_writes(s, user_id, SETTING_MODEL@, v@, 256, false),
        Command::SetApi(v) => setting_writes(s, user_id, SETTING_BASE_URL@, v@, 512, true),
        Command::SetKey(v) => setting_writes(s, user_id, SETTING_API_KEY@, v@, 512, false),
        Command::SetPrompt(v) | Command::SetSystemPrompt(v) => setting_writes(
            s,
            user_id,
            SETTING_SYSTEM_PROMPT@,
            v@,
            4000,
            false,
        ),
        Command::ResetSetting(q) => if admin {
            reset_writes(strings::lowercase(strings::trim(q@)))
        } else {
            Seq::empty()
        },
        _ => Seq::empty(),
    }
}

/// A list of at most one write.
fn at_most_one(w: Option<Write>) -> (r: Vec<Write>)
    ensures
        write_views(r@) == (match w {
            Some(w) => seq![w@],
            None => Seq::empty(),
        }),
{
    let mut out: Vec<Write> = Vec::new();
    match w {
        Some(w) => {
            out.push(w);
        },
        None => {},
    }
    assert(write_views(out@) =~= match w {
        Some(w) => seq![w@],
        None => Seq::empty(),
    });
    out
}

/// See [`setting_writes`].
fn setting_write(
    state: &AppState,
    user_id: i64,
    key: &str,
    text: &str,
    most: usize,
    address: bool,
) -> (r: Vec<Write>)
    ensures
        write_views(r@) == setting_writes(state@, user_id, key@, text@, most as int, address),
{
    if settings::is_accepted(state, user_id, text, most, address) {
        at_most_one(Some(Write::PutSetting(key.to_owned(), strings::trimmed(text))))
    } else {
        at_most_one(None)
    }
}

/// See [`guide_writes`].
fn guide_write(state: &AppState, title: &str, added_by: i64, content: &str, now: i64) -> (r: Vec<
    Write,
>)
    ensures
        write_views(r@) == guide_writes(state@.mgr.store, title@, added_by, content@, now),
{
    match state.mgr.store().plan_guide(title, added_by, content, now) {
        Some(row) => at_most_one(Some(Write::AddGuide(row))),
        None => at_most_one(None),
    }
}

/// See [`reset_writes`].
pub fn reset_write(query: &str) -> (r: Vec<Write>)
    ensures
        write_views(r@) == reset_writes(query@),
{
    if query.is_empty() {
        return at_most_one(None);
    }
    if strings::str_eq(query, "all") || strings::str_eq(query, "всё") || strings::str_eq(
        query,
        "все",
    ) {
        let mut out: Vec<Write> = Vec::new();
        out.push(Write::DropSetting(SETTING_MODEL.to_owned()));
        out.push(Write::DropSetting(SETTING_BASE_URL.to_owned()));
        out.push(Write::DropSetting(SETTING_API_KEY.to_owned()));
        out.push(Write::DropSetting(SETTING_SYSTEM_PROMPT.to_owned()));
        assert(write_views(out@) =~= reset_writes(query@));
        return out;
    }
    match settings::setting_named(query) {
        Some(key) => at_most_one(Some(Write::DropSetting(key.to_owned()))),
        None => at_most_one(None),
    }
}

/// What a command writes: see [`writes_for`]; nothing outside of private chats
/// and where the bot does not work. The answer follows once the writes have
/// ended.
pub fn command_writes(state: &AppState, msg: &Incoming, cmd: &Command, now: i64) -> (r: Vec<Write>)
    ensures
        write_views(r@) == (if access::is_open(state@.cfg, msg@) && msg.private {
            writes_for(state@, msg@, *cmd, now)
        } else {
            Seq::empty()
        }),
{
    if !access::is_allowed(&state.cfg, msg) || !msg.private {
        return at_most_one(None);
    }
    let user_id: i64 = msg.user_id();
    let admin: bool = access::is_admin(state, user_id);
    match cmd {
        Command::Reset => if admin {
            at_most_one(Some(Write::ResetChat(msg.chat_id)))
        } else {
            at_most_one(None)
        },
        Command::GuideAdd(title) => {
            let name = strings::trimmed(title.as_str());
            match &msg.reply {
                Some(r) => match r.body() {
                    Some(content) => if admin && !name.as_str().is_empty() {
                        guide_write(state, name.as_str(), user_id, content, now)
                    } else {
                        at_most_one(None)
                    },
                    None => at_most_one(None),
                },
                None => at_most_one(None),
            }
        },
        Command::GuideDel(query) => {
            match state.mgr.find_guide(strings::trimmed(query.as_str()).as_str()) {
                Some(id) => if admin {
                    at_most_one(Some(Write::DeleteGuide(id)))
                } else {
                    at_most_one(None)
                },
                None => at_most_one(None),
            }
        },
        Command::SetModel(v) => setting_write(
            state,
            user_id,
            SETTING_MODEL,
            v.as_str(),
            256,
            false,
        ),
        Command::SetApi(v) => setting_write(
            state,
            user_id,
            SETTING_BASE_URL,
            v.as_str(),
            512,
            true,
        ),
        Command::SetKey(v) => setting_write(
            state,
            user_id,
            SETTING_API_KEY,
            v.as_str(),
            512,
            false,
        ),
        Command::SetPrompt(v) | Command::SetSystemPrompt(v) => setting_write(
            state,
            user_id,
            SETTING_SYSTEM_PROMPT,
            v.as_str(),
            4000,
            false,
        ),
        Command::ResetSetting(q) => if admin {
            let lower = strings::trimmed(q.as_str()).as_str().to_lowercase();
            reset_write(lower.as_str())
        } else {
            at_most_one(None)
        },
        _ => at_most_one(None),
    }
}

/// What saving a file as a guide writes.
pub open spec fn document_writes_for(
    s: AppStateView,
    msg: IncomingView,
    d: AttachmentView,
    content: Seq<char>,
    now: i64,
) -> Seq<WriteView> {
    guide_writes(
        s.mgr.store,
        guides::document_title(msg.caption, d.file_name),
        msg.user_id(),
        content,
        now,
    )
}

/// What saving a file as a guide writes: see [`document_writes_for`].
pub fn document_writes(
    state: &AppState,
    msg: &Incoming,
    d: &Attachment,
    content: &str,
    now: i64,
) -> (r: Vec<Write>)
    ensures
        write_views(r@) == document_writes_for(state@, msg@, d@, content@, now),
{
    let title = guides::title_of_document(&msg.caption, &d.file_name);
    guide_write(state, title.as_str(), msg.user_id(), content, now)
}

/// A single write leaves its own trace, and none if it ended with an error.
proof fn lemma_single(m: MemoryView, w: WriteView, errors: Seq<Option<Seq<char>>>)
    ensures
        all_applied(m, seq![w], errors) == (if error_at(errors, 0) is None {
            w.applied(m)
        } else {
            m
        }),
        all_applied(m, Seq::empty(), errors) == m,
{
    reveal_with_fuel(all_applied, 2);
    assert(seq![w].drop_last() =~= Seq::<WriteView>::empty());
}

/// The memory follows what was written: after a command it holds what it held,
/// changed by just those writes of the command that ended without an error.
pub proof fn law_memory_follows_writes(
    s: AppStateView,
    msg: IncomingView,
    cmd: Command,
    errors: Seq<Option<Seq<char>>>,
    now: i64,
)
    ensures
        commands::after_command(s, msg, cmd, errors, now) == all_applied(
            s.mgr.store,
            writes_for(s, msg, cmd, now),
            errors,
        ),
{
    let m = s.mgr.store;
    let writes = writes_for(s, msg, cmd, now);
    if writes.len() <= 1 {
        if writes.len() == 1 {
            assert(writes =~= seq![writes[0]]);
            lemma_single(m, writes[0], errors);
        } else {
            assert(writes =~= Seq::empty());
        }
    } else {
        reveal_with_fuel(all_applied, 5);
        let a = writes.drop_last();
        let b = a.drop_last();
        let c = b.drop_last();
        assert(c.drop_last() =~= Seq::<WriteView>::empty());
    }
}

/// Saving a file leaves in the memory what was written of it.
pub proof fn law_document_follows_writes(
    s: AppStateView,
    msg: IncomingView,
    d: AttachmentView,
    content: Seq<char>,
    errors: Seq<Option<Seq<char>>>,
    now: i64,
)
    ensures
        guides::document_saved(s, msg, d, content, error_at(errors, 0), now).0 == all_applied(
            s.mgr.store,
            document_writes_for(s, msg, d, content, now),
            errors,
        ),
{
    let writes = document_writes_for(s, msg, d, content, now);
    if writes.len() == 1 {
        assert(writes =~= seq![writes[0]]);
        lemma_single(s.mgr.store, writes[0], errors);
    }
}

} // verus!
