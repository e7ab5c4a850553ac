//! The tables of the database, and how those of older versions are brought up
//! to date.

use vstd::prelude::*;

use crate::strings;

verus! {

/// The statements that make the tables.
pub const SCHEMA: &'static str = "
CREATE TABLE IF NOT EXISTS users (
    user_id       INTEGER PRIMARY KEY,
    first_seen    INTEGER NOT NULL,
    last_activity INTEGER NOT NULL,
    display_name  TEXT    NOT NULL DEFAULT ''
);

CREATE TABLE IF NOT EXISTS messages (
    id         INTEGER PRIMARY KEY AUTOINCREMENT,
    user_id    INTEGER NOT NULL REFERENCES users(user_id) ON DELETE CASCADE,
    chat_id    INTEGER NOT NULL DEFAULT 0,
    role       TEXT    NOT NULL,
    content    TEXT    NOT NULL,
    created_at INTEGER NOT NULL
);
CREATE INDEX IF NOT EXISTS idx_messages_user ON messages(user_id, id);

CREATE TABLE IF NOT EXISTS guides (
    guide_id   INTEGER PRIMARY KEY AUTOINCREMENT,
    title      TEXT    NOT NULL UNIQUE COLLATE NOCASE,
    added_by   INTEGER NOT NULL,
    created_at INTEGER NOT NULL
);

CREATE TABLE IF NOT EXISTS guide_chunks (
    chunk_id    INTEGER PRIMARY KEY AUTOINCREMENT,
    guide_id    INTEGER NOT NULL REFERENCES guides(guide_id) ON DELETE CASCADE,
    chunk_index INTEGER NOT NULL,
    content     TEXT    NOT NULL
);
CREATE INDEX IF NOT EXISTS idx_chunks_guide ON guide_chunks(guide_id);

CREATE TABLE IF NOT EXISTS settings (
    key   TEXT PRIMARY KEY,
    value TEXT NOT NULL
);
";

/// The statement that adds the chat to the messages.
pub const ADD_CHAT: &'static str = "ALTER TABLE messages ADD COLUMN chat_id INTEGER NOT NULL DEFAULT 0";

/// The statement that adds the names to the users.
pub const ADD_NAME: &'static str = "ALTER TABLE users ADD COLUMN display_name TEXT NOT NULL DEFAULT ''";

/// The statement that makes the index of the messages by chat.
pub const ADD_INDEX: &'static str = "CREATE INDEX IF NOT EXISTS idx_messages_chat ON messages(chat_id, id)";

/// A table has the column.
fn column_exists(columns: &Vec<String>, column: &str) -> (r: bool)
    ensures
        r == strings::views(columns@).contains(column@),
{
    let ghost all = strings::views(columns@);
    let mut i: usize = 0;
    while i < columns.len()
        invariant
            i <= columns@.len(),
            all == strings::views(columns@),
            forall|k: int| 0 <= k < i ==> all[k] != column@,
        decreases columns@.len() - i,
    {
        assert(all[i as int] == columns@[i as int]@);
        if strings::str_eq(columns[i].as_str(), column) {
            return true;
        }
        i += 1;
    }
    false
}

/// Older tables get the columns that they lack, the chat of the messages and the
/// names of the users, and the index in any case, in this order.
pub proof fn law_migration(message_columns: Seq<Seq<char>>, user_columns: Seq<Seq<char>>)
    ensures
        ({
            let chat =
                "ALTER TABLE messages ADD COLUMN chat_id INTEGER NOT NULL DEFAULT 0"@;
            let name = "ALTER TABLE users ADD COLUMN display_name TEXT NOT NULL DEFAULT ''"@;
            let index = "CREATE INDEX IF NOT EXISTS idx_messages_chat ON messages(chat_id, id)"@;
            let has_chat = message_columns.contains("chat_id"@);
            let has_name = user_columns.contains("display_name"@);
            let r = migration(message_columns, user_columns);
            &&& has_chat && has_name ==> r == seq![index]
            &&& !has_chat && has_name ==> r == seq![chat, index]
            &&& has_chat && !has_name ==> r == seq![name, index]
            &&& !has_chat && !has_name ==> r == seq![chat, name, index]
        }),
{
}

/// The statements that bring tables with the given columns up to date.
pub open spec fn migration(
    message_columns: Seq<Seq<char>>,
    user_columns: Seq<Seq<char>>,
) -> Seq<Seq<char>> {
    (if message_columns.contains("chat_id"@) {
        Seq::empty()
    } else {
        seq![ADD_CHAT@]
    }) + (if user_columns.contains("display_name"@) {
        Seq::empty()
    } else {
        seq![ADD_NAME@]
    }) + seq![ADD_INDEX@]
}

/// See [`migration`].
pub fn migrate(message_columns: &Vec<String>, user_columns: &Vec<String>) -> (r: Vec<String>)
    ensures
        strings::views(r@) == migration(
            strings::views(message_columns@),
            strings::views(user_columns@),
        ),
{
    let mut out: Vec<String> = Vec::new();
    if !column_exists(message_columns, "chat_id") {
        out.push(ADD_CHAT.to_owned());
    }
    if !column_exists(user_columns, "display_name") {
        out.push(ADD_NAME.to_owned());
    }
    out.push(ADD_INDEX.to_owned());
    assert(strings::views(out@) =~= migration(
        strings::views(message_columns@),
        strings::views(user_columns@),
    ));
    out
}

/// Tables that have been brought up to date get no column again.
pub proof fn law_migration_ends(message_columns: Seq<Seq<char>>, user_columns: Seq<Seq<char>>)
    requires
        message_columns.contains("chat_id"@),
        user_columns.contains("display_name"@),
    ensures
        migration(message_columns, user_columns) == seq![ADD_INDEX@],
{
    assert(migration(message_columns, user_columns) =~= seq![ADD_INDEX@]);
}

} // verus!
