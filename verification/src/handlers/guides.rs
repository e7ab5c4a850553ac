//! Guides: adding, removing and loading them from files.

use vstd::prelude::*;
use vstd::slice::slice_subrange;

use crate::db;
use crate::db::guides::GuideInfoView;
use crate::db::GuideInfo;
use crate::db::MemoryView;
use crate::handlers::access;
use crate::handlers::AppState;
use crate::handlers::AppStateView;
use crate::memory::MemoryManagerView;
use crate::strings;
use crate::telegram::Attachment;
use crate::telegram::AttachmentView;
use crate::telegram::Incoming;
use crate::telegram::IncomingView;

verus! {

/// The largest file that is loaded as a guide.
pub const MAX_GUIDE_FILE_BYTES: u64 = 5242880;

/// The longest title that a file gives to a guide.
pub const FILE_TITLE_CHARS: usize = 64;

/// The answer to everyone but administrators.
pub const GUIDES_LOCKED: &'static str = "🔒 Управлять гайдами может только администратор бота.";

/// The answer for a guide that was not named.
pub const GUIDE_TITLE_NEEDED: &'static str = "Укажи название: /guide_add Моё название — и ответь этой командой на сообщение с текстом гайда.";

/// The answer for a guide without a text.
pub const GUIDE_TEXT_NEEDED: &'static str = "Ответь этой командой на сообщение, текст которого нужно сохранить как гайд.";

/// The state with another memory.
pub open spec fn with_store(s: AppStateView, store: MemoryView) -> AppStateView {
    AppStateView { mgr: MemoryManagerView { store: store, ..s.mgr }, ..s }
}

/// One line of the list of guides.
pub open spec fn guide_line(g: GuideInfoView) -> Seq<char> {
    strings::decimal_int(g.id as int) + ". "@ + g.title + " (~"@ + strings::decimal(g.chars as nat)
        + " симв.)\n"@
}

/// The lines of the list of guides.
pub open spec fn guide_lines(guides: Seq<GuideInfoView>) -> Seq<char>
    decreases guides.len(),
{
    if guides.len() == 0 {
        Seq::empty()
    } else {
        guide_lines(guides.drop_last()) + guide_line(guides.last())
    }
}

/// The list of guides.
pub open spec fn guide_list(guides: Seq<GuideInfoView>) -> Seq<char> {
    if guides.len() == 0 {
        "📚 Гайдов пока нет.\n\nЗагрузить: пришли текстовый файл или ответь /guide_add <название> на сообщение с текстом."@
    } else {
        "📚 Гайдов: "@ + strings::decimal(guides.len()) + "\n\n"@ + guide_lines(guides)
            + "\nУдалить: /guide_del <название или id>"@
    }
}

/// See [`guide_list`].
pub fn format_guides(guides: &Vec<GuideInfo>) -> (r: String)
    ensures
        r@ == guide_list(db::guides::info_views(guides@)),
{
    let ghost all = db::guides::info_views(guides@);
    if guides.len() == 0 {
        return "📚 Гайдов пока нет.\n\nЗагрузить: пришли текстовый файл или ответь /guide_add <название> на сообщение с текстом.".to_owned();
    }
    let mut out = "📚 Гайдов: ".to_owned();
    out.append(strings::decimal_u64(guides.len() as u64).as_str());
    out.append("\n\n");
    let ghost head = out@;
    let mut i: usize = 0;
    assert(all.take(0) =~= Seq::<GuideInfoView>::empty());
    assert(head + guide_lines(all.take(0)) =~= head);
    while i < guides.len()
        invariant
            i <= guides@.len(),
            all == db::guides::info_views(guides@),
            out@ == head + guide_lines(all.take(i as int)),
        decreases guides@.len() - i,
    {
        proof {
            assert(all.take(i + 1).drop_last() =~= all.take(i as int));
            assert(all.take(i + 1).last() == guides@[i as int]@);
        }
        let g = &guides[i];
        out.append(strings::decimal_i64(g.id).as_str());
        out.append(". ");
        out.append(g.title.as_str());
        out.append(" (~");
        out.append(strings::decimal_u64(g.chars as u64).as_str());
        out.append(" симв.)\n");
        assert(out@ =~= head + guide_lines(all.take(i + 1)));
        i += 1;
    }
    assert(all.take(all.len() as int) =~= all);
    out.append("\nУдалить: /guide_del <название или id>");
    out
}

/// The answer after a guide has been saved.
pub open spec fn saved_text(title: Seq<char>, chunks: nat) -> Seq<char> {
    "📚 Гайд «"@ + title + "» сохранён ("@ + strings::decimal(chunks) + " фрагментов)."@
}

/// What saving a guide does once its row has been written, or could not be: the
/// memory after it and the answer.
pub open spec fn saved(
    m: MemoryView,
    title: Seq<char>,
    added_by: i64,
    content: Seq<char>,
    error: Option<Seq<char>>,
    now: i64,
) -> (MemoryView, Seq<char>) {
    match m.guides.refusal(title, content) {
        None => match error {
            Some(e) => (m, "⚠️ ошибка базы данных: "@ + e),
            None => (
                m.with_guide(title, added_by, content, now),
                saved_text(title, m.guides.new_row(title, added_by, content, now).chunks.len()),
            ),
        },
        Some(reason) => (m, "⚠️ "@ + reason.message()),
    }
}

/// Saves a guide and tells what came of it: see [`saved`].
pub fn save_guide(
    state: &mut AppState,
    title: &str,
    added_by: i64,
    content: &str,
    error: &Option<String>,
    now: i64,
) -> (r: String)
    requires
        old(state).mgr.wf(),
    ensures
        final(state).mgr.wf(),
        ({
            let (store, text) = saved(
                old(state)@.mgr.store,
                title@,
                added_by,
                content@,
                strings::optional(*error),
                now,
            );
            &&& final(state)@ == with_store(old(state)@, store)
            &&& r@ == text
        }),
{
    match error {
        Some(e) => {
            if state.mgr.store().plan_guide(title, added_by, content, now).is_some() {
                let mut out = "⚠️ ошибка базы данных: ".to_owned();
                out.append(e.as_str());
                return out;
            }
        },
        None => {},
    }
    match state.mgr.add_guide(title, added_by, content, now) {
        Ok(chunks) => {
            let mut out = "📚 Гайд «".to_owned();
            out.append(title);
            out.append("» сохранён (");
            out.append(strings::decimal_u64(chunks as u64).as_str());
            out.append(" фрагментов).");
            out
        },
        Err(e) => {
            let mut out = "⚠️ ".to_owned();
            out.append(e.as_str());
            out
        },
    }
}

/// What the command to add a guide does once its row has been written, or could
/// not be: the memory after it and the answer.
pub open spec fn guide_added(
    s: AppStateView,
    msg: IncomingView,
    title: Seq<char>,
    error: Option<Seq<char>>,
    now: i64,
) -> (MemoryView, Seq<char>) {
    let m = s.mgr.store;
    let name = strings::trim(title);
    if !access::open_to(s.cfg.admins, msg.user_id()) {
        (m, GUIDES_LOCKED@)
    } else if name.len() == 0 {
        (m, GUIDE_TITLE_NEEDED@)
    } else {
        let content = match msg.reply {
            Some(r) => r.body(),
            None => None,
        };
        match content {
            Some(c) => saved(m, name, msg.user_id(), c, error, now),
            None => (m, GUIDE_TEXT_NEEDED@),
        }
    }
}

/// Adds the message that is replied to as a guide.
pub fn handle_guide_add(
    state: &mut AppState,
    msg: &Incoming,
    title: &str,
    error: &Option<String>,
    now: i64,
) -> (r: String)
    requires
        old(state).mgr.wf(),
    ensures
        final(state).mgr.wf(),
        ({
            let (store, text) = guide_added(
                old(state)@,
                msg@,
                title@,
                strings::optional(*error),
                now,
            );
            &&& final(state)@ == with_store(old(state)@, store)
            &&& r@ == text
        }),
{
    let user_id: i64 = msg.user_id();
    if !access::is_admin(state, user_id) {
        return GUIDES_LOCKED.to_owned();
    }
    let name = strings::trimmed(title);
    if name.as_str().is_empty() {
        return GUIDE_TITLE_NEEDED.to_owned();
    }
    match &msg.reply {
        Some(r) => match r.body() {
            Some(content) => save_guide(state, name.as_str(), user_id, content, error, now),
            None => GUIDE_TEXT_NEEDED.to_owned(),
        },
        None => GUIDE_TEXT_NEEDED.to_owned(),
    }
}

/// What the command to remove a guide does once its row has been removed, or
/// could not be: the memory after it and the answer.
pub open spec fn guide_deleted(
    s: AppStateView,
    user_id: i64,
    query: Seq<char>,
    error: Option<Seq<char>>,
) -> (MemoryView, Seq<char>) {
    let m = s.mgr.store;
    let name = strings::trim(query);
    if !access::open_to(s.cfg.admins, user_id) {
        (m, GUIDES_LOCKED@)
    } else if name.len() == 0 {
        (m, "Укажи гайд: /guide_del <название или id>. Список: /guides"@)
    } else {
        match db::guides::named(m.guides.rows, name) {
            Some(i) => match db::guides::by_id(m.guides.rows, m.guides.rows[i].guide_id) {
                Some(k) => if error is Some {
                    (m, "Гайд не найден. Список: /guides"@)
                } else {
                    (
                        MemoryView {
                            guides: db::GuidesView { rows: m.guides.rows.remove(k), ..m.guides },
                            ..m
                        },
                        "🗑 Гайд удалён."@,
                    )
                },
                None => (m, "Гайд не найден. Список: /guides"@),
            },
            None => (m, "Гайд не найден. Список: /guides"@),
        }
    }
}

/// Removes a guide.
pub fn handle_guide_del(
    state: &mut AppState,
    user_id: i64,
    query: &str,
    error: &Option<String>,
) -> (r: String)
    requires
        old(state).mgr.wf(),
    ensures
        final(state).mgr.wf(),
        ({
            let (store, text) = guide_deleted(
                old(state)@,
                user_id,
                query@,
                strings::optional(*error),
            );
            &&& final(state)@ == with_store(old(state)@, store)
            &&& r@ == text
        }),
{
    if !access::is_admin(state, user_id) {
        return GUIDES_LOCKED.to_owned();
    }
    let name = strings::trimmed(query);
    if name.as_str().is_empty() {
        return "Укажи гайд: /guide_del <название или id>. Список: /guides".to_owned();
    }
    match state.mgr.find_guide(name.as_str()) {
        Some(id) => if error.is_none() && state.mgr.delete_guide(id) {
            "🗑 Гайд удалён.".to_owned()
        } else {
            "Гайд не найден. Список: /guides".to_owned()
        },
        None => "Гайд не найден. Список: /guides".to_owned(),
    }
}

/// The place behind the last dot of a name.
pub open spec fn behind_dot(name: Seq<char>) -> Option<int>
    decreases name.len(),
{
    if name.len() == 0 {
        None
    } else if name.last() == '.' {
        Some(name.len() as int)
    } else {
        behind_dot(name.drop_last())
    }
}

/// See [`behind_dot`].
fn find_behind_dot(name: &[char]) -> (r: Option<usize>)
    ensures
        match r {
            Some(k) => 0 < k <= name@.len() && behind_dot(name@) == Some(k as int),
            None => behind_dot(name@) is None,
        },
{
    let mut i: usize = name.len();
    assert(name@.take(i as int) =~= name@);
    while i > 0
        invariant
            i <= name@.len(),
            behind_dot(name@) == behind_dot(name@.take(i as int)),
        decreases i,
    {
        assert(name@.take(i as int).last() == name@[i - 1]);
        assert(name@.take(i as int).drop_last() =~= name@.take(i - 1));
        if name[i - 1] == '.' {
            return Some(i);
        }
        i -= 1;
    }
    None
}

/// What stands behind the last dot of a name; the whole name if there is none.
pub open spec fn extension(name: Seq<char>) -> Seq<char> {
    match behind_dot(name) {
        Some(k) => name.skip(k),
        None => name,
    }
}

/// What stands before the last dot of a name; the whole name if there is none.
pub open spec fn stem(name: Seq<char>) -> Seq<char> {
    match behind_dot(name) {
        Some(k) => name.take(k - 1),
        None => name,
    }
}

/// An extension of text files.
pub open spec fn text_extension(e: Seq<char>) -> bool {
    e == "txt"@ || e == "md"@ || e == "markdown"@ || e == "csv"@ || e == "json"@ || e == "log"@ || e
        == "yaml"@ || e == "yml"@ || e == "toml"@ || e == "rst"@ || e == "xml"@ || e == "html"@ || e
        == "patch"@
}

/// See [`text_extension`].
pub fn is_text_extension(e: &str) -> (r: bool)
    ensures
        r == text_extension(e@),
{
    strings::str_eq(e, "txt") || strings::str_eq(e, "md") || strings::str_eq(e, "markdown")
        || strings::str_eq(e, "csv") || strings::str_eq(e, "json") || strings::str_eq(e, "log")
        || strings::str_eq(e, "yaml") || strings::str_eq(e, "yml") || strings::str_eq(e, "toml")
        || strings::str_eq(e, "rst") || strings::str_eq(e, "xml") || strings::str_eq(e, "html")
        || strings::str_eq(e, "patch")
}

/// A file of text, by its type or by its name.
pub open spec fn text_document(d: AttachmentView) -> bool {
    ||| match d.mime_type {
        Some(m) => "text/"@.is_prefix_of(m),
        None => false,
    }
    ||| match d.file_name {
        Some(n) => text_extension(strings::lowercase(extension(n))),
        None => false,
    }
}

/// See [`text_document`].
pub fn is_text_document(d: &Attachment) -> (r: bool)
    ensures
        r == text_document(d@),
{
    match &d.mime_type {
        Some(m) => {
            if strings::starts_with(m.as_str(), "text/") {
                return true;
            }
        },
        None => {},
    }
    match &d.file_name {
        Some(n) => {
            let cs = strings::chars_of(n.as_str());
            let from: usize = match find_behind_dot(cs.as_slice()) {
                Some(k) => k,
                None => 0,
            };
            let e = strings::string_of(slice_subrange(cs.as_slice(), from, cs.len()));
            assert(e@ =~= extension(n@));
            is_text_extension(e.as_str().to_lowercase().as_str())
        },
        None => false,
    }
}

/// What to do about a file.
#[derive(Debug)]
pub enum DocumentStep {
    /// Nothing.
    Ignore,
    /// Answer.
    Reply(String),
    /// Fetch the file and go on.
    Fetch,
}

/// What a [`DocumentStep`] holds.
pub enum DocumentStepView {
    Ignore,
    Reply(Seq<char>),
    Fetch,
}

impl View for DocumentStep {
    type V = DocumentStepView;

    open spec fn view(&self) -> DocumentStepView {
        match self {
            DocumentStep::Ignore => DocumentStepView::Ignore,
            DocumentStep::Reply(t) => DocumentStepView::Reply(t@),
            DocumentStep::Fetch => DocumentStepView::Fetch,
        }
    }
}

/// The answer to commands in groups.
pub open spec fn redirect_text(bot: Option<Seq<char>>) -> Seq<char> {
    match bot {
        Some(username) =>
            "ℹ️ Команды и настройки бота доступны только в личных сообщениях: @"@ + username,
        None => "ℹ️ Команды и настройки бота доступны только в личных сообщениях с ботом."@,
    }
}

/// See [`redirect_text`].
pub fn pm_redirect_message(bot_username: Option<&str>) -> (r: String)
    ensures
        r@ == redirect_text(
            match bot_username {
                Some(u) => Some(u@),
                None => None,
            },
        ),
{
    match bot_username {
        Some(username) => {
            let mut out =
                "ℹ️ Команды и настройки бота доступны только в личных сообщениях: @".to_owned();
            out.append(username);
            out
        },
        None =>
            "ℹ️ Команды и настройки бота доступны только в личных сообщениях с ботом.".to_owned(),
    }
}

/// An optional text as a slice of it.
pub(crate) fn optional_str(s: &Option<String>) -> (r: Option<&str>)
    ensures
        match r {
            Some(t) => strings::optional(*s) == Some(t@),
            None => strings::optional(*s) is None,
        },
{
    match s {
        Some(t) => Some(t.as_str()),
        None => None,
    }
}

/// What to do about a file that was sent.
pub open spec fn document_step(s: AppStateView, msg: IncomingView, d: AttachmentView) -> DocumentStepView {
    if msg.from is None {
        DocumentStepView::Ignore
    } else if !msg.private {
        DocumentStepView::Reply(redirect_text(s.bot_username))
    } else if !access::open_to(s.cfg.admins, msg.user_id()) {
        DocumentStepView::Reply("🔒 Загружать гайды может только администратор бота."@)
    } else if d.size > MAX_GUIDE_FILE_BYTES {
        DocumentStepView::Reply("⚠️ Файл слишком большой, лимит — 5 МБ."@)
    } else if !text_document(d) {
        DocumentStepView::Reply(
            "⚠️ Принимаю только текстовые файлы: .txt, .md, .csv, .json, .log, .yaml и похожие."@,
        )
    } else {
        DocumentStepView::Fetch
    }
}

/// Decides about a file that was sent: see [`document_step`].
pub fn handle_document(state: &AppState, msg: &Incoming, d: &Attachment) -> (r: DocumentStep)
    ensures
        r@ == document_step(state@, msg@, d@),
{
    match &msg.from {
        Some(_) => {},
        None => {
            return DocumentStep::Ignore;
        },
    }
    if !msg.private {
        return DocumentStep::Reply(pm_redirect_message(optional_str(&state.bot_username)));
    }
    if !access::is_admin(state, msg.user_id()) {
        return DocumentStep::Reply(
            "🔒 Загружать гайды может только администратор бота.".to_owned(),
        );
    }
    if d.size as u64 > MAX_GUIDE_FILE_BYTES {
        return DocumentStep::Reply("⚠️ Файл слишком большой, лимит — 5 МБ.".to_owned());
    }
    if !is_text_document(d) {
        return DocumentStep::Reply(
            "⚠️ Принимаю только текстовые файлы: .txt, .md, .csv, .json, .log, .yaml и похожие.".to_owned(),
        );
    }
    DocumentStep::Fetch
}

/// The address of a file.
pub open spec fn file_address(token: Seq<char>, path: Seq<char>) -> Seq<char> {
    "https://api.telegram.org/file/bot"@ + token + "/"@ + path
}

/// See [`file_address`].
pub fn file_url(token: &str, path: &str) -> (r: String)
    ensures
        r@ == file_address(token@, path@),
        r@ == "https://api.telegram.org/file/bot"@ + token@ + "/"@ + path@,
{
    let mut out = "https://api.telegram.org/file/bot".to_owned();
    out.append(token);
    out.append("/");
    out.append(path);
    out
}

/// The text of a file. Bytes that are no text are replaced.
pub fn download_text(bytes: &[u8]) -> (r: String)
    ensures
        r@ == strings::decoded(bytes@),
{
    strings::lossy_text(bytes)
}

/// The title that a caption gives: the start of its first line.
pub open spec fn caption_title(caption: Seq<char>) -> Seq<char> {
    strings::take_chars(
        strings::trim(strings::split_str(strings::trim(caption), seq!['\n'])[0]),
        FILE_TITLE_CHARS as int,
    )
}

/// The title that the name of a file gives: the start of what stands before
/// its extension, unless that is blank.
pub open spec fn name_title(file_name: Option<Seq<char>>) -> Seq<char> {
    match file_name {
        Some(n) => if strings::blank(stem(n)) {
            Seq::empty()
        } else {
            strings::take_chars(stem(n), FILE_TITLE_CHARS as int)
        },
        None => Seq::empty(),
    }
}

/// The title of a guide out of a file: by the caption, else by the name.
pub open spec fn document_title(caption: Option<Seq<char>>, file_name: Option<Seq<char>>) -> Seq<
    char,
> {
    let by_caption = caption_title(
        match caption {
            Some(c) => c,
            None => Seq::empty(),
        },
    );
    if by_caption.len() == 0 {
        name_title(file_name)
    } else {
        by_caption
    }
}

/// A text has a first piece.
proof fn lemma_first_piece(s: Seq<char>, p: Seq<char>)
    ensures
        strings::split_str(s, p).len() > 0,
    decreases s.len(),
{
    if s.len() > 0 {
        lemma_first_piece(s.drop_last(), p);
    }
}

/// See [`document_title`].
pub fn title_of_document(caption: &Option<String>, file_name: &Option<String>) -> (r: String)
    ensures
        r@ == document_title(strings::optional(*caption), strings::optional(*file_name)),
{
    let head = match caption {
        Some(c) => strings::trimmed(c.as_str()),
        None => {
            proof {
                reveal_strlit("");
                assert(""@ =~= Seq::<char>::empty());
            }
            strings::trimmed("")
        },
    };
    let cs = strings::chars_of(head.as_str());
    let feed: Vec<char> = vec!['\n'];
    assert(feed@ =~= seq!['\n']);
    let lines = strings::slice_split_str(cs.as_slice(), feed.as_slice());
    proof {
        lemma_first_piece(cs@, seq!['\n']);
        assert(strings::views(lines@)[0] == lines@[0]@);
    }
    let line = strings::trimmed(lines[0].as_str());
    let title = strings::first_chars(line.as_str(), FILE_TITLE_CHARS);
    if !title.as_str().is_empty() {
        return title;
    }
    match file_name {
        Some(n) => {
            let name = strings::chars_of(n.as_str());
            let to: usize = match find_behind_dot(name.as_slice()) {
                Some(k) => k - 1,
                None => name.len(),
            };
            let base = strings::string_of(slice_subrange(name.as_slice(), 0, to));
            assert(base@ =~= stem(n@));
            if strings::is_blank(base.as_str()) {
                let none = String::new();
                assert(none@ =~= Seq::<char>::empty());
                none
            } else {
                strings::first_chars(base.as_str(), FILE_TITLE_CHARS)
            }
        },
        None => {
            let none = String::new();
            assert(none@ =~= Seq::<char>::empty());
            none
        },
    }
}

/// What saving a file as a guide does once its row has been written, or could
/// not be: the memory after it and the answer.
pub open spec fn document_saved(
    s: AppStateView,
    msg: IncomingView,
    d: AttachmentView,
    content: Seq<char>,
    error: Option<Seq<char>>,
    now: i64,
) -> (MemoryView, Seq<char>) {
    let title = document_title(msg.caption, d.file_name);
    if strings::blank(title) {
        (
            s.mgr.store,
            "Укажи название гайда в подписи к файлу (первая строка) и пришли файл ещё раз."@,
        )
    } else {
        saved(s.mgr.store, title, msg.user_id(), content, error, now)
    }
}

/// Saves a file that was fetched as a guide: see [`document_saved`].
pub fn save_document(
    state: &mut AppState,
    msg: &Incoming,
    d: &Attachment,
    content: &str,
    error: &Option<String>,
    now: i64,
) -> (r: String)
    requires
        old(state).mgr.wf(),
    ensures
        final(state).mgr.wf(),
        ({
            let (store, text) = document_saved(
                old(state)@,
                msg@,
                d@,
                content@,
                strings::optional(*error),
                now,
            );
            &&& final(state)@ == with_store(old(state)@, store)
            &&& r@ == text
        }),
{
    let title = title_of_document(&msg.caption, &d.file_name);
    if strings::is_blank(title.as_str()) {
        return "Укажи название гайда в подписи к файлу (первая строка) и пришли файл ещё раз.".to_owned();
    }
    save_guide(state, title.as_str(), msg.user_id(), content, error, now)
}

/// Only administrators change guides: for everyone else the memory stays as it
/// is, and their files are not fetched.
pub proof fn law_guides_locked(
    s: AppStateView,
    msg: IncomingView,
    text: Seq<char>,
    d: AttachmentView,
    error: Option<Seq<char>>,
    now: i64,
)
    requires
        !access::open_to(s.cfg.admins, msg.user_id()),
    ensures
        guide_added(s, msg, text, error, now) == (s.mgr.store, GUIDES_LOCKED@),
        guide_deleted(s, msg.user_id(), text, error) == (s.mgr.store, GUIDES_LOCKED@),
        !(document_step(s, msg, d) is Fetch),
{
}

} // verus!
