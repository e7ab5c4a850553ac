//! Commands of the administrators.

use vstd::prelude::*;

use crate::commands;
use crate::commands::ParseError;
use crate::commands::ParseErrorView;
use crate::db;
use crate::db::chats;
use crate::db::MemoryView;
use crate::handlers::access;
use crate::handlers::guides;
use crate::handlers::settings;
use crate::handlers::writes;
use crate::handlers::AppState;
use crate::handlers::AppStateView;
use crate::memory::ChatSnapshot;
use crate::strings;
use crate::telegram::Incoming;
use crate::telegram::IncomingView;
use crate::text;

verus! {

/// The help for administrators.
pub const HELP_ADMIN_TEXT: &'static str = "Привет! Я KostubetAI — официальный ИИ-ассистент, созданный @slyqfs 🧠

В личных сообщениях доступны команды управления и загрузка гайдов.
Общение с нейросетью работает в группах/суперчатах (при упоминании бота или ответе на его сообщение).

Команды управления (только для администраторов):
/reset — очистить память о диалоге
/memory — статистика памяти и базы
/guides — список сохранённых гайдов
/guide_add <название> — добавить гайд (ответь этой командой на сообщение с текстом)
/guide_del <название или id> — удалить гайд

Настройки LLM API и промпта:
/settings — текущие настройки API, модели и промпта
/set_model <модель> — сменить модель (например gpt-4o-mini)
/set_api <base_url> — сменить адрес API (например https://api.openai.com/v1)
/set_key <ключ> — задать API-ключ
/set_prompt <текст> — задать системный промпт
/reset_setting <model|api|key|prompt|all> — сбросить настройку к значению из .env

Гайд можно также загрузить файлом: просто пришли текстовый документ (.txt, .md, .json, ...) с названием в подписи.";

/// The help for everyone else.
pub const HELP_USER_TEXT: &'static str = "Привет! Я KostubetAI — официальный ИИ-ассистент, созданный @slyqfs 🧠

В личных сообщениях я не веду диалог. Чтобы пообщаться со мной, добавь меня в группу или суперчат и задай вопрос через тег (@имя_бота) или ответь (reply) на моё сообщение!";

/// The answer to everyone but administrators.
pub const COMMAND_LOCKED: &'static str = "🔒 Эта команда доступна только администратору бота.";

/// A command.
#[derive(Debug)]
pub enum Command {
    Start,
    Help,
    Reset,
    Memory,
    Guides,
    GuideAdd(String),
    GuideDel(String),
    Settings,
    SetModel(String),
    SetApi(String),
    SetKey(String),
    SetPrompt(String),
    SetSystemPrompt(String),
    ResetSetting(String),
    Summary,
}

/// There is a command with this name.
pub open spec fn is_known(name: Seq<char>) -> bool {
    name == "/start"@
        || name == "/help"@
        || name == "/reset"@
        || name == "/memory"@
        || name == "/guides"@
        || name == "/guide_add"@
        || name == "/guide_del"@
        || name == "/settings"@
        || name == "/set_model"@
        || name == "/set_api"@
        || name == "/set_key"@
        || name == "/set_prompt"@
        || name == "/set_system_prompt"@
        || name == "/reset_setting"@
        || name == "/summary"@
}

impl Command {
    /// The command has this name and these arguments. Those of a command that
    /// takes none do not count.
    pub open spec fn stands_for(self, name: Seq<char>, args: Seq<char>) -> bool {
        match self {
            Command::Start => name == "/start"@,
            Command::Help => name == "/help"@,
            Command::Reset => name == "/reset"@,
            Command::Memory => name == "/memory"@,
            Command::Guides => name == "/guides"@,
            Command::GuideAdd(a) => name == "/guide_add"@ && a@ == args,
            Command::GuideDel(a) => name == "/guide_del"@ && a@ == args,
            Command::Settings => name == "/settings"@,
            Command::SetModel(a) => name == "/set_model"@ && a@ == args,
            Command::SetApi(a) => name == "/set_api"@ && a@ == args,
            Command::SetKey(a) => name == "/set_key"@ && a@ == args,
            Command::SetPrompt(a) => name == "/set_prompt"@ && a@ == args,
            Command::SetSystemPrompt(a) => name == "/set_system_prompt"@ && a@ == args,
            Command::ResetSetting(a) => name == "/reset_setting"@ && a@ == args,
            Command::Summary => name == "/summary"@,
        }
    }

    /// Reads a command to the bot.
    pub fn parse(text: &str, bot_name: &str) -> (r: Result<Command, ParseError>)
        ensures
            match (r, commands::parts(text@, bot_name@)) {
                (Ok(cmd), Ok((name, args))) => is_known(name) && cmd.stands_for(name, args),
                (Err(e), Ok((name, args))) => !is_known(name) && e@
                    == ParseErrorView::UnknownCommand(name),
                (Err(e), Err(reason)) => e@ == reason,
                (Ok(_), Err(_)) => false,
            },
    {
        let (name, args) = match commands::split_command(text, bot_name) {
            Ok(parts) => parts,
            Err(e) => {
                return Err(e);
            },
        };
        if strings::str_eq(name.as_str(), "/start") {
            Ok(Command::Start)
        } else if strings::str_eq(name.as_str(), "/help") {
            Ok(Command::Help)
        } else if strings::str_eq(name.as_str(), "/reset") {
            Ok(Command::Reset)
        } else if strings::str_eq(name.as_str(), "/memory") {
            Ok(Command::Memory)
        } else if strings::str_eq(name.as_str(), "/guides") {
            Ok(Command::Guides)
        } else if strings::str_eq(name.as_str(), "/guide_add") {
            Ok(Command::GuideAdd(args))
        } else if strings::str_eq(name.as_str(), "/guide_del") {
            Ok(Command::GuideDel(args))
        } else if strings::str_eq(name.as_str(), "/settings") {
            Ok(Command::Settings)
        } else if strings::str_eq(name.as_str(), "/set_model") {
            Ok(Command::SetModel(args))
        } else if strings::str_eq(name.as_str(), "/set_api") {
            Ok(Command::SetApi(args))
        } else if strings::str_eq(name.as_str(), "/set_key") {
            Ok(Command::SetKey(args))
        } else if strings::str_eq(name.as_str(), "/set_prompt") {
            Ok(Command::SetPrompt(args))
        } else if strings::str_eq(name.as_str(), "/set_system_prompt") {
            Ok(Command::SetSystemPrompt(args))
        } else if strings::str_eq(name.as_str(), "/reset_setting") {
            Ok(Command::ResetSetting(args))
        } else if strings::str_eq(name.as_str(), "/summary") {
            Ok(Command::Summary)
        } else {
            Err(ParseError::UnknownCommand(name))
        }
    }
}

/// The commands of the menu with their descriptions.
pub open spec fn menu() -> Seq<(Seq<char>, Seq<char>)> {
    seq![
        ("start"@, "приветствие и справка"@),
        ("help"@, "справка"@),
        ("reset"@, "очистить память чата (админ)"@),
        ("memory"@, "статистика памяти (админ)"@),
        ("guides"@, "список гайдов (админ)"@),
        ("guide_add"@, "добавить гайд ответом на сообщение (админ)"@),
        ("guide_del"@, "удалить гайд (админ)"@),
        ("settings"@, "настройки API, модели и промпта (админ)"@),
        ("set_model"@, "задать модель (админ)"@),
        ("set_api"@, "задать адрес API (админ)"@),
        ("set_key"@, "задать API-ключ (админ)"@),
        ("set_prompt"@, "задать системный промпт (админ)"@),
        ("reset_setting"@, "сбросить настройку (админ)"@),
    ]
}

/// Appends a command to a menu.
fn push_command(r: &mut Vec<(String, String)>, name: &str, description: &str)
    ensures
        pair_views(final(r)@) == pair_views(old(r)@).push((name@, description@)),
{
    let pair = (name.to_owned(), description.to_owned());
    r.push(pair);
    assert(pair_views(r@) =~= pair_views(old(r)@).push((name@, description@)));
}

/// The views of commands with their descriptions.
pub open spec fn pair_views(v: Seq<(String, String)>) -> Seq<(Seq<char>, Seq<char>)> {
    v.map_values(|p: (String, String)| (p.0@, p.1@))
}

/// The commands of the menu in private chats: see [`menu`].
pub fn bot_commands() -> (r: Vec<(String, String)>)
    ensures
        pair_views(r@) == menu(),
{
    let mut r: Vec<(String, String)> = Vec::new();
    assert(pair_views(r@) =~= Seq::<(Seq<char>, Seq<char>)>::empty());
    push_command(&mut r, "start", "приветствие и справка");
    push_command(&mut r, "help", "справка");
    push_command(&mut r, "reset", "очистить память чата (админ)");
    push_command(&mut r, "memory", "статистика памяти (админ)");
    push_command(&mut r, "guides", "список гайдов (админ)");
    push_command(&mut r, "guide_add", "добавить гайд ответом на сообщение (админ)");
    push_command(&mut r, "guide_del", "удалить гайд (админ)");
    push_command(&mut r, "settings", "настройки API, модели и промпта (админ)");
    push_command(&mut r, "set_model", "задать модель (админ)");
    push_command(&mut r, "set_api", "задать адрес API (админ)");
    push_command(&mut r, "set_key", "задать API-ключ (админ)");
    push_command(&mut r, "set_prompt", "задать системный промпт (админ)");
    push_command(&mut r, "reset_setting", "сбросить настройку (админ)");
    assert(pair_views(r@) =~= menu());
    r
}

/// What the report about the memory needs from outside: the size of the
/// database on disk and two shares in per cent as texts.
#[derive(Debug)]
pub struct Figures {
    pub disk_size: u64,
    pub percent_chat: String,
    pub percent_db: String,
}

/// The report about the memory of a chat and of all.
pub open spec fn memory_report(s: AppStateView, chat_id: i64, f: Figures) -> Seq<char> {
    let m = s.mgr.store;
    let messages = chats::chat_rows(m.chats.messages, chat_id).len() as i64;
    let tokens = (db::guides::counted(chats::chars_from(m.chats.messages, 0, chat_id)) + 2) / 3;
    let people = chats::participants(m.chats.messages, chat_id).len();
    "💬 Память чата: "@ + strings::decimal_int(messages as int) + " сообщений, ~"@
        + strings::decimal(tokens as nat) + " из "@ + strings::decimal(s.mgr.budget(people))
        + " токенов ("@ + f.percent_chat@ + "%)\n👥 Участников диалога: "@ + strings::decimal(people)
        + "\n💾 База всего: "@ + text::size_text(f.disk_size as nat) + " из "@ + text::size_text(
        s.mgr.cfg.memory_limit_bytes as nat,
    ) + " ("@ + f.percent_db@ + "%), сообщений: "@ + strings::decimal_int(
        (m.chats.messages.len() as i64) as int,
    ) + ", пользователей: "@ + strings::decimal_int((m.chats.users.len() as i64) as int)
        + ", гайдов: "@ + strings::decimal_int((m.guides.rows.len() as i64) as int)
        + "\n\nИстория хранится дословно, без искажающих суммаризаций."@
}

/// See [`memory_report`].
fn format_memory(state: &AppState, chat_id: i64, f: &Figures) -> (r: String)
    ensures
        r@ == memory_report(state@, chat_id, *f),
{
    let snap: ChatSnapshot = state.mgr.chat_snapshot(chat_id);
    let (total_messages, users, guides) = state.mgr.global_stats();
    let mut out = "💬 Память чата: ".to_owned();
    out.append(strings::decimal_i64(snap.message_count).as_str());
    out.append(" сообщений, ~");
    out.append(strings::decimal_u64(snap.est_tokens as u64).as_str());
    out.append(" из ");
    out.append(strings::decimal_u64(snap.budget as u64).as_str());
    out.append(" токенов (");
    out.append(f.percent_chat.as_str());
    out.append("%)\n👥 Участников диалога: ");
    out.append(strings::decimal_u64(snap.participants as u64).as_str());
    out.append("\n💾 База всего: ");
    out.append(text::fmt_bytes(f.disk_size).as_str());
    out.append(" из ");
    out.append(text::fmt_bytes(state.mgr.memory_limit_bytes()).as_str());
    out.append(" (");
    out.append(f.percent_db.as_str());
    out.append("%), сообщений: ");
    out.append(strings::decimal_i64(total_messages).as_str());
    out.append(", пользователей: ");
    out.append(strings::decimal_i64(users).as_str());
    out.append(", гайдов: ");
    out.append(strings::decimal_i64(guides).as_str());
    out.append("\n\nИстория хранится дословно, без искажающих суммаризаций.");
    out
}

/// The answer to the command for a summary.
pub open spec fn summary_text(admin: bool) -> Seq<char> {
    if admin {
        "🧠 Команда /summary не требуется — KostubetAI помнит историю сообщений дословно, без искажающих пересказов.\n\nСтатистика памяти: /memory"@
    } else {
        "🧠 Я помню контекст нашей беседы дословно. Просто продолжай диалог!"@
    }
}

/// See [`summary_text`].
pub fn handle_summary(state: &AppState, user_id: i64) -> (r: String)
    ensures
        r@ == summary_text(access::open_to(state@.cfg.admins, user_id)),
{
    if access::is_admin(state, user_id) {
        "🧠 Команда /summary не требуется — KostubetAI помнит историю сообщений дословно, без искажающих пересказов.\n\nСтатистика памяти: /memory".to_owned()
    } else {
        "🧠 Я помню контекст нашей беседы дословно. Просто продолжай диалог!".to_owned()
    }
}

/// The memory after a command whose writes have ended, with errors or without.
pub open spec fn after_command(
    s: AppStateView,
    msg: IncomingView,
    cmd: Command,
    errors: Seq<Option<Seq<char>>>,
    now: i64,
) -> MemoryView {
    let m = s.mgr.store;
    let error = writes::error_at(errors, 0);
    let user_id = msg.user_id();
    let admin = access::open_to(s.cfg.admins, user_id);
    match cmd {
        Command::Reset => if admin && error is None {
            MemoryView {
                chats: db::ChatsView {
                    messages: chats::without_chat(m.chats.messages, msg.chat_id),
                    ..m.chats
                },
                ..m
            }
        } else {
            m
        },
        Command::GuideAdd(title) => guides::guide_added(s, msg, title@, error, now).0,
        Command::GuideDel(query) => guides::guide_deleted(s, user_id, query@, error).0,
        Command::SetModel(v) => MemoryView {
            settings: settings::set_model(s, user_id, v@, error).0,
            ..m
        },
        Command::SetApi(v) => MemoryView {
            settings: settings::set_api(s, user_id, v@, error).0,
            ..m
        },
        Command::SetKey(v) => MemoryView {
            settings: settings::set_key(s, user_id, v@, error).0,
            ..m
        },
        Command::SetPrompt(v) => MemoryView {
            settings: settings::set_prompt(s, user_id, v@, error).0,
            ..m
        },
        Command::SetSystemPrompt(v) => MemoryView {
            settings: settings::set_prompt(s, user_id, v@, error).0,
            ..m
        },
        Command::ResetSetting(q) => MemoryView {
            settings: settings::reset_setting(s, user_id, q@, errors).0,
            ..m
        },
        _ => m,
    }
}

/// The answer to a command whose writes have ended, with errors or without.
pub open spec fn answer(
    s: AppStateView,
    msg: IncomingView,
    cmd: Command,
    f: Figures,
    errors: Seq<Option<Seq<char>>>,
    now: i64,
) -> Seq<char> {
    let error = writes::error_at(errors, 0);
    let user_id = msg.user_id();
    let admin = access::open_to(s.cfg.admins, user_id);
    match cmd {
        Command::Start | Command::Help => if admin {
            HELP_ADMIN_TEXT@
        } else {
            HELP_USER_TEXT@
        },
        Command::Reset => if !admin {
            COMMAND_LOCKED@
        } else if error is Some {
            "⚠️ Не удалось очистить память."@
        } else {
            "🧠 Готово: память чата очищена. Гайды сохранены — список: /guides"@
        },
        Command::Memory => if admin {
            memory_report(s, msg.chat_id, f)
        } else {
            COMMAND_LOCKED@
        },
        Command::Guides => if admin {
            guides::guide_list(
                s.mgr.store.guides.rows.map_values(
                    |g: db::guides::GuideRowView| db::guides::info(g),
                ),
            )
        } else {
            COMMAND_LOCKED@
        },
        Command::GuideAdd(title) => guides::guide_added(s, msg, title@, error, now).1,
        Command::GuideDel(query) => guides::guide_deleted(s, user_id, query@, error).1,
        Command::Settings => if admin {
            settings::settings_report(s.mgr.store.settings, s.mgr.cfg)
        } else {
            settings::SETTINGS_LOCKED@
        },
        Command::SetModel(v) => settings::set_model(s, user_id, v@, error).1,
        Command::SetApi(v) => settings::set_api(s, user_id, v@, error).1,
        Command::SetKey(v) => settings::set_key(s, user_id, v@, error).1,
        Command::SetPrompt(v) => settings::set_prompt(s, user_id, v@, error).1,
        Command::SetSystemPrompt(v) => settings::set_prompt(s, user_id, v@, error).1,
        Command::ResetSetting(q) => settings::reset_setting(s, user_id, q@, errors).1,
        Command::Summary => summary_text(admin),
    }
}

/// Carries out a command in a private chat once what it writes has been written,
/// or could not be, and gives the answer.
pub fn run_command(
    state: &mut AppState,
    msg: &Incoming,
    cmd: &Command,
    figures: &Figures,
    errors: &Vec<Option<String>>,
    now: i64,
) -> (r: String)
    requires
        old(state).mgr.wf(),
    ensures
        final(state).mgr.wf(),
        final(state)@ == guides::with_store(
            old(state)@,
            after_command(old(state)@, msg@, *cmd, writes::error_views(errors@), now),
        ),
        r@ == answer(old(state)@, msg@, *cmd, *figures, writes::error_views(errors@), now),
{
    let user_id: i64 = msg.user_id();
    let admin: bool = access::is_admin(state, user_id);
    let error = writes::error_of(errors, 0);
    match cmd {
        Command::Start | Command::Help => if admin {
            HELP_ADMIN_TEXT.to_owned()
        } else {
            HELP_USER_TEXT.to_owned()
        },
        Command::Reset => if !admin {
            COMMAND_LOCKED.to_owned()
        } else if error.is_some() {
            "⚠️ Не удалось очистить память.".to_owned()
        } else {
            state.mgr.reset_chat(msg.chat_id);
            "🧠 Готово: память чата очищена. Гайды сохранены — список: /guides".to_owned()
        },
        Command::Memory => if admin {
            format_memory(state, msg.chat_id, figures)
        } else {
            COMMAND_LOCKED.to_owned()
        },
        Command::Guides => if admin {
            let list = state.mgr.guides();
            guides::format_guides(&list)
        } else {
            COMMAND_LOCKED.to_owned()
        },
        Command::GuideAdd(title) => guides::handle_guide_add(
            state,
            msg,
            title.as_str(),
            &error,
            now,
        ),
        Command::GuideDel(query) => guides::handle_guide_del(
            state,
            user_id,
            query.as_str(),
            &error,
        ),
        Command::Settings => if admin {
            settings::format_settings(&state.mgr)
        } else {
            settings::SETTINGS_LOCKED.to_owned()
        },
        Command::SetModel(v) => settings::handle_set_model(state, user_id, v.as_str(), &error),
        Command::SetApi(v) => settings::handle_set_api(state, user_id, v.as_str(), &error),
        Command::SetKey(v) => settings::handle_set_key(state, user_id, v.as_str(), &error),
        Command::SetPrompt(v) | Command::SetSystemPrompt(v) => settings::handle_set_prompt(
            state,
            user_id,
            v.as_str(),
            &error,
        ),
        Command::ResetSetting(q) => settings::handle_reset_setting(
            state,
            user_id,
            q.as_str(),
            errors,
        ),
        Command::Summary => handle_summary(state, user_id),
    }
}

/// Handles a command once what it writes (see [`writes::command_writes`]) has
/// been written, or could not be: nothing where the bot does not work, a hint in
/// groups, and the command itself in private chats. `errors` holds for each
/// write the error that it ended with, if any. Gives the answer.
pub fn cmd_handler(
    state: &mut AppState,
    msg: &Incoming,
    cmd: &Command,
    figures: &Figures,
    errors: &Vec<Option<String>>,
    now: i64,
) -> (r: Option<String>)
    requires
        old(state).mgr.wf(),
    ensures
        final(state).mgr.wf(),
        if !access::is_open(old(state)@.cfg, msg@) {
            r is None && final(state)@ == old(state)@
        } else if !msg.private {
            &&& final(state)@ == old(state)@
            &&& r matches Some(text) && text@ == guides::redirect_text(old(state)@.bot_username)
        } else {
            &&& final(state)@ == guides::with_store(
                old(state)@,
                after_command(old(state)@, msg@, *cmd, writes::error_views(errors@), now),
            )
            &&& r matches Some(text) && text@ == answer(
                old(state)@,
                msg@,
                *cmd,
                *figures,
                writes::error_views(errors@),
                now,
            )
        },
{
    if !access::is_allowed(&state.cfg, msg) {
        return None;
    }
    if !msg.private {
        return Some(guides::pm_redirect_message(guides::optional_str(&state.bot_username)));
    }
    Some(run_command(state, msg, cmd, figures, errors, now))
}

/// The commands that there are.
pub open spec fn known_names() -> Seq<Seq<char>> {
    seq![
        "/start"@,
        "/help"@,
        "/reset"@,
        "/memory"@,
        "/guides"@,
        "/guide_add"@,
        "/guide_del"@,
        "/settings"@,
        "/set_model"@,
        "/set_api"@,
        "/set_key"@,
        "/set_prompt"@,
        "/set_system_prompt"@,
        "/reset_setting"@,
        "/summary"@,
    ]
}

/// The command that the `i`th of the names stands for, with these arguments.
pub open spec fn is_nth(cmd: Command, i: int, args: Seq<char>) -> bool {
    match cmd {
        Command::Start => i == 0,
        Command::Help => i == 1,
        Command::Reset => i == 2,
        Command::Memory => i == 3,
        Command::Guides => i == 4,
        Command::GuideAdd(a) => i == 5 && a@ == args,
        Command::GuideDel(a) => i == 6 && a@ == args,
        Command::Settings => i == 7,
        Command::SetModel(a) => i == 8 && a@ == args,
        Command::SetApi(a) => i == 9 && a@ == args,
        Command::SetKey(a) => i == 10 && a@ == args,
        Command::SetPrompt(a) => i == 11 && a@ == args,
        Command::SetSystemPrompt(a) => i == 12 && a@ == args,
        Command::ResetSetting(a) => i == 13 && a@ == args,
        Command::Summary => i == 14,
    }
}

/// Every name of a command is known, and stands for its own command with the
/// arguments that were given.
pub proof fn law_known_commands(cmd: Command, i: int, args: Seq<char>)
    requires
        0 <= i < 15,
    ensures
        is_known(known_names()[i]),
        cmd.stands_for(known_names()[i], args) <==> is_nth(cmd, i, args),
{
    reveal_strlit("/start");
    reveal_strlit("/help");
    reveal_strlit("/reset");
    reveal_strlit("/memory");
    reveal_strlit("/guides");
    reveal_strlit("/guide_add");
    reveal_strlit("/guide_del");
    reveal_strlit("/settings");
    reveal_strlit("/set_model");
    reveal_strlit("/set_api");
    reveal_strlit("/set_key");
    reveal_strlit("/set_prompt");
    reveal_strlit("/set_system_prompt");
    reveal_strlit("/reset_setting");
    reveal_strlit("/summary");
    let all = known_names();
    assert(all[0] == "/start"@ && all[1] == "/help"@ && all[2] == "/reset"@ && all[3] == "/memory"@
        && all[4] == "/guides"@ && all[5] == "/guide_add"@ && all[6] == "/guide_del"@ && all[7]
        == "/settings"@ && all[8] == "/set_model"@ && all[9] == "/set_api"@ && all[10]
        == "/set_key"@ && all[11] == "/set_prompt"@ && all[12] == "/set_system_prompt"@ && all[13]
        == "/reset_setting"@ && all[14] == "/summary"@);
    assert("/start"@[1] == 's');
    assert("/reset"@[1] == 'r');
    assert("/memory"@[1] == 'm');
    assert("/guides"@[1] == 'g');
    assert("/guide_add"@[7] == 'a');
    assert("/guide_del"@[7] == 'd');
    assert("/set_model"@[1] == 's');
    assert("/summary"@[2] == 'u');
    assert("/set_api"@[5] == 'a');
    assert("/set_key"@[5] == 'k');
}

/// Only administrators change anything: whatever command someone else gives,
/// the memory stays as it is.
pub proof fn law_only_admins_change(
    s: AppStateView,
    msg: IncomingView,
    cmd: Command,
    errors: Seq<Option<Seq<char>>>,
    now: i64,
)
    requires
        !access::open_to(s.cfg.admins, msg.user_id()),
    ensures
        after_command(s, msg, cmd, errors, now) == s.mgr.store,
{
}

/// The names in the menu are the known ones but for the two that are other words
/// or no longer of use, in the same order and without the slash.
pub proof fn law_menu()
    ensures
        menu().len() == 13,
        forall|i: int|
            0 <= i < 12 ==> known_names()[i] == seq!['/'] + (#[trigger] menu()[i]).0,
        known_names()[13] == seq!['/'] + menu()[12].0,
{
    reveal_strlit("/start");
    reveal_strlit("/help");
    reveal_strlit("/reset");
    reveal_strlit("/memory");
    reveal_strlit("/guides");
    reveal_strlit("/guide_add");
    reveal_strlit("/guide_del");
    reveal_strlit("/settings");
    reveal_strlit("/set_model");
    reveal_strlit("/set_api");
    reveal_strlit("/set_key");
    reveal_strlit("/set_prompt");
    reveal_strlit("/reset_setting");
    reveal_strlit("start");
    reveal_strlit("help");
    reveal_strlit("reset");
    reveal_strlit("memory");
    reveal_strlit("guides");
    reveal_strlit("guide_add");
    reveal_strlit("guide_del");
    reveal_strlit("settings");
    reveal_strlit("set_model");
    reveal_strlit("set_api");
    reveal_strlit("set_key");
    reveal_strlit("set_prompt");
    reveal_strlit("reset_setting");
    let s = seq!['/'];
    assert("/start"@ =~= s + "start"@);
    assert("/help"@ =~= s + "help"@);
    assert("/reset"@ =~= s + "reset"@);
    assert("/memory"@ =~= s + "memory"@);
    assert("/guides"@ =~= s + "guides"@);
    assert("/guide_add"@ =~= s + "guide_add"@);
    assert("/guide_del"@ =~= s + "guide_del"@);
    assert("/settings"@ =~= s + "settings"@);
    assert("/set_model"@ =~= s + "set_model"@);
    assert("/set_api"@ =~= s + "set_api"@);
    assert("/set_key"@ =~= s + "set_key"@);
    assert("/set_prompt"@ =~= s + "set_prompt"@);
    assert("/reset_setting"@ =~= s + "reset_setting"@);
    let m = menu();
    let all = known_names();
    assert(m[0].0 == "start"@ && m[1].0 == "help"@ && m[2].0 == "reset"@ && m[3].0 == "memory"@
        && m[4].0 == "guides"@ && m[5].0 == "guide_add"@ && m[6].0 == "guide_del"@ && m[7].0
        == "settings"@ && m[8].0 == "set_model"@ && m[9].0 == "set_api"@ && m[10].0 == "set_key"@
        && m[11].0 == "set_prompt"@ && m[12].0 == "reset_setting"@);
    assert(all[0] == "/start"@ && all[1] == "/help"@ && all[2] == "/reset"@ && all[3] == "/memory"@
        && all[4] == "/guides"@ && all[5] == "/guide_add"@ && all[6] == "/guide_del"@ && all[7]
        == "/settings"@ && all[8] == "/set_model"@ && all[9] == "/set_api"@ && all[10]
        == "/set_key"@ && all[11] == "/set_prompt"@ && all[13] == "/reset_setting"@);
}

} // verus!
