use std::collections::HashSet;

use kostubet_ai::commands::ParseError;
use kostubet_ai::config::Config;
use kostubet_ai::config::Env;
use kostubet_ai::db::MemoryStore;
use kostubet_ai::handlers::access::chat_allowed;
use kostubet_ai::handlers::access::is_allowed;
use kostubet_ai::handlers::access::thread_allowed;
use kostubet_ai::handlers::bot_commands;
use kostubet_ai::handlers::cmd_handler;
use kostubet_ai::handlers::commands::Figures;
use kostubet_ai::handlers::commands::COMMAND_LOCKED;
use kostubet_ai::handlers::commands::HELP_ADMIN_TEXT;
use kostubet_ai::handlers::commands::HELP_USER_TEXT;
use kostubet_ai::handlers::guides::download_text;
use kostubet_ai::handlers::guides::file_url;
use kostubet_ai::handlers::guides::handle_document;
use kostubet_ai::handlers::guides::is_text_document;
use kostubet_ai::handlers::guides::pm_redirect_message;
use kostubet_ai::handlers::guides::save_document;
use kostubet_ai::handlers::guides::title_of_document;
use kostubet_ai::handlers::guides::DocumentStep;
use kostubet_ai::handlers::guides::GUIDES_LOCKED;
use kostubet_ai::handlers::guides::GUIDE_TEXT_NEEDED;
use kostubet_ai::handlers::guides::GUIDE_TITLE_NEEDED;
use kostubet_ai::handlers::is_admin;
use kostubet_ai::handlers::mask_key;
use kostubet_ai::handlers::messages::final_messages;
use kostubet_ai::handlers::messages::progress;
use kostubet_ai::handlers::messages::too_often_text;
use kostubet_ai::handlers::messages::MessageStep;
use kostubet_ai::handlers::on_message;
use kostubet_ai::handlers::replies::compose_question;
use kostubet_ai::handlers::replies::extract_display_name;
use kostubet_ai::handlers::replies::try_should_reply;
use kostubet_ai::handlers::settings::SETTINGS_LOCKED;
use kostubet_ai::handlers::should_reply;
use kostubet_ai::handlers::writes::command_writes;
use kostubet_ai::handlers::writes::document_writes;
use kostubet_ai::handlers::writes::error_of;
use kostubet_ai::handlers::writes::reset_write;
use kostubet_ai::handlers::writes::Write;
use kostubet_ai::handlers::AppState;
use kostubet_ai::handlers::Command;
use kostubet_ai::memory::MemoryConfig;
use kostubet_ai::memory::MemoryManager;
use kostubet_ai::telegram::Attachment;
use kostubet_ai::telegram::Incoming;
use kostubet_ai::telegram::Replied;
use kostubet_ai::telegram::Sender;

const ADMIN: u64 = 42;
const BOT: u64 = 1000;

fn ids(list: &[i64]) -> HashSet<i64> {
    list.iter().copied().collect()
}

fn config() -> Config {
    let vars = [("BOT_TOKEN", "t"), ("LLM_API_KEY", "k"), ("LLM_MODELS", "m"), ("ADMINS", "42")];
    let env = Env::new(vars.iter().map(|(k, v)| (k.to_string(), v.to_string())).collect());
    Config::from_env(&env).unwrap()
}

fn state() -> AppState {
    let cfg = MemoryConfig {
        user_memory_tokens: 5000,
        max_group_memory_tokens: 40000,
        memory_limit_bytes: 1024,
        rate_limit_requests: 1,
        rate_limit_window_secs: 60,
        llm_base_url: "https://api.example.com/v1".to_string(),
        llm_api_key: "sk-abcd-1234-xyz".to_string(),
        llm_model: "gpt".to_string(),
        default_system_prompt: "Ты бот.".to_string(),
    };
    AppState {
        mgr: MemoryManager::new(MemoryStore::new(), cfg),
        bot_id: BOT,
        bot_username: Some("Kostubet_Bot".to_string()),
        cfg: config(),
    }
}

fn sender(id: u64, name: &str) -> Sender {
    Sender {
        id,
        is_bot: false,
        first_name: name.to_string(),
        last_name: None,
        username: None,
    }
}

fn incoming(id: u64, private: bool, text: &str) -> Incoming {
    Incoming {
        chat_id: if private { id as i64 } else { -100 },
        private,
        forum: false,
        thread_id: None,
        from: Some(sender(id, "Алиса")),
        text: Some(text.to_string()),
        caption: None,
        document: None,
        reply: None,
        quote: None,
    }
}

fn replied(id: u64, text: &str) -> Replied {
    Replied {
        message_id: 5,
        from: Some(sender(id, "Борис")),
        text: Some(text.to_string()),
        caption: None,
        topic_created: false,
        via_bot: None,
        sender_chat: None,
    }
}

fn figures() -> Figures {
    Figures { disk_size: 512, percent_chat: "0.0".to_string(), percent_db: "50.0".to_string() }
}

fn run(state: &mut AppState, id: u64, cmd: Command) -> String {
    let msg = incoming(id, true, "/x");
    cmd_handler(state, &msg, &cmd, &figures(), &Vec::new(), 7).unwrap()
}

#[test]
fn command_parsing_and_redirects() {
    assert!(Command::parse("/start", "bot").is_ok());
    assert!(Command::parse("/settings", "bot").is_ok());
    assert!(Command::parse("/set_model gpt-4o", "bot").is_ok());
    assert!(Command::parse("/guide_add Название", "bot").is_ok());
    assert!(Command::parse("/guide_del 1", "bot").is_ok());

    assert_eq!(
        pm_redirect_message(Some("my_bot")),
        "ℹ️ Команды и настройки бота доступны только в личных сообщениях: @my_bot"
    );
    assert_eq!(
        pm_redirect_message(None),
        "ℹ️ Команды и настройки бота доступны только в личных сообщениях с ботом."
    );
}

#[test]
fn commands_are_read_with_their_arguments() {
    match Command::parse("/guide_add@BOT Мой  гайд", "bot") {
        Ok(Command::GuideAdd(title)) => assert_eq!(title, "Мой  гайд"),
        _ => panic!("no command"),
    }
    match Command::parse("/set_model", "bot") {
        Ok(Command::SetModel(value)) => assert_eq!(value, ""),
        _ => panic!("no command"),
    }
    assert!(matches!(Command::parse("/set_system_prompt x", "bot"), Ok(Command::SetSystemPrompt(_))));
    assert!(matches!(Command::parse("/reset anything", "bot"), Ok(Command::Reset)));
    match Command::parse("/start@other", "bot") {
        Err(ParseError::WrongBotName(name)) => assert_eq!(name, "other"),
        _ => panic!("no error"),
    }
    match Command::parse("/START now", "bot") {
        Err(ParseError::UnknownCommand(name)) => assert_eq!(name, "/START"),
        _ => panic!("no error"),
    }
    assert!(Command::parse("start", "bot").is_err());
}

#[test]
fn mask_key_hides_middle() {
    assert_eq!(mask_key("abc"), "••••");
    assert_eq!(mask_key("abcdef"), "••••");
    let m = mask_key("sk-abcd-1234-xyz");
    assert!(m.starts_with("sk-"));
    assert!(m.contains("скрыт"));
    assert!(!m.contains("abcd"));
}

#[test]
fn keys_that_differ_inside_look_the_same() {
    assert_eq!(mask_key("sk-abcd-1234-xyz"), mask_key("sk-zzzz-9999-xyz"));
    assert_eq!(mask_key("abcdefg"), "abc…fg (скрыт, 7 симв.)");
}

#[test]
fn everyone_administrates_without_a_list() {
    let mut s = state();
    assert!(is_admin(&s, 42));
    assert!(!is_admin(&s, 7));
    s.cfg.admins = ids(&[]);
    assert!(is_admin(&s, 7));
}

#[test]
fn places_where_the_bot_works() {
    let mut cfg = config();
    let mut msg = incoming(7, false, "x");
    assert!(is_allowed(&cfg, &msg));
    cfg.allowed_chats = ids(&[-200]);
    assert!(!chat_allowed(&cfg, &msg));
    assert!(!chat_allowed(&cfg, &incoming(7, true, "x")));
    assert!(chat_allowed(&cfg, &incoming(ADMIN, true, "x")));
    cfg.allowed_chats = ids(&[-100]);
    assert!(chat_allowed(&cfg, &msg));
    cfg.allowed_threads = ids(&[3]);
    assert!(thread_allowed(&cfg, &msg));
    msg.forum = true;
    assert!(!thread_allowed(&cfg, &msg));
    msg.thread_id = Some(3);
    assert!(thread_allowed(&cfg, &msg));
    msg.thread_id = Some(4);
    assert!(!is_allowed(&cfg, &msg));
}

#[test]
fn help_depends_on_who_asks() {
    let mut s = state();
    assert_eq!(run(&mut s, ADMIN, Command::Start), HELP_ADMIN_TEXT);
    assert_eq!(run(&mut s, 7, Command::Help), HELP_USER_TEXT);
    assert_eq!(run(&mut s, 7, Command::Memory), COMMAND_LOCKED);
    assert_eq!(run(&mut s, 7, Command::Guides), COMMAND_LOCKED);
    assert_eq!(run(&mut s, 7, Command::Settings), SETTINGS_LOCKED);
    assert!(run(&mut s, 7, Command::Summary).contains("Просто продолжай диалог"));
    assert!(run(&mut s, ADMIN, Command::Summary).contains("/memory"));
    assert_eq!(bot_commands().len(), 13);
    assert_eq!(bot_commands()[0].0, "start");
}

#[test]
fn commands_outside_of_private_chats_are_redirected() {
    let mut s = state();
    let msg = incoming(ADMIN, false, "/reset");
    assert_eq!(
        cmd_handler(&mut s, &msg, &Command::Reset, &figures(), &Vec::new(), 7),
        Some(pm_redirect_message(Some("Kostubet_Bot")))
    );
    s.cfg.allowed_chats = ids(&[-200]);
    assert_eq!(cmd_handler(&mut s, &msg, &Command::Reset, &figures(), &Vec::new(), 7), None);
}

#[test]
fn the_memory_is_reported() {
    let mut s = state();
    let prepared = s.mgr.reply_stream(ADMIN as i64, ADMIN as i64, "Алиса", "привет", 1);
    assert_eq!(prepared.budget, 5000);
    assert_eq!(
        run(&mut s, ADMIN, Command::Memory),
        "💬 Память чата: 1 сообщений, ~2 из 5000 токенов (0.0%)\n👥 Участников диалога: 1\n💾 База всего: 512.0 Б из 1.0 КБ (50.0%), сообщений: 1, пользователей: 1, гайдов: 0\n\nИстория хранится дословно, без искажающих суммаризаций."
    );
    assert_eq!(
        run(&mut s, ADMIN, Command::Reset),
        "🧠 Готово: память чата очищена. Гайды сохранены — список: /guides"
    );
    assert_eq!(s.mgr.chat_snapshot(ADMIN as i64).message_count, 0);
}

#[test]
fn guides_come_from_messages() {
    let mut s = state();
    let mut msg = incoming(ADMIN, true, "/guide_add");
    let add = |s: &mut AppState, msg: &Incoming, title: &str| {
        cmd_handler(s, msg, &Command::GuideAdd(title.to_string()), &figures(), &Vec::new(), 7).unwrap()
    };
    assert_eq!(add(&mut s, &msg, " "), GUIDE_TITLE_NEEDED);
    assert_eq!(add(&mut s, &msg, "rust"), GUIDE_TEXT_NEEDED);
    msg.reply = Some(replied(7, "cargo build"));
    assert_eq!(add(&mut s, &msg, " rust "), "📚 Гайд «rust» сохранён (1 фрагментов).");
    assert_eq!(add(&mut s, &msg, "RUST"), "⚠️ гайд с таким названием уже существует");
    msg.reply = Some(replied(7, "  "));
    assert_eq!(add(&mut s, &msg, "other"), "⚠️ текст гайда пуст");
    assert!(run(&mut s, ADMIN, Command::Guides).contains("1. rust (~11 симв.)"));
    assert_eq!(run(&mut s, 7, Command::GuideDel("rust".to_string())), GUIDES_LOCKED);
    assert_eq!(
        run(&mut s, ADMIN, Command::GuideDel("nothing".to_string())),
        "Гайд не найден. Список: /guides"
    );
    assert!(run(&mut s, ADMIN, Command::GuideDel(" ".to_string())).starts_with("Укажи гайд"));
    assert_eq!(run(&mut s, ADMIN, Command::GuideDel("ru".to_string())), "🗑 Гайд удалён.");
    assert!(run(&mut s, ADMIN, Command::Guides).starts_with("📚 Гайдов пока нет."));
}

#[test]
fn settings_are_changed_by_commands() {
    let mut s = state();
    let set = |s: &mut AppState, cmd: Command| run(s, ADMIN, cmd);
    assert_eq!(
        set(&mut s, Command::SetModel(" gpt-4o ".into())),
        "✅ Модель успешно изменена на «gpt-4o»."
    );
    assert!(set(&mut s, Command::SetModel("".into())).contains("Текущая модель: gpt-4o\n"));
    assert!(set(&mut s, Command::SetModel("я".repeat(257))).starts_with("⚠️"));
    assert_eq!(
        set(&mut s, Command::SetApi("ftp://x".into())),
        "⚠️ Адрес API должен начинаться с http:// или https://"
    );
    assert_eq!(
        set(&mut s, Command::SetApi("http://x".into())),
        "✅ Адрес API успешно изменён на «http://x»."
    );
    assert!(set(&mut s, Command::SetKey("".into())).contains("sk-…yz (скрыт, 16 симв.)"));
    assert_eq!(
        set(&mut s, Command::SetKey("abcdefg".into())),
        "✅ API-ключ успешно сохранён: abc…fg (скрыт, 7 симв.)"
    );
    assert!(set(&mut s, Command::SetPrompt("Будь краток.".into())).starts_with("✅"));
    assert!(set(&mut s, Command::SetSystemPrompt("Будь вежлив.".into())).starts_with("✅"));
    assert_eq!(s.mgr.effective_system_prompt(), "Будь вежлив.");
    let report = set(&mut s, Command::Settings);
    assert!(report.contains("Модель: gpt-4o\n  → ✏️ переопределено в БД"));
    assert!(report.contains("Дефолт из .env: модель «gpt», API «https://api.example.com/v1»"));

    assert_eq!(
        set(&mut s, Command::ResetSetting("МОДЕЛЬ".into())),
        "♻️ Настройка «модель» сброшена к значению из .env."
    );
    assert_eq!(
        set(&mut s, Command::ResetSetting("model".into())),
        "Настройка «модель» и так использует значение из .env."
    );
    assert_eq!(
        set(&mut s, Command::ResetSetting("nothing".into())),
        "⚠️ Неизвестная настройка. Доступно: model, api, key, prompt, all."
    );
    assert_eq!(
        set(&mut s, Command::ResetSetting(" All ".into())),
        "♻️ Все настройки сброшены к значениям по умолчанию из .env."
    );
    assert_eq!(
        set(&mut s, Command::ResetSetting("все".into())),
        "Настройки и так используют значения по умолчанию из .env."
    );
    assert!(set(&mut s, Command::ResetSetting("".into())).starts_with("Укажи, какую настройку"));
    assert_eq!(s.mgr.effective_settings().model, "gpt");
}

#[test]
fn others_change_no_settings() {
    let mut s = state();
    for cmd in [
        Command::SetModel("x".into()),
        Command::SetApi("http://x".into()),
        Command::SetKey("x".into()),
        Command::SetPrompt("x".into()),
        Command::ResetSetting("all".into()),
    ] {
        assert_eq!(run(&mut s, 7, cmd), SETTINGS_LOCKED);
    }
    assert_eq!(s.mgr.effective_settings().model, "gpt");
    assert!(s.mgr.settings_snapshot().overridden.is_empty());
}

#[test]
fn mentions_are_cut_off() {
    let s = state();
    let msg = incoming(7, false, "");
    let ask = |text: &str| should_reply(&msg, &s, text);
    assert_eq!(ask("@kostubet_bot как  дела?"), (true, "как дела?".to_string()));
    assert_eq!(ask("привет, @KOSTUBET_BOT, как дела?"), (true, "привет, , как дела?".to_string()));
    assert_eq!(ask("просто текст"), (false, "просто текст".to_string()));
    assert_eq!(ask("@kostubet_bot"), (true, String::new()));
    let private = incoming(7, true, "");
    assert_eq!(should_reply(&private, &s, "@kostubet_bot"), (false, String::new()));
    assert_eq!(try_should_reply(&msg, &s, "@kostubet_bot a"), Some((true, "a".to_string())));
}

#[test]
fn replies_to_the_bot_are_answered() {
    let s = state();
    let mut msg = incoming(7, false, "");
    msg.reply = Some(replied(BOT, "ответ"));
    assert_eq!(should_reply(&msg, &s, "почему?"), (true, "почему?".to_string()));
    msg.thread_id = Some(5);
    assert!(!should_reply(&msg, &s, "почему?").0);
    msg.thread_id = None;
    msg.reply = Some(replied(8, "сообщение"));
    assert!(!should_reply(&msg, &s, "почему?").0);
    let mut via = replied(8, "сообщение");
    via.via_bot = Some(BOT);
    msg.reply = Some(via);
    assert!(should_reply(&msg, &s, "почему?").0);
    let mut named = replied(8, "сообщение");
    named.from = Some(Sender {
        username: Some("KOSTUBET_bot".to_string()),
        ..sender(8, "Б")
    });
    msg.reply = Some(named);
    assert!(should_reply(&msg, &s, "почему?").0);
}

#[test]
fn a_tag_that_cannot_be_cut_off_is_told() {
    let mut s = state();
    s.bot_username = Some("İ".to_string());
    let msg = incoming(7, false, "@i\u{307}x");
    let step = on_message(&mut s, &msg, 0);
    assert!(matches!(step, MessageStep::Unreadable));
    assert_eq!(try_should_reply(&msg, &s, "@i\u{307}x"), None);
    assert!(matches!(try_should_reply(&incoming(7, true, ""), &s, "x"), Some((false, _))));
}

#[test]
fn names_of_users() {
    let mut u = sender(9, "Иван");
    u.last_name = Some("Петров".to_string());
    assert_eq!(extract_display_name(&u), "Иван Петров");
    let mut u = sender(9, " ");
    assert_eq!(extract_display_name(&u), "User9");
    u.username = Some("ivan".to_string());
    assert_eq!(extract_display_name(&u), "@ivan");
}

#[test]
fn questions_carry_their_context() {
    let mut msg = incoming(7, false, "x");
    assert_eq!(compose_question(&msg, BOT, String::new()), "Привет!");
    msg.reply = Some(replied(8, &"я".repeat(500)));
    assert_eq!(
        compose_question(&msg, BOT, "что это?".to_string()),
        format!("[В ответ на сообщение от Борис: \"{}\"]\nчто это?", "я".repeat(400))
    );
    msg.reply = Some(replied(BOT, "ответ"));
    assert_eq!(compose_question(&msg, BOT, "что это?".to_string()), "что это?");
    msg.quote = Some("кусок".to_string());
    assert_eq!(
        compose_question(&msg, BOT, "что это?".to_string()),
        "[Цитата: \"кусок\"]\nчто это?"
    );
    assert_eq!(compose_question(&msg, BOT, "кусок?".to_string()), "кусок?");
}

#[test]
fn messages_lead_to_steps() {
    let mut s = state();
    assert!(matches!(on_message(&mut s, &incoming(7, false, "болтовня"), 0), MessageStep::Ignore));
    assert!(matches!(on_message(&mut s, &incoming(7, true, "@kostubet_bot"), 0), MessageStep::Ignore));
    match on_message(&mut s, &incoming(7, false, "/start"), 0) {
        MessageStep::Send(t) => assert_eq!(t, pm_redirect_message(Some("Kostubet_Bot"))),
        _ => panic!("no hint"),
    }
    match on_message(&mut s, &incoming(7, false, "@kostubet_bot привет"), 0) {
        MessageStep::Ask { user_id, chat_id, display_name, question } => {
            assert_eq!((user_id, chat_id), (7, -100));
            assert_eq!(display_name, "Алиса");
            assert_eq!(question, "привет");
        }
        _ => panic!("no question"),
    }
    match on_message(&mut s, &incoming(7, false, "@kostubet_bot ещё"), 1) {
        MessageStep::TooOften(max, secs) => assert_eq!((max, secs), (1, 60)),
        _ => panic!("no limit"),
    }
    assert!(matches!(
        on_message(&mut s, &incoming(8, false, "@kostubet_bot привет"), 1),
        MessageStep::Ask { .. }
    ));
    let mut empty = incoming(7, false, "x");
    empty.text = None;
    assert!(matches!(on_message(&mut s, &empty, 2), MessageStep::Ignore));
}

#[test]
fn the_limit_is_explained() {
    assert_eq!(
        too_often_text(3, 30, ""),
        "⏳ Слишком частые запросы! Лимит — 3 сообщений за 30 сек. Подожди немного и попробуй снова."
    );
    assert!(too_often_text(3, 120, "").contains("за 2 мин. "));
    assert!(too_often_text(3, 90, "1.5").contains("за 1.5 мин. "));
}

#[test]
fn answers_are_shown_as_they_come() {
    assert_eq!(progress(" ", ""), None);
    assert_eq!(progress(" да ", "да"), None);
    assert_eq!(progress(" да ", ""), Some(("да".to_string(), "да ▌".to_string())));
    assert_eq!(final_messages(" \n"), None);
    assert_eq!(final_messages(" да "), Some(vec!["да".to_string()]));
    let long = final_messages(&"слово ".repeat(2000)).unwrap();
    assert!(long.len() > 1);
    assert!(long.iter().all(|c| c.len() <= 3900));
}

fn attachment(name: Option<&str>, mime: Option<&str>, size: u32) -> Attachment {
    Attachment {
        file_name: name.map(|n| n.to_string()),
        mime_type: mime.map(|m| m.to_string()),
        size,
    }
}

#[test]
fn files_of_text_become_guides() {
    let mut s = state();
    let mut msg = incoming(ADMIN, true, "x");
    msg.text = None;
    let d = attachment(Some("Мой гайд.TXT"), None, 100);
    assert!(matches!(handle_document(&s, &msg, &d), DocumentStep::Fetch));
    assert_eq!(save_document(&mut s, &msg, &d, "текст", &None, 1), "📚 Гайд «Мой гайд» сохранён (1 фрагментов).");
    msg.caption = Some("  Название\nостальное".to_string());
    assert_eq!(save_document(&mut s, &msg, &d, "текст", &None, 1), "📚 Гайд «Название» сохранён (1 фрагментов).");
    msg.caption = None;
    let nameless = attachment(None, Some("text/plain"), 100);
    assert!(save_document(&mut s, &msg, &nameless, "текст", &None, 1).starts_with("Укажи название гайда"));
    assert_eq!(title_of_document(&None, &Some("a.b.md".to_string())), "a.b");
    assert_eq!(title_of_document(&Some("я".repeat(100)), &None), "я".repeat(64));
}

#[test]
fn other_files_are_refused() {
    let s = state();
    let reply = |msg: &Incoming, d: &Attachment| match handle_document(&s, msg, d) {
        DocumentStep::Reply(t) => t,
        _ => panic!("no reply"),
    };
    let text = attachment(Some("a.txt"), None, 100);
    assert_eq!(
        reply(&incoming(7, true, ""), &text),
        "🔒 Загружать гайды может только администратор бота."
    );
    assert_eq!(
        reply(&incoming(ADMIN, false, ""), &text),
        pm_redirect_message(Some("Kostubet_Bot"))
    );
    assert_eq!(
        reply(&incoming(ADMIN, true, ""), &attachment(Some("a.txt"), None, 5 * 1024 * 1024 + 1)),
        "⚠️ Файл слишком большой, лимит — 5 МБ."
    );
    assert!(reply(&incoming(ADMIN, true, ""), &attachment(Some("a.png"), None, 1)).contains(".txt"));
    assert!(is_text_document(&attachment(None, Some("text/x-log"), 1)));
    assert!(!is_text_document(&attachment(None, Some("image/png"), 1)));
    let mut anonymous = incoming(ADMIN, true, "");
    anonymous.from = None;
    assert!(matches!(handle_document(&s, &anonymous, &text), DocumentStep::Ignore));
}

#[test]
fn files_are_fetched_and_decoded() {
    assert_eq!(file_url("T", "docs/a.txt"), "https://api.telegram.org/file/botT/docs/a.txt");
    assert_eq!(download_text("привет".as_bytes()), "привет");
    assert_eq!(download_text(&[b'a', 0xff, b'b']), "a\u{fffd}b");
}

fn fail(state: &mut AppState, msg: &Incoming, cmd: Command) -> String {
    let errors: Vec<Option<String>> =
        command_writes(state, msg, &cmd, 7).iter().map(|_| Some("disk".to_string())).collect();
    assert!(!errors.is_empty());
    cmd_handler(state, msg, &cmd, &figures(), &errors, 7).unwrap()
}

#[test]
fn a_failed_write_changes_nothing() {
    let mut s = state();
    let mut msg = incoming(ADMIN, true, "/x");
    s.mgr.reply_stream(ADMIN as i64, msg.chat_id, "Алиса", "привет", 1);
    assert_eq!(fail(&mut s, &msg, Command::Reset), "⚠️ Не удалось очистить память.");
    assert_eq!(s.mgr.chat_snapshot(msg.chat_id).message_count, 1);
    assert_eq!(
        fail(&mut s, &msg, Command::SetModel("m".into())),
        "⚠️ Не удалось сохранить модель: disk"
    );
    assert_eq!(
        fail(&mut s, &msg, Command::SetApi("http://x".into())),
        "⚠️ Не удалось сохранить адрес API: disk"
    );
    assert_eq!(
        fail(&mut s, &msg, Command::SetKey("k".into())),
        "⚠️ Не удалось сохранить API-ключ: disk"
    );
    assert_eq!(
        fail(&mut s, &msg, Command::SetPrompt("p".into())),
        "⚠️ Не удалось сохранить системный промпт: disk"
    );
    assert_eq!(s.mgr.effective_settings().model, "gpt");
    run(&mut s, ADMIN, Command::SetModel("m".into()));
    assert_eq!(
        fail(&mut s, &msg, Command::ResetSetting("model".into())),
        "⚠️ Не удалось сбросить: disk"
    );
    assert_eq!(
        fail(&mut s, &msg, Command::ResetSetting("all".into())),
        "Настройки и так используют значения по умолчанию из .env."
    );
    assert_eq!(s.mgr.effective_settings().model, "m");
    msg.reply = Some(replied(7, "cargo build"));
    assert_eq!(
        fail(&mut s, &msg, Command::GuideAdd("rust".into())),
        "⚠️ ошибка базы данных: disk"
    );
    assert_eq!(s.mgr.guides().len(), 0);
    cmd_handler(&mut s, &msg, &Command::GuideAdd("rust".into()), &figures(), &Vec::new(), 7);
    assert_eq!(
        fail(&mut s, &msg, Command::GuideDel("rust".into())),
        "Гайд не найден. Список: /guides"
    );
    assert_eq!(s.mgr.guides().len(), 1);
    let d = attachment(Some("b.txt"), None, 100);
    assert_eq!(
        save_document(&mut s, &msg, &d, "текст", &Some("disk".to_string()), 1),
        "⚠️ ошибка базы данных: disk"
    );
    assert_eq!(s.mgr.guides().len(), 1);
}

#[test]
fn settings_are_reset_as_far_as_the_writes_went() {
    let mut s = state();
    let msg = incoming(ADMIN, true, "/x");
    run(&mut s, ADMIN, Command::SetModel("m".into()));
    run(&mut s, ADMIN, Command::SetKey("k".into()));
    let errors = vec![Some("disk".to_string()), None, None, None];
    let answer =
        cmd_handler(&mut s, &msg, &Command::ResetSetting("all".into()), &figures(), &errors, 7);
    assert_eq!(
        answer.unwrap(),
        "♻️ Все настройки сброшены к значениям по умолчанию из .env."
    );
    assert_eq!(s.mgr.effective_settings().model, "m");
    assert_ne!(s.mgr.effective_settings().api_key, "k");
}

#[test]
fn commands_tell_what_they_write() {
    let mut s = state();
    let mut msg = incoming(ADMIN, true, "/x");
    match &command_writes(&s, &msg, &Command::Reset, 7)[..] {
        [Write::ResetChat(id)] => assert_eq!(*id, msg.chat_id),
        _ => panic!("no reset"),
    }
    match &command_writes(&s, &msg, &Command::SetApi(" http://x ".into()), 7)[..] {
        [Write::PutSetting(key, value)] => {
            assert_eq!(key, "llm_base_url");
            assert_eq!(value, "http://x");
        }
        _ => panic!("no setting"),
    }
    assert!(command_writes(&s, &msg, &Command::SetApi("x".into()), 7).is_empty());
    assert!(command_writes(&s, &msg, &Command::SetModel("я".repeat(257)), 7).is_empty());
    assert!(command_writes(&s, &msg, &Command::Help, 7).is_empty());
    msg.reply = Some(replied(7, "cargo build"));
    match &command_writes(&s, &msg, &Command::GuideAdd(" rust ".into()), 7)[..] {
        [Write::AddGuide(row)] => {
            assert_eq!(row.title, "rust");
            assert_eq!(row.guide_id, 1);
            assert_eq!(row.chunks, vec!["cargo build"]);
        }
        _ => panic!("no guide"),
    }
    cmd_handler(&mut s, &msg, &Command::GuideAdd("rust".into()), &figures(), &Vec::new(), 7);
    assert!(command_writes(&s, &msg, &Command::GuideAdd("RUST".into()), 7).is_empty());
    assert!(matches!(
        command_writes(&s, &msg, &Command::GuideDel("ru".into()), 7)[..],
        [Write::DeleteGuide(1)]
    ));
    assert!(command_writes(&s, &incoming(7, true, "/x"), &Command::Reset, 7).is_empty());
    assert!(command_writes(&s, &incoming(ADMIN, false, "/x"), &Command::Reset, 7).is_empty());
    assert_eq!(reset_write("all").len(), 4);
    assert_eq!(reset_write("ключ").len(), 1);
    assert!(reset_write("x").is_empty());
    let d = attachment(Some("b.txt"), None, 100);
    assert_eq!(document_writes(&s, &msg, &d, "текст", 1).len(), 1);
    assert!(document_writes(&s, &msg, &d, " ", 1).is_empty());
    assert_eq!(error_of(&vec![None, Some("e".to_string())], 1), Some("e".to_string()));
    assert_eq!(error_of(&vec![Some("e".to_string())], 1), None);
}
