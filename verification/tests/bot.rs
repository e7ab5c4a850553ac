use kostubet_ai::bot::handlers_admin;
use kostubet_ai::bot::handlers_admin::CallbackStep;
use kostubet_ai::bot::handlers_admin::Command;
use kostubet_ai::bot::handlers_admin::CommandStep;
use kostubet_ai::bot::handlers_chat;
use kostubet_ai::bot::handlers_chat::MessageStep;
use kostubet_ai::bot::router;
use kostubet_ai::bot::router::Route;
use kostubet_ai::bot::App;
use kostubet_ai::bot::RateLimiter;
use kostubet_ai::bot::PACE_NANOS;
use kostubet_ai::config::Config;
use kostubet_ai::config::Env;
use kostubet_ai::knowledge::loader::KnowledgeBase;
use kostubet_ai::knowledge::loader::KnowledgeCard;
use kostubet_ai::knowledge::matcher::Matcher;
use kostubet_ai::llm::client::LlmClient;
use kostubet_ai::llm::client::LlmError;
use kostubet_ai::llm::state::ModelState;
use kostubet_ai::storage::Role;
use kostubet_ai::storage::Store;
use kostubet_ai::telegram::Incoming;
use kostubet_ai::telegram::Replied;
use kostubet_ai::telegram::Sender;

const SECOND: u64 = 1_000_000_000;
const BOT: u64 = 1000;

fn app() -> App {
    let vars = [
        ("BOT_TOKEN", "t"),
        ("LLM_API_KEY", "k"),
        ("LLM_MODELS", "a,b"),
        ("ADMINS", "42"),
        ("ALLOWED_CHATS", "-100"),
        ("ALLOWED_THREADS", "0,5"),
        ("USER_META_CHARS", "100"),
        ("MESSAGE_WINDOW_TOKENS", "500"),
    ];
    let env = Env::new(vars.iter().map(|(k, v)| (k.to_string(), v.to_string())).collect());
    let cfg = Config::from_env(&env).unwrap();
    let models = ModelState::new(cfg.models.clone());
    let base = KnowledgeBase {
        cards: vec![KnowledgeCard {
            title: "Загрузчик".to_string(),
            keys: vec!["загрузчик".to_string()],
            content: "fastboot flashing unlock".to_string(),
        }],
    };
    App {
        llm: LlmClient::new(&cfg.llm_base_url, &cfg.llm_api_key),
        cfg,
        store: Store::new(),
        models,
        matcher: Matcher::new(base),
        limiter: RateLimiter::new(2, 60 * SECOND),
        bot_id: BOT,
        bot_username: "Kostubet_Bot".to_string(),
        streaming: true,
    }
}

fn sender(id: u64, name: &str) -> Sender {
    Sender {
        id,
        is_bot: false,
        first_name: name.to_string(),
        last_name: None,
        username: None,
    }
}

fn group(id: u64, text: &str) -> Incoming {
    Incoming {
        chat_id: -100,
        private: false,
        forum: false,
        thread_id: None,
        from: Some(sender(id, "Вася")),
        text: Some(text.to_string()),
        caption: None,
        document: None,
        reply: None,
        quote: None,
    }
}

fn private(id: u64) -> Incoming {
    Incoming { chat_id: id as i64, private: true, ..group(id, "привет") }
}

fn replied(from: Option<Sender>, text: &str) -> Replied {
    Replied {
        message_id: 5,
        from,
        text: Some(text.to_string()),
        caption: None,
        topic_created: false,
        via_bot: None,
        sender_chat: None,
    }
}

fn prompt(app: &mut App, msg: &Incoming) -> String {
    match handlers_chat::message(app, msg, 0) {
        MessageStep::Generate { prompt, .. } => prompt,
        _ => panic!("the message is not answered"),
    }
}

fn ignored(app: &mut App, msg: &Incoming) -> bool {
    matches!(handlers_chat::message(app, msg, 0), MessageStep::Ignore)
}

#[test]
fn waiting_times_are_told() {
    let mut l = RateLimiter::new(2, 10);
    assert_eq!(l.check_and_record(1, 100), None);
    assert_eq!(l.check_and_record(1, 103), None);
    assert_eq!(l.check_and_record(1, 104), Some(6));
    assert_eq!(l.check_and_record(2, 104), None);
    assert_eq!(l.check_and_record(1, 110), None);
    let mut closed = RateLimiter::new(0, 10);
    assert_eq!(closed.check_and_record(1, 0), Some(10));
}

#[test]
fn requests_to_the_model_keep_a_pace() {
    assert_eq!(App::wait_pace(0), Some(PACE_NANOS));
    assert_eq!(App::wait_pace(PACE_NANOS - 7), Some(7));
    assert_eq!(App::wait_pace(PACE_NANOS), None);
}

#[test]
fn streaming_is_toggled() {
    let mut a = app();
    assert!(a.is_streaming());
    assert!(!a.toggle_streaming());
    assert!(!a.is_streaming());
    assert!(a.toggle_streaming());
}

#[test]
fn commands_are_for_administrators_in_private() {
    let a = app();
    assert!(matches!(
        handlers_admin::command(&a, &group(42, "/start"), Command::Start),
        CommandStep::Ignore
    ));
    match handlers_admin::command(&a, &private(7), Command::Model) {
        CommandStep::Send(t) => assert_eq!(
            t,
            "Этот бот отвечает только в группах. Управление — у администраторов."
        ),
        _ => panic!("no answer"),
    }
    match handlers_admin::command(&a, &private(42), Command::Start) {
        CommandStep::Send(t) => assert_eq!(
            t,
            "KostubetAI 2.0\nАктивная модель: a\nСтриминг: включен\n\nКоманды:\n/model — сменить модель\n/stream — переключить стриминг ответов\n/help — помощь\n\nВ группах бот отвечает на @Kostubet_Bot и reply к его сообщениям."
        ),
        _ => panic!("no answer"),
    }
    match handlers_admin::command(&a, &private(42), Command::Help) {
        CommandStep::Send(t) => assert!(t.starts_with("Память: ")),
        _ => panic!("no answer"),
    }
    match handlers_admin::command(&a, &private(42), Command::Model) {
        CommandStep::Menu(t, rows) => {
            assert!(t.starts_with("Активная модель: a\n"));
            assert_eq!(
                rows,
                vec![
                    ("✔ a".to_string(), "model:0".to_string()),
                    ("b".to_string(), "model:1".to_string()),
                ]
            );
        }
        _ => panic!("no menu"),
    }
    match handlers_admin::command(&a, &private(42), Command::Stream) {
        CommandStep::Menu(t, rows) => {
            assert!(t.contains("ВКЛЮЧЁН"));
            assert_eq!(rows[0].1, "stream:toggle");
        }
        _ => panic!("no menu"),
    }
    let mut nobody = private(42);
    nobody.from = None;
    assert!(matches!(handlers_admin::command(&a, &nobody, Command::Help), CommandStep::Ignore));
    assert_eq!(handlers_admin::bot_commands().len(), 4);
    assert_eq!(handlers_admin::bot_commands()[1], ("/help".to_string(), "помощь".to_string()));
}

#[test]
fn commands_and_messages_part() {
    assert_eq!(router::route(&group(7, "/model"), "bot"), Route::Admin(Command::Model));
    assert_eq!(router::route(&group(7, "/start@Bot x"), "bot"), Route::Admin(Command::Start));
    assert_eq!(router::route(&group(7, "/start@other"), "bot"), Route::Chat);
    assert_eq!(router::route(&group(7, " /start"), "bot"), Route::Chat);
    assert_eq!(router::route(&group(7, "привет"), "bot"), Route::Chat);
    let mut captioned = group(7, "");
    captioned.text = None;
    assert_eq!(router::route(&captioned, "bot"), Route::Chat);
    captioned.caption = Some("/stream".to_string());
    assert_eq!(router::route(&captioned, "bot"), Route::Admin(Command::Stream));
    assert_eq!(router::route(&group(7, "/help"), "bot"), Route::Admin(Command::Help));
}

#[test]
fn buttons_switch_models_and_streaming() {
    let mut a = app();
    match handlers_admin::callback(&mut a, 42, Some("model:1")) {
        CallbackStep::Refresh(t, rows, note) => {
            assert!(t.starts_with("Активная модель: b\n"));
            assert_eq!(rows[1].0, "✔ b");
            assert_eq!(rows[0].0, "a");
            assert_eq!(note, "Модель: b");
        }
        _ => panic!("no menu"),
    }
    assert_eq!(a.models.current(), "b");
    for bad in ["model:2", "model:", "model:x", "model:-1"] {
        match handlers_admin::callback(&mut a, 42, Some(bad)) {
            CallbackStep::Note(t) => assert_eq!(t, "Такой модели нет в списке."),
            _ => panic!("no note"),
        }
    }
    assert_eq!(a.models.current(), "b");
    match handlers_admin::callback(&mut a, 42, Some("stream:toggle")) {
        CallbackStep::Refresh(t, _, note) => {
            assert!(t.contains("ВЫКЛЮЧЕН"));
            assert_eq!(note, "Стриминг выключен");
        }
        _ => panic!("no menu"),
    }
    assert!(!a.is_streaming());
    assert!(matches!(handlers_admin::callback(&mut a, 42, Some("x")), CallbackStep::Ignore));
    assert!(matches!(handlers_admin::callback(&mut a, 42, None), CallbackStep::Ignore));
}

#[test]
fn others_press_in_vain() {
    let mut a = app();
    for data in [Some("model:1"), Some("stream:toggle"), None] {
        match handlers_admin::callback(&mut a, 7, data) {
            CallbackStep::Note(t) => assert_eq!(t, "Только для админов."),
            _ => panic!("no note"),
        }
    }
    assert_eq!(a.models.current(), "a");
    assert!(a.is_streaming());
}

#[test]
fn private_messages_get_a_stub() {
    let mut a = app();
    match handlers_chat::message(&mut a, &private(42), 0) {
        MessageStep::Send(t) => assert_eq!(t, "В ЛС доступны только команды: /model, /help, /start."),
        _ => panic!("no stub"),
    }
    match handlers_chat::message(&mut a, &private(7), 0) {
        MessageStep::Send(t) => assert!(t.starts_with("Бот отвечает только в группах.")),
        _ => panic!("no stub"),
    }
}

#[test]
fn what_a_group_is_not_answered() {
    let mut a = app();
    assert!(ignored(&mut a, &group(7, "просто болтовня")));
    assert!(ignored(&mut a, &group(7, "  /start@kostubet_bot")));
    let mut bot = group(7, "@kostubet_bot привет");
    bot.from = Some(Sender { is_bot: true, ..sender(7, "B") });
    assert!(ignored(&mut a, &bot));
    let mut elsewhere = group(7, "@kostubet_bot привет");
    elsewhere.chat_id = -200;
    assert!(ignored(&mut a, &elsewhere));
    let mut topic = group(7, "@kostubet_bot привет");
    topic.thread_id = Some(6);
    assert!(ignored(&mut a, &topic));
    let mut empty = group(7, "");
    empty.text = None;
    assert!(ignored(&mut a, &empty));
    assert!(ignored(&mut a, &group(7, "@kostubet_bot")));
}

#[test]
fn mentions_and_replies_trigger() {
    let mut a = app();
    assert_eq!(prompt(&mut a, &group(7, "эй, @KOSTUBET_BOT, @kostubet_bot где логи?")), "эй, @KOSTUBET_BOT, где логи?");
    let mut caption = group(8, "");
    caption.text = None;
    caption.caption = Some("@kostubet_bot что это?".to_string());
    caption.thread_id = Some(5);
    assert_eq!(prompt(&mut a, &caption), "что это?");
    let mut reply = group(9, "а дальше?");
    reply.reply = Some(replied(Some(sender(BOT, "Бот")), "сначала adb"));
    assert_eq!(
        prompt(&mut a, &reply),
        "а дальше?\n[В ответ на сообщение от Бот: \"сначала adb\"]"
    );
    let mut bare = group(10, "@kostubet_bot");
    bare.reply = Some(replied(None, &"я".repeat(500)));
    assert_eq!(
        prompt(&mut a, &bare),
        format!(
            "Разбери сообщение выше.\n[В ответ на сообщение от неизвестный: \"{}\"]",
            "я".repeat(400)
        )
    );
}

#[test]
fn names_in_quotations() {
    let mut a = app();
    let mut named = sender(8, " ");
    named.username = Some("petya".to_string());
    let mut msg = group(7, "@kostubet_bot глянь");
    msg.reply = Some(replied(Some(named), "x"));
    assert!(prompt(&mut a, &msg).contains("от petya:"));
    msg.reply = Some(replied(Some(sender(8, "")), "x"));
    assert!(prompt(&mut a, &msg).contains("от id8:"));
}

#[test]
fn too_many_requests_are_answered() {
    let mut a = app();
    let msg = group(7, "@kostubet_bot привет");
    prompt(&mut a, &msg);
    prompt(&mut a, &msg);
    match handlers_chat::message(&mut a, &msg, 30 * SECOND) {
        MessageStep::Reply(t) => assert_eq!(t, "Слишком часто. Подожди 30 с."),
        _ => panic!("no limit"),
    }
    match handlers_chat::message(&mut a, &msg, 60 * SECOND - 1) {
        MessageStep::Reply(t) => assert_eq!(t, "Слишком часто. Подожди 1 с."),
        _ => panic!("no limit"),
    }
    prompt(&mut a, &group(8, "@kostubet_bot привет"));
    assert!(matches!(
        handlers_chat::message(&mut a, &msg, 60 * SECOND),
        MessageStep::Generate { user_id: 7, .. }
    ));
}

#[test]
fn a_request_has_history_states_and_knowledge() {
    let mut a = app();
    let msg = group(7, "@kostubet_bot что такое загрузчик?");
    let first = handlers_chat::compose_request(&mut a, &msg, 7, "что такое загрузчик?", 100);
    assert_eq!(first.len(), 2);
    assert!(first[0].content.contains("▪ Загрузчик\nfastboot flashing unlock"));
    assert_eq!(first[1].content, "Вася (id=7): что такое загрузчик?");
    let raw = format!(
        "Это программа.\n<user:@vasya id=7 goal=\"{}\" current=\"читает\">",
        "ц".repeat(300)
    );
    let sent = handlers_chat::accept_answer(&mut a, &msg, &raw, 101);
    assert_eq!(sent.messages, vec!["Это программа."]);
    assert_eq!(sent.content, "Это программа.");
    assert_eq!(sent.states.len(), 1);
    assert_eq!(sent.states[0].goal, "ц".repeat(100));
    let st = a.store.get_state(7).unwrap();
    assert_eq!(st.goal, "ц".repeat(100));
    assert_eq!(st.current, "читает");
    assert_eq!(st.display_name, "vasya");

    let second = handlers_chat::try_compose_request(&mut a, &msg, 7, "спасибо", 102).unwrap();
    assert_eq!(second.len(), 4);
    assert!(second[0].content.contains("<user:@vasya goal="));
    assert_eq!(second[1].content, "Вася (id=7): что такое загрузчик?");
    assert_eq!(second[2].role, "assistant");
    assert_eq!(second[2].content, "Это программа.");
    assert_eq!(second[3].content, "Вася (id=7): спасибо");
}

#[test]
fn only_a_few_participants_are_described() {
    let mut a = app();
    for id in 1..=9 {
        a.store.add_message(-100, 0, id, "U", Role::User, "x");
        a.store.upsert_state(&kostubet_ai::storage::UserState {
            user_id: id,
            goal: format!("цель{id}"),
            ..Default::default()
        });
    }
    let request = handlers_chat::compose_request(&mut a, &group(1, "x"), 1, "вопрос", 5);
    let system = &request[0].content;
    for id in [1, 9, 8, 7, 6, 5] {
        assert!(system.contains(&format!("цель{id}\"")), "{id}");
    }
    for id in [2, 3, 4] {
        assert!(!system.contains(&format!("цель{id}\"")), "{id}");
    }
    assert!(system.find("цель1").unwrap() < system.find("цель9").unwrap());
}

#[test]
fn the_history_stays_within_its_window() {
    let mut a = app();
    let msg = group(7, "x");
    for i in 0..40 {
        handlers_chat::compose_request(&mut a, &msg, 7, &format!("{i} {}", "я".repeat(90)), i);
        handlers_chat::accept_answer(&mut a, &msg, "ответ", i);
    }
    let kept = a.store.recent_messages(-100, 0, 1_000_000);
    let chars: usize = kept.iter().map(|m| m.content.chars().count()).sum();
    assert!(chars <= 1500);
    assert!(kept.len() < 80);
    assert_eq!(kept.last().unwrap().content, "ответ");
}

#[test]
fn answers_and_failures_are_shown() {
    let mut a = app();
    let msg = group(7, "x");
    let blank = handlers_chat::accept_answer(&mut a, &msg, "<user:@a id=1>", 1).messages;
    assert_eq!(blank, vec!["Модель вернула пустой ответ."]);
    let named = handlers_chat::accept_answer(&mut a, &msg, "слушай, @Kostubet_Bot тут", 1).messages;
    assert_eq!(named, vec!["слушай, тут"]);
    let sly = handlers_chat::accept_answer(&mut a, &msg, "да <us@Kostubet_Boter:@b id=2> и", 1);
    assert_eq!(sly.content, "да  и");
    assert!(sly.states.is_empty());
    let long = handlers_chat::accept_answer(&mut a, &msg, &"слово ".repeat(2000), 1).messages;
    assert!(long.len() > 1);
    assert!(long.iter().all(|c| c.chars().count() <= 3900));
    assert_eq!(
        handlers_chat::accept_failure(&mut a, &LlmError::Http("x".to_string())),
        "Не получилось связаться с моделью, попробуй ещё раз."
    );
}

#[test]
fn previews_hide_tags() {
    assert_eq!(handlers_chat::progress("", 0), None);
    assert_eq!(handlers_chat::progress("да", 4), None);
    assert_eq!(handlers_chat::progress("да", 0), Some((4, Some("да".to_string()))));
    assert_eq!(
        handlers_chat::progress("да <user:@a id", 0),
        Some((16, Some("да ".to_string())))
    );
    assert_eq!(handlers_chat::progress("<user:@a", 0), Some((8, None)));
    let long = "я".repeat(3801);
    assert_eq!(
        handlers_chat::progress(&long, 0),
        Some((7602, Some(format!("{}\n▌", "я".repeat(3800)))))
    );
}
