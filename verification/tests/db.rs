use kostubet_ai::db::est_chars_to_tokens;
use kostubet_ai::db::schema;
use kostubet_ai::db::AddGuideError;
use kostubet_ai::db::ChatRow;
use kostubet_ai::db::Chats;
use kostubet_ai::db::GuideRow;
use kostubet_ai::db::Guides;
use kostubet_ai::db::LimitStep;
use kostubet_ai::db::MemoryStore;
use kostubet_ai::db::Settings;
use kostubet_ai::db::UserRow;
use kostubet_ai::text::meaningful_words;

#[test]
fn messages_respect_token_budget() {
    let mut store = MemoryStore::new();
    for i in 0..30 {
        store.add_message(1, 100, "Алиса", "user", &format!("сообщение номер {i} {}", "х".repeat(80)));
    }
    let kept = store.chat_messages_within_tokens(100, 200);
    assert!(!kept.is_empty());
    assert!(kept.len() < 30);
    assert!(kept.last().unwrap().content.contains("номер 29"));

    let deleted = store.trim_chat_history(100, 200);
    assert!(deleted > 0);
    let (count, tokens, _) = store.chat_stats(100);
    assert_eq!(count as usize, kept.len());
    assert!(tokens <= 250, "занято {tokens} токенов при бюджете 200");

    let again = store.chat_messages_within_tokens(100, 200);
    assert_eq!(again.len(), kept.len());
    assert_eq!(again.last().unwrap().content, kept.last().unwrap().content);
}

#[test]
fn semi_shared_chat_memory() {
    let mut store = MemoryStore::new();
    store.add_message(1, 200, "Алиса", "user", "Привет!");
    store.add_message(2, 200, "Борис", "user", "Здарова!");
    store.add_message(1, 200, "Алиса", "assistant", "Привет, Борис!");
    store.add_message(2, 200, "Борис", "user", "Как дела?");

    let hist = store.chat_messages_within_tokens(200, 1000);
    assert_eq!(hist.len(), 4);
    assert_eq!(hist[0].content, "Привет!");
    assert_eq!(hist[0].display_name.as_deref(), Some("Алиса"));
    assert_eq!(hist[1].display_name.as_deref(), Some("Борис"));

    assert_eq!(store.chat_participant_count(200), 2);

    store.add_message(3, 300, "Виктор", "user", "Привет из другого чата");
    let other = store.chat_messages_within_tokens(300, 1000);
    assert_eq!(other.len(), 1);
    assert_eq!(other[0].content, "Привет из другого чата");
}

#[test]
fn reset_chat_clears_history() {
    let mut store = MemoryStore::new();
    store.add_message(7, 500, "Админ", "user", "привет");
    store.add_message(7, 500, "", "assistant", "привет!");
    assert_eq!(store.chat_stats(500).0, 2);
    store.reset_chat(500);
    assert_eq!(store.chat_stats(500).0, 0);
}

#[test]
fn settings_crud() {
    let mut store = MemoryStore::new();
    assert_eq!(store.get_setting("model"), None);
    store.set_setting("model", "gpt-4o");
    assert_eq!(store.get_setting("model"), Some("gpt-4o".to_string()));
    store.set_setting("model", "gpt-4o-mini");
    assert_eq!(store.get_setting("model"), Some("gpt-4o-mini".to_string()));
    assert_eq!(store.all_settings(), vec!["model".to_string()]);
    assert!(store.delete_setting("model"));
    assert_eq!(store.get_setting("model"), None);
    assert!(!store.delete_setting("model"));
}

#[test]
fn guides_lifecycle_and_search() {
    let mut store = MemoryStore::new();
    let rust_guide = "Гайд по Rust\n\nCargo — система сборки. Крейты подключаются в Cargo.toml.\n\n\
                      Ownership и borrow checker — основа безопасности памяти в Rust.";
    let cook_guide = "Кулинарный гайд\n\nБорщ варится из свёклы и капусты. Подавать со сметаной.";
    assert_eq!(store.add_guide("rust", 1, rust_guide).unwrap(), 1);
    assert_eq!(store.add_guide("борщ", 1, cook_guide).unwrap(), 1);

    assert!(matches!(store.add_guide("rust", 1, "дубль").unwrap_err(), AddGuideError::Duplicate));
    assert!(matches!(store.add_guide("пустой", 1, "  ").unwrap_err(), AddGuideError::Empty));

    let list = store.guides();
    assert_eq!(list.len(), 2);
    assert!(list.iter().any(|g| g.title == "rust" && g.chars > 100));

    let words = meaningful_words("как приготовить борщ?");
    let hits = store.search_guide_chunks(&words, 4000);
    assert!(!hits.is_empty());
    assert_eq!(hits[0].0, "борщ");
    assert!(hits[0].1.contains("свёклы"));

    let words = meaningful_words("как подключить crate в cargo");
    let hits = store.search_guide_chunks(&words, 4000);
    assert!(hits.iter().any(|(title, _)| title == "rust"));

    assert_eq!(store.find_guide("1"), Some(1));
    assert_eq!(store.find_guide("rust"), Some(1));
    assert_eq!(store.find_guide("бор"), Some(2));
    assert_eq!(store.find_guide("нет такого"), None);

    assert!(store.delete_guide(1));
    assert!(!store.delete_guide(1));
    assert_eq!(store.guides_count(), 1);
}

/// A rough size of the database: a page for the tables and the messages.
fn disk_size(store: &MemoryStore) -> u64 {
    4096 + store.total_messages() as u64 * 700
}

fn enforce_limit(store: &mut MemoryStore, limit: u64) -> u8 {
    let mut stage = 0;
    loop {
        let size = disk_size(store);
        match store.enforce_limit(stage, size, limit) {
            LimitStep::Done(s) => return s,
            LimitStep::Vacuum(s) => stage = s,
        }
    }
}

#[test]
fn enforce_limit_trims_histories() {
    let mut store = MemoryStore::new();
    for i in 0..10 {
        store.add_message(99, 900, "Тест", "user", &format!("лёгкое сообщение {i}"));
    }
    assert_eq!(enforce_limit(&mut store, 1024 * 1024), 0);

    let payload = "д".repeat(300);
    for user in 1..=3 {
        for i in 0..300 {
            store.add_message(user, 900, &format!("Юзер{user}"), "user", &format!("{i} {payload}"));
        }
    }
    let before = disk_size(&store);
    assert!(before > 64 * 1024, "база должна была вырасти: {before} байт");

    let stage = enforce_limit(&mut store, 60 * 1024);
    let after = disk_size(&store);
    assert!(after < before / 2, "чистка должна заметно уменьшить базу: {after} из {before}");
    assert!((1..=3).contains(&stage));
    let (count, _, _) = store.chat_stats(900);
    assert!(count < 30, "в чате осталось {count} сообщений");
}

#[test]
fn limit_stages_come_in_order() {
    let mut store = MemoryStore::new();
    store.add_guide_at("старый", 1, "текст", 1).unwrap();
    assert_eq!(store.enforce_limit(0, 96, 100), LimitStep::Vacuum(1));
    assert_eq!(store.enforce_limit(1, 96, 100), LimitStep::Vacuum(2));
    assert_eq!(store.enforce_limit(2, 96, 100), LimitStep::Vacuum(3));
    assert_eq!(store.guides_count(), 1);
    assert_eq!(store.enforce_limit(3, 96, 100), LimitStep::Vacuum(4));
    assert_eq!(store.guides_count(), 0);
    assert_eq!(store.enforce_limit(4, 96, 100), LimitStep::Done(5));
    assert_eq!(store.enforce_limit(3, 96, 100), LimitStep::Done(5));
    assert_eq!(store.enforce_limit(2, 95, 100), LimitStep::Done(2));
}

#[test]
fn the_oldest_guides_go_first() {
    let mut store = MemoryStore::new();
    for i in 0..60 {
        store.add_guide_at(&format!("гайд {i}"), 1, "текст", 1000 - i).unwrap();
    }
    assert_eq!(store.enforce_limit(3, 96, 100), LimitStep::Vacuum(4));
    assert_eq!(store.guides_count(), 10);
    assert_eq!(store.find_guide("гайд 0"), Some(1));
    assert_eq!(store.find_guide("гайд 59"), None);
}

#[test]
fn users_who_wrote_long_ago_are_dropped() {
    let mut store = MemoryStore::new();
    for user in 0..510 {
        store.add_message_at(user, 1, "U", "user", "x", user);
    }
    assert_eq!(store.total_users(), 510);
    assert_eq!(store.enforce_limit(2, 96, 100), LimitStep::Vacuum(3));
    assert_eq!(store.total_users(), 500);
    assert_eq!(store.total_messages(), 500);
    assert_eq!(store.chat_participant_count(1), 500);
}

#[test]
fn guide_errors_have_messages() {
    assert_eq!(AddGuideError::Duplicate.to_string(), "гайд с таким названием уже существует");
    assert_eq!(AddGuideError::Empty.to_string(), "текст гайда пуст");
    assert_eq!(AddGuideError::Db("x".to_string()).to_string(), "ошибка базы данных: x");
}

#[test]
fn guides_are_found_in_several_ways() {
    let mut store = MemoryStore::new();
    store.add_guide_at("Fastboot и ADB", 1, "текст один", 1).unwrap();
    store.add_guide_at("fast", 1, "текст два", 2).unwrap();
    store.add_guide_at("7", 1, "текст три", 3).unwrap();
    assert_eq!(store.find_guide("FAST"), Some(2));
    assert_eq!(store.find_guide("fas"), None);
    assert_eq!(store.find_guide("FASTB"), Some(1));
    assert_eq!(store.find_guide("_"), None);
    assert_eq!(store.find_guide("%"), None);
    assert_eq!(store.find_guide(" 3 "), Some(3));
    assert_eq!(store.find_guide("7"), Some(3));
    assert_eq!(store.find_guide("  "), None);
    assert!(matches!(store.add_guide_at("FAST", 1, "x", 4), Err(AddGuideError::Duplicate)));
}

#[test]
fn a_shared_start_names_no_guide() {
    let mut store = MemoryStore::new();
    store.add_guide_at("rust-a", 1, "x", 1).unwrap();
    assert_eq!(store.find_guide("rust"), Some(1));
    store.add_guide_at("rust-bb", 1, "y", 2).unwrap();
    assert_eq!(store.find_guide("rust"), None);
    assert_eq!(store.find_guide("rust-b"), Some(2));
    assert_eq!(store.find_guide("rust_b"), None);
}

#[test]
fn a_row_is_planned_as_it_is_added() {
    let mut store = MemoryStore::new();
    let row = store.plan_guide(" rust ", 7, "cargo", 5).unwrap();
    assert_eq!((row.guide_id, row.title.as_str(), row.added_by, row.created_at), (1, "rust", 7, 5));
    assert_eq!(row.chunks, vec!["cargo"]);
    assert_eq!(store.guides_count(), 0);
    store.add_guide_at("rust", 7, "cargo", 5).unwrap();
    assert!(store.plan_guide("RUST", 7, "cargo", 6).is_none());
    assert!(!store.knows_user(7));
    store.add_message(7, 5, "А", "user", "а");
    assert!(store.knows_user(7));
}

#[test]
fn every_character_counts() {
    let mut store = MemoryStore::new();
    store.add_message(1, 5, "А", "user", "a\0bcdefgh");
    store.add_message(1, 5, "А", "user", "\0\0\0");
    assert_eq!(store.chat_stats(5).1, 4);
    assert_eq!(store.trim_chat_history(5, 1), 1);
    assert_eq!(store.chat_stats(5).0, 1);
    assert_eq!(store.trim_chat_history(5, usize::MAX), 0);
}

#[test]
fn search_keeps_to_its_budget() {
    let mut store = MemoryStore::new();
    store.add_guide_at("борщ", 1, &"борщ свёкла ".repeat(10), 1).unwrap();
    store.add_guide_at("щи", 1, "капуста борщ", 2).unwrap();
    let words = meaningful_words("борщ");
    let all = store.search_guide_chunks(&words, 4000);
    assert_eq!(all.len(), 2);
    assert_eq!(all[0].0, "борщ");
    let few = store.search_guide_chunks(&words, 20);
    assert_eq!(few.len(), 1);
    assert_eq!(few[0].0, "щи");
    assert!(store.search_guide_chunks(&meaningful_words(""), 4000).is_empty());
    assert!(store.search_guide_chunks(&meaningful_words("пицца"), 4000).is_empty());
}

#[test]
fn names_stay_known() {
    let mut store = MemoryStore::new();
    store.add_message(1, 5, "Алиса", "user", "а");
    store.add_message(1, 5, "", "assistant", "б");
    let hist = store.chat_messages_within_tokens(5, 100);
    assert_eq!(hist[1].display_name.as_deref(), Some("Алиса"));
    assert_eq!(hist[1].role, "assistant");
}

#[test]
fn tokens_are_estimated_upwards() {
    assert_eq!(est_chars_to_tokens(0), 0);
    assert_eq!(est_chars_to_tokens(1), 1);
    assert_eq!(est_chars_to_tokens(3), 1);
    assert_eq!(est_chars_to_tokens(4), 2);
}

#[test]
fn tables_are_restored() {
    let users = vec![UserRow { user_id: 1, first_seen: 0, last_activity: 0, display_name: String::new() }];
    let messages = vec![ChatRow {
        user_id: 1,
        chat_id: 0,
        role: "user".to_string(),
        content: "старое сообщение".to_string(),
        created_at: 0,
    }];
    let chats = Chats::restore(users, messages).unwrap();
    let guides = Guides::restore(
        vec![GuideRow {
            guide_id: 4,
            title: "rust".to_string(),
            added_by: 1,
            created_at: 0,
            chunks: vec!["cargo".to_string()],
        }],
        9,
    )
    .unwrap();
    let mut settings = Settings::new();
    settings.set("llm_model", "m");
    let mut store = MemoryStore::restore(chats, guides, settings);
    let hist = store.chat_messages_within_tokens(0, 1000);
    assert!(!hist.is_empty(), "старые сообщения должны быть доступны");
    assert_eq!(store.get_setting("llm_model"), Some("m".to_string()));
    assert_eq!(store.find_guide("rust"), Some(4));
    store.add_guide_at("новый", 1, "текст", 1).unwrap();
    assert_eq!(store.find_guide("новый"), Some(10));

    store.add_message(2, 500, "Тест", "user", "новое сообщение");
    let hist2 = store.chat_messages_within_tokens(500, 1000);
    assert_eq!(hist2.len(), 1);
    assert_eq!(hist2[0].content, "новое сообщение");
    assert_eq!(hist2[0].display_name.as_deref(), Some("Тест"));
    assert_eq!(store.chat_participant_count(500), 1);
}

#[test]
fn broken_tables_are_refused() {
    let user = || UserRow { user_id: 8, first_seen: 0, last_activity: 0, display_name: String::new() };
    assert!(Chats::restore(vec![user(), user()], Vec::new()).is_none());
    assert!(Chats::restore(vec![user()], Vec::new()).is_some());
    let twice = |id: i64| GuideRow {
        guide_id: id,
        title: "same".to_string(),
        added_by: 1,
        created_at: 0,
        chunks: Vec::new(),
    };
    assert!(Guides::restore(vec![twice(1), twice(2)], 2).is_none());
}

fn columns(names: &[&str]) -> Vec<String> {
    names.iter().map(|n| n.to_string()).collect()
}

#[test]
fn old_tables_are_brought_up_to_date() {
    let old_messages = columns(&["id", "user_id", "role", "content", "created_at"]);
    let old_users = columns(&["user_id", "first_seen", "last_activity"]);
    assert_eq!(
        schema::migrate(&old_messages, &old_users),
        vec![schema::ADD_CHAT, schema::ADD_NAME, schema::ADD_INDEX]
    );
    let messages = columns(&["id", "chat_id"]);
    let users = columns(&["user_id", "display_name"]);
    assert_eq!(schema::migrate(&messages, &users), vec![schema::ADD_INDEX]);
    assert!(schema::SCHEMA.contains("CREATE TABLE IF NOT EXISTS guide_chunks"));
}
