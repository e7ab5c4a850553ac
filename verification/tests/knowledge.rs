use kostubet_ai::knowledge::loader::is_card_file;
use kostubet_ai::knowledge::loader::DirReading;
use kostubet_ai::knowledge::loader::EntryReading;
use kostubet_ai::knowledge::loader::FileReading;
use kostubet_ai::knowledge::loader::KnowledgeBase;
use kostubet_ai::knowledge::loader::KnowledgeCard;
use kostubet_ai::knowledge::loader::KnowledgeError;
use kostubet_ai::knowledge::loader::RawContent;
use kostubet_ai::knowledge::matcher::is_stemmable_query;
use kostubet_ai::knowledge::matcher::Matcher;

fn card(title: &str, keys: &[&str], content: &str) -> KnowledgeCard {
    KnowledgeCard {
        title: title.to_string(),
        keys: keys.iter().map(|k| k.to_string()).collect(),
        content: content.to_string(),
    }
}

fn file(path: &str, cards: Vec<KnowledgeCard>) -> EntryReading {
    EntryReading::File {
        path: path.to_string(),
        extension: path.rsplit('.').next().map(|e| e.to_string()),
        reading: FileReading::Cards(cards),
    }
}

#[test]
fn load_single_and_array_cards() {
    let lines = RawContent::Lines(vec!["Первая строка".to_string(), "Вторая строка".to_string()]);
    let entries = vec![
        file(
            "bootloader.json",
            vec![card(
                "Загрузчик",
                &["bootloader", "fastboot"],
                "Разблокировка через fastboot flashing unlock",
            )],
        ),
        file(
            "multi.json",
            vec![
                card("Карточка 1", &["один"], "Текст 1"),
                card("Карточка 2", &["два"], "Текст 2"),
            ],
        ),
        EntryReading::File {
            path: "notes.txt".to_string(),
            extension: Some("txt".to_string()),
            reading: FileReading::Broken("ignore me".to_string()),
        },
        file("lines.json", vec![card("Строки", &["тест"], &lines.into_text())]),
    ];
    let kb = KnowledgeBase::load("kb-test", DirReading::Entries(entries)).unwrap();
    assert_eq!(kb.cards.len(), 4);
    let lines_card = kb.cards.iter().find(|c| c.title == "Строки").unwrap();
    assert_eq!(lines_card.content, "Первая строка\nВторая строка");
}

#[test]
fn missing_dir_is_error() {
    assert!(matches!(
        KnowledgeBase::load("/nonexistent-kb-xyz", DirReading::Missing),
        Err(KnowledgeError::MissingDir(_))
    ));
}

fn test_base() -> KnowledgeBase {
    KnowledgeBase {
        cards: vec![
            card(
                "Разблокировка загрузчика",
                &["bootloader", "загрузчик", "разблокировка", "разлочить", "бл"],
                "Разблокировка загрузчика выполняется командой fastboot flashing unlock.",
            ),
            card(
                "Драйверы ADB и Fastboot",
                &["драйвер", "adb", "дрова", "fastboot"],
                "Драйвер adb ставится через Google USB Driver, после чего телефон виден в adb devices.",
            ),
        ],
    }
}

#[test]
fn keyword_match_with_endings_and_slang() {
    let m = Matcher::new(test_base());
    let hits = m.match_query("как разлочить бл?", 4, 4000);
    assert_eq!(hits.len(), 1);
    assert_eq!(hits[0].0, "Разблокировка загрузчика");

    let hits2 = m.match_query("проблема с драйверами", 4, 4000);
    assert_eq!(hits2.len(), 1);
    assert_eq!(hits2[0].0, "Драйверы ADB и Fastboot");
}

#[test]
fn no_match_on_unrelated() {
    let m = Matcher::new(test_base());
    let hits = m.match_query("как сварить борщ", 4, 4000);
    assert!(hits.is_empty());
}

#[test]
fn cards_are_sorted_and_usable() {
    assert!(is_card_file(Some("json")));
    assert!(!is_card_file(Some("JSON")));
    assert!(!is_card_file(None));
    let entries = vec![
        file(
            "a.json",
            vec![
                card("яблоко", &[], "a"),
                card("Арбуз", &[], "b"),
                card("  ", &[], "c"),
                card("пусто", &[], " \n"),
                card("арба", &[], "d"),
            ],
        ),
        file("b.JSON", vec![card("другое", &[], "e")]),
    ];
    let kb = KnowledgeBase::load("d", DirReading::Entries(entries)).unwrap();
    let titles: Vec<&str> = kb.cards.iter().map(|c| c.title.as_str()).collect();
    assert_eq!(titles, vec!["арба", "Арбуз", "яблоко"]);
}

#[test]
fn loading_reports_what_failed() {
    let failed = KnowledgeBase::load("d", DirReading::Failed("denied".to_string()));
    match failed {
        Err(KnowledgeError::Io { path, source }) => {
            assert_eq!(path, "d");
            assert_eq!(source, "denied");
        }
        _ => panic!("no error"),
    }
    let broken = vec![EntryReading::File {
        path: "d/x.json".to_string(),
        extension: Some("json".to_string()),
        reading: FileReading::Broken("eof".to_string()),
    }];
    match KnowledgeBase::load("d", DirReading::Entries(broken)) {
        Err(KnowledgeError::Parse { path, source }) => {
            assert_eq!(path, "d/x.json");
            assert_eq!(source, "eof");
        }
        _ => panic!("no error"),
    }
    let unreadable = vec![EntryReading::File {
        path: "d/x.json".to_string(),
        extension: Some("json".to_string()),
        reading: FileReading::Unreadable("gone".to_string()),
    }];
    match KnowledgeBase::load("d", DirReading::Entries(unreadable)) {
        Err(e) => assert!(e.to_string().contains("d/x.json")),
        Ok(_) => panic!("no error"),
    }
    assert!(KnowledgeBase::load("d", DirReading::Entries(vec![EntryReading::Failed("e".to_string())])).is_err());
    assert!(KnowledgeError::MissingDir("d".to_string()).to_string().contains("d"));
}

#[test]
fn matches_fit_and_come_best_first() {
    let m = Matcher::try_new(test_base()).unwrap();
    assert_eq!(m.cards().len(), 2);
    let hits = m.try_match_query("загрузчик драйвер adb", 4, 4000).unwrap();
    assert_eq!(hits.len(), 2);
    assert_eq!(hits[0].0, "Драйверы ADB и Fastboot");
    let one = m.match_query("загрузчик драйвер adb", 1, 4000);
    assert_eq!(one.len(), 1);
    let small = m.match_query("загрузчик драйвер adb", 4, 10);
    assert_eq!(small.len(), 1);
    assert!(m.match_query("загрузчик драйвер adb", 0, 4000).is_empty());
    let size: usize =
        hits.iter().map(|(t, c)| t.chars().count() + c.chars().count()).sum();
    assert_eq!(m.match_query("загрузчик драйвер adb", 4, size).len(), 2);
    assert_eq!(m.match_query("загрузчик драйвер adb", 4, size - 1).len(), 1);
    assert!(is_stemmable_query("загрузчиком"));
}

#[test]
fn endings_do_not_count() {
    let base = KnowledgeBase { cards: vec![card("Прошивка", &["прошивка"], "как прошить")] };
    let m = Matcher::new(base);
    assert_eq!(m.match_query("прошивками", 1, 100).len(), 1);
    assert_eq!(m.match_query("прошивкой", 1, 100)[0].1, "как прошить");
    assert!(m.match_query("чайник", 1, 100).is_empty());
}

#[test]
fn equal_cards_are_all_kept() {
    let entries = vec![
        file("a.json", vec![card("б", &[], "1"), card("а", &[], "2")]),
        file("b.json", vec![card("б", &[], "1"), card("А", &[], "3")]),
    ];
    let kb = KnowledgeBase::load("d", DirReading::Entries(entries)).unwrap();
    let contents: Vec<&str> = kb.cards.iter().map(|c| c.content.as_str()).collect();
    assert_eq!(contents, vec!["2", "3", "1", "1"]);
}
