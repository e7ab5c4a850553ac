use kostubet_ai::storage::UserState;
use kostubet_ai::utils::sanitizer::extract_user_tags;
use kostubet_ai::utils::sanitizer::parse_tag_inner;
use kostubet_ai::utils::sanitizer::remove_bot_mention;
use kostubet_ai::utils::sanitizer::split_kv;

#[test]
fn extracts_and_strips_tags() {
    let answer = "Сначала установи драйвер.\n<user:@vasya id=123 goal=\"прошить телефон\" current=\"установил adb\">\n<user:@petya id=5 current=\"ждёт кабель\">";
    let (clean, states) = extract_user_tags(answer);
    assert_eq!(clean, "Сначала установи драйвер.");
    assert_eq!(states.len(), 2);
    assert_eq!(states[0].user_id, 123);
    assert_eq!(states[0].display_name, "vasya");
    assert_eq!(states[0].goal, "прошить телефон");
    assert_eq!(states[0].current, "установил adb");
    assert_eq!(states[1].user_id, 5);
    assert_eq!(states[1].display_name, "petya");
    assert_eq!(states[1].current, "ждёт кабель");
}

#[test]
fn answer_without_tags() {
    let (clean, states) = extract_user_tags("обычный ответ");
    assert_eq!(clean, "обычный ответ");
    assert!(states.is_empty());
}

#[test]
fn unclosed_tag_truncated() {
    let (clean, states) = extract_user_tags("ответ <user:@a id=1 goal=\"незакрыт");
    assert_eq!(clean, "ответ");
    assert!(states.is_empty());
}

#[test]
fn tag_without_id_ignored() {
    let (clean, states) = extract_user_tags("ок <user:@x goal=\"y\"> конец");
    assert_eq!(clean, "ок  конец".trim());
    assert!(states.is_empty());
}

#[test]
fn mention_removed() {
    assert_eq!(remove_bot_mention("@kostubet_bot как дела?", "kostubet_bot"), "как дела?");
    assert_eq!(remove_bot_mention("норм всё", "kostubet_bot"), "норм всё");
}

#[test]
fn a_tag_reads_back() {
    let st = UserState {
        user_id: 77,
        display_name: "nick".into(),
        goal: "прошить телефон".into(),
        current: "скачал образ".into(),
    };
    let (clean, states) = extract_user_tags(&format!("Готово.{}", st.to_tag()));
    assert_eq!(clean, "Готово.");
    assert_eq!(states.len(), 1);
    assert_eq!(states[0].user_id, 77);
    assert_eq!(states[0].display_name, "nick");
    assert_eq!(states[0].goal, "прошить телефон");
    assert_eq!(states[0].current, "скачал образ");
}

#[test]
fn mention_of_any_known_case_is_removed() {
    assert_eq!(remove_bot_mention("привет @Kostubet_Bot и @kostubet_bot!", "Kostubet_Bot"), "привет и !");
    assert_eq!(remove_bot_mention("  как   есть  ", ""), "  как   есть  ");
}

#[test]
fn tags_and_attributes_are_read() {
    let st = parse_tag_inner("@x id=9 goal=\"a b\" current=c").unwrap();
    assert_eq!(st.user_id, 9);
    assert_eq!(st.display_name, "x");
    assert_eq!(st.goal, "a b");
    assert_eq!(st.current, "c");
    assert!(parse_tag_inner("@x goal=y").is_none());
    assert_eq!(split_kv("id=5"), Some(("id".to_string(), "5".to_string())));
    assert_eq!(split_kv("nothing"), None);
}

#[test]
fn no_tag_is_put_together_by_stripping() {
    let (clean, states) = extract_user_tags("<us<user:@a id=1>er:@b id=2>");
    assert_eq!(clean, "");
    assert_eq!(states.len(), 1);
    assert_eq!(states[0].user_id, 1);
    let (clean, _) = extract_user_tags("до <u<us<user:x>er:y>ser: и дальше");
    assert_eq!(clean, "до");
    let (clean, _) = extract_user_tags("a  \n <us er: b");
    assert_eq!(clean, "a\n <us er: b");
}

#[test]
fn cleaning_again_changes_nothing() {
    for answer in [
        "да  \n\n  нет \t\n<user:@a id=1>",
        "  <us<user:@a id=1>er:@b id=2> x \n y",
        "\n \n a \n \n b \n <user:",
    ] {
        let (clean, _) = extract_user_tags(answer);
        let (again, states) = extract_user_tags(&clean);
        assert_eq!(again, clean);
        assert!(states.is_empty());
    }
}
