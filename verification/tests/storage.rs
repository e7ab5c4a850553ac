use kostubet_ai::storage::now_ts;
use kostubet_ai::storage::DialogueRow;
use kostubet_ai::storage::Role;
use kostubet_ai::storage::Store;
use kostubet_ai::storage::StoredMessage;
use kostubet_ai::storage::UserState;

fn row(chat_id: i64, thread_id: i64, content: &str) -> DialogueRow {
    DialogueRow {
        chat_id,
        thread_id,
        message: StoredMessage {
            user_id: 1,
            display_name: "A".to_string(),
            role: Role::User,
            content: content.to_string(),
        },
        created_at: 0,
    }
}

#[test]
fn messages_roundtrip_and_window() {
    let mut s = Store::new();
    for i in 0..5 {
        let long = format!("msg {i} {}", "x".repeat(100));
        s.add_message(1, 0, 10, "Vasya", Role::User, &long);
    }
    s.add_message(1, 0, 99, "", Role::Assistant, "answer");

    let recent = s.recent_messages(1, 0, 400);
    assert_eq!(recent.len(), 4);
    assert_eq!(recent.last().unwrap().content, "answer");

    let trimmed = s.trim_window(400);
    assert_eq!(trimmed, 2);
    let recent = s.recent_messages(1, 0, 10_000);
    assert_eq!(recent.len(), 4);
    assert!(recent[0].content.starts_with("msg 2 "));
}

#[test]
fn user_state_tag_format() {
    let st = UserState {
        user_id: 123,
        display_name: "nick".into(),
        goal: "прошить телефон".into(),
        current: "установил adb".into(),
    };
    assert_eq!(
        st.to_tag(),
        "<user:@nick goal=\"прошить телефон\" current=\"установил adb\" id=123>"
    );
    let empty = UserState {
        user_id: 5,
        ..Default::default()
    };
    assert_eq!(empty.to_tag(), "<user:@ id=5>");
}

#[test]
fn upsert_state_keeps_name_on_empty() {
    let mut s = Store::new();
    s.upsert_state(&UserState {
        user_id: 1,
        display_name: "Nick".into(),
        goal: "g".into(),
        current: "c".into(),
    });
    s.upsert_state(&UserState {
        user_id: 1,
        display_name: String::new(),
        goal: "g2".into(),
        current: "c2".into(),
    });
    let st = s.get_state(1).unwrap();
    assert_eq!(st.display_name, "Nick");
    assert_eq!(st.goal, "g2");
}

#[test]
fn threads_are_isolated() {
    let mut s = Store::new();
    s.add_message(1, 0, 1, "A", Role::User, "main");
    s.add_message(1, 5, 1, "A", Role::User, "topic");
    let main = s.recent_messages(1, 0, 10_000);
    let topic = s.recent_messages(1, 5, 10_000);
    assert_eq!(main.len(), 1);
    assert_eq!(main[0].content, "main");
    assert_eq!(topic[0].content, "topic");
}

#[test]
fn window_is_kept_for_each_dialogue() {
    let mut s = Store::new();
    for i in 0..4 {
        s.insert_message(row(1, 0, &format!("first {i}")));
        s.insert_message(row(2, 0, &format!("other {i}")));
    }
    assert_eq!(s.trim_window(16), 4);
    assert_eq!(s.trim_window(16), 0);
    let first = s.recent_messages(1, 0, 1000);
    assert_eq!(first.len(), 2);
    assert_eq!(first[0].content, "first 2");
    assert_eq!(s.recent_messages(2, 0, 1000)[1].content, "other 3");
}

#[test]
fn the_newest_message_is_always_given() {
    let mut s = Store::new();
    s.insert_message(row(1, 0, "old"));
    s.insert_message(row(1, 0, "a rather long message"));
    let recent = s.recent_messages(1, 0, 3);
    assert_eq!(recent.len(), 1);
    assert_eq!(recent[0].content, "a rather long message");
    assert!(s.recent_messages(9, 0, 100).is_empty());
    assert_eq!(s.trim_window(3), 2);
}

#[test]
fn states_come_in_the_order_of_the_ids() {
    let mut s = Store::new();
    for id in [3, 1] {
        s.upsert_state_at(
            &UserState { user_id: id, goal: format!("goal {id}"), ..Default::default() },
            5,
        );
    }
    let states = s.states_for_ids(&[1, 2, 3]);
    assert_eq!(states.len(), 2);
    assert_eq!(states[0].goal, "goal 1");
    assert_eq!(states[1].user_id, 3);
    assert!(s.get_state(2).is_none());
}

#[test]
fn roles_have_names() {
    assert_eq!(Role::User.as_str(), "user");
    assert_eq!(Role::Assistant.as_str(), "assistant");
    assert_eq!(Role::from_name("assistant"), Role::Assistant);
    assert_eq!(Role::from_name("anything"), Role::User);
}

#[test]
fn the_clock_runs() {
    let a = now_ts();
    assert!(a > 1_600_000_000);
    assert!(now_ts() >= a);
}

#[test]
fn budgets_count_characters() {
    let mut s = Store::new();
    s.add_message(1, 0, 10, "A", Role::User, &"ж".repeat(100));
    s.add_message(1, 0, 10, "A", Role::User, &"ж".repeat(100));
    assert_eq!(s.recent_messages(1, 0, 200).len(), 2);
    assert_eq!(s.recent_messages(1, 0, 199).len(), 1);
    assert_eq!(s.trim_window(200), 0);
    assert_eq!(s.trim_window(usize::MAX), 0);
    s.add_message(1, 0, 10, "A", Role::User, "\0\0");
    assert_eq!(s.message_count(1, 0), 3);
    assert_eq!(s.message_count(1, 1), 0);
    assert_eq!(s.trim_window(201), 1);
    assert_eq!(s.message_count(1, 0), 2);
}
