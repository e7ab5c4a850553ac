use kostubet_ai::utils::text::split_telegram;
use kostubet_ai::utils::text::tokens_to_chars;

#[test]
fn short_text_single_chunk() {
    assert_eq!(split_telegram("привет", 100), vec!["привет"]);
}

#[test]
fn splits_by_limit() {
    let text = "слово ".repeat(30) + "конец";
    let chunks = split_telegram(&text, 64);
    assert!(chunks.iter().all(|c| c.chars().count() <= 64));
    assert_eq!(chunks.join(" "), text);
    assert!(chunks.len() > 1);
}

#[test]
fn unicode_safe() {
    let text = "ж".repeat(300);
    let chunks = split_telegram(&text, 100);
    assert!(chunks.iter().all(|c| c.chars().count() <= 100));
    assert_eq!(chunks.concat().chars().count(), 300);
}

#[test]
fn huge_word_hard_split() {
    let text = "ы".repeat(250);
    let chunks = split_telegram(&text, 100);
    assert_eq!(chunks.len(), 3);
    assert!(chunks.iter().all(|c| c.chars().count() <= 100));
}

#[test]
fn token_heuristic() {
    assert_eq!(tokens_to_chars(4000), 12_000);
}

#[test]
fn small_limits_are_raised() {
    let text = "слово ".repeat(20);
    let chunks = split_telegram(&text, 1);
    assert!(chunks.iter().all(|c| c.chars().count() <= 64));
    assert_eq!(chunks.len(), 2);
    assert_eq!(split_telegram("", 100), vec![""]);
}
