use kostubet_ai::text::fmt_bytes;
use kostubet_ai::text::meaningful_words;
use kostubet_ai::text::split_chunks;
use kostubet_ai::text::split_telegram;
use kostubet_ai::text::word_set;
use kostubet_ai::text::WordSet;

#[test]
fn fmt_bytes_units() {
    assert_eq!(fmt_bytes(0), "0.0 Б");
    assert_eq!(fmt_bytes(1024), "1.0 КБ");
    assert_eq!(fmt_bytes(1024 * 1024 * 1024), "1.0 ГБ");
}

#[test]
fn split_telegram_short_text_is_single_chunk() {
    let chunks = split_telegram("привет", 100);
    assert_eq!(chunks, vec!["привет".to_string()]);
}

#[test]
fn split_telegram_respects_limit() {
    let long = "слово ".repeat(3000);
    let chunks = split_telegram(&long, 3900);
    assert!(chunks.len() > 1);
    for c in &chunks {
        assert!(c.len() <= 3900);
    }
    let total: usize = chunks.iter().map(String::len).sum();
    assert!(total + chunks.len() >= long.trim().len());
}

#[test]
fn split_chunks_by_paragraphs() {
    let text = "абзац один\n\nабзац два\n\nабзац три";
    let chunks = split_chunks(text, 22, 100);
    assert!(!chunks.is_empty());
    let joined = chunks.join("\n\n");
    assert!(joined.contains("абзац один"));
    assert!(joined.contains("абзац три"));
}

#[test]
fn split_chunks_hard_splits_long_paragraph() {
    let text = "x".repeat(5000);
    let chunks = split_chunks(&text, 1000, 2000);
    assert!(chunks.len() >= 2);
    for c in &chunks {
        assert!(c.chars().count() <= 2000);
    }
}

#[test]
fn meaningful_words_filters_short_and_case() {
    let words = meaningful_words("Привет, Мир! и а bb Rust");
    assert!(words.contains("привет"));
    assert!(words.contains("rust"));
    assert!(!words.contains("и"));
    assert!(!words.contains("bb"));
}

#[test]
fn sizes_are_rounded_like_numbers() {
    assert_eq!(fmt_bytes(1), "1.0 Б");
    assert_eq!(fmt_bytes(1023), "1023.0 Б");
    assert_eq!(fmt_bytes(1536), "1.5 КБ");
    assert_eq!(fmt_bytes(5 * 1024 * 1024 + 300 * 1024), "5.3 МБ");
    assert_eq!(fmt_bytes(u64::MAX), "16777216.0 ТБ");
    let mut n: u64 = 1;
    while n < 1 << 50 {
        for d in [0, 1, 51, 52, 53, 102, 103] {
            let v = n + d;
            let mut value = v as f64;
            let units = ["Б", "КБ", "МБ", "ГБ", "ТБ"];
            let mut unit = 0;
            while value >= 1024.0 && unit + 1 < units.len() {
                value /= 1024.0;
                unit += 1;
            }
            assert_eq!(fmt_bytes(v), format!("{:.1} {}", value, units[unit]), "{}", v);
        }
        n = n * 3 + 7;
    }
}

#[test]
fn word_sets_hold_words_once() {
    let mut set = WordSet::new();
    assert_eq!(set.len(), 0);
    set.insert("борщ".to_string());
    set.insert("борщ".to_string());
    assert_eq!(set.len(), 1);
    let other = word_set(vec!["борщ".to_string(), "щи".to_string()]);
    assert_eq!(set.shared(&other), 1);
    assert_eq!(other.shared(&set), 1);
}

#[test]
fn chunks_keep_the_words() {
    let text = "один два три\n\nчетыре пять";
    let words: Vec<&str> = text.split_whitespace().collect();
    let chunks = split_chunks(text, 12, 20);
    let mut kept: Vec<String> = Vec::new();
    for c in &chunks {
        for w in c.split_whitespace() {
            kept.push(w.to_string());
        }
    }
    assert_eq!(kept, words);
    let solid: String = text.chars().filter(|c| !c.is_whitespace()).collect();
    let sent: String = split_telegram(text, 16).concat();
    let sent: String = sent.chars().filter(|c| !c.is_whitespace()).collect();
    assert_eq!(sent, solid);
}

#[test]
fn fragments_keep_to_the_hard_limit() {
    assert_eq!(split_chunks("ab\n\ncd", 4, 4), vec!["ab", "cd"]);
    assert_eq!(split_chunks("ab\n\ncd", 4, 6), vec!["ab\n\ncd"]);
    assert_eq!(split_chunks("ab\n\n\n\ncd", 2, 2), vec!["ab", "cd"]);
    assert!(split_chunks(" \n\n ", 4, 4).is_empty());
    for c in split_chunks("abcdefgh\n\nij\n\nk\n\nl", 3, 5) {
        assert!(1 <= c.chars().count() && c.chars().count() <= 5);
    }
}

#[test]
fn lowering_first_keeps_the_words() {
    let text = "Прошивка и ADB: ТЕЛЕФОН, Σίσυφος, 2024";
    let words = meaningful_words(text);
    let lowered = meaningful_words(&text.to_lowercase());
    assert_eq!(words.len(), lowered.len());
    assert_eq!(words.shared(&lowered), words.len());
}

#[test]
fn words_are_whole_runs() {
    let words = meaningful_words("Прошивка_v2.10 и ADB-2024, да ёжик!");
    for w in ["прошивка", "adb", "2024", "ёжик"] {
        assert!(words.contains(w));
    }
    for w in ["прошив", "v2", "10", "и", "да", "ADB", "adb-2024"] {
        assert!(!words.contains(w));
    }
    assert_eq!(words.len(), 4);
}

#[test]
fn messages_are_slices_of_the_text() {
    let text = "  раз два три четыре\n\nпять\n\n\n\nшесть семь восемь девять десять\n\nконец ";
    let trimmed = text.trim();
    for limit in [9, 16, 30, 64] {
        let mut rest = trimmed;
        for (i, chunk) in split_telegram(text, limit).iter().enumerate() {
            if i > 0 {
                while !rest.starts_with(chunk.as_str()) {
                    assert!(rest.starts_with("\n\n"));
                    rest = &rest[2..];
                }
            }
            assert!(rest.starts_with(chunk.as_str()));
            rest = &rest[chunk.len()..];
        }
        assert_eq!(rest, "");
    }
}

#[test]
fn fragments_keep_the_order_of_paragraphs() {
    let text = " один \n\nдва\nтри\n\n четыре\n\nпять ";
    let joined = "один\n\nдва\nтри\n\nчетыре\n\nпять";
    for target in [3, 8, 14, 40] {
        assert_eq!(split_chunks(text, target, 40).join("\n\n"), joined);
    }
    assert_eq!(split_chunks("a\n\n\n\nb", 10, 10), vec!["a\n\n\n\nb"]);
    assert_eq!(split_chunks("aa\n\n\n\nbb", 2, 3), vec!["aa", "bb"]);
}
