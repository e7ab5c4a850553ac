use kostubet_ai::db::LimitStep;
use kostubet_ai::db::MemoryStore;
use kostubet_ai::memory::budget_for;
use kostubet_ai::memory::build_system_prompt;
use kostubet_ai::memory::clip;
use kostubet_ai::memory::nanos_of;
use kostubet_ai::memory::pace_delay;
use kostubet_ai::memory::MemoryConfig;
use kostubet_ai::memory::MemoryManager;
use kostubet_ai::memory::RateLimiter;
use kostubet_ai::memory::PACE_NANOS;
use kostubet_ai::memory::SETTING_API_KEY;
use kostubet_ai::memory::SETTING_BASE_URL;
use kostubet_ai::memory::SETTING_MODEL;
use kostubet_ai::memory::SETTING_SYSTEM_PROMPT;

const MINUTE: u64 = 60 * 1_000_000_000;

fn memory_config() -> MemoryConfig {
    MemoryConfig {
        user_memory_tokens: 5000,
        max_group_memory_tokens: 40000,
        memory_limit_bytes: 1000,
        rate_limit_requests: 2,
        rate_limit_window_secs: 60,
        llm_base_url: "https://api.example.com/v1".to_string(),
        llm_api_key: "key".to_string(),
        llm_model: "gpt".to_string(),
        default_system_prompt: "Ты бот.".to_string(),
    }
}

fn manager() -> MemoryManager {
    MemoryManager::new(MemoryStore::new(), memory_config())
}

#[test]
fn system_prompt_with_and_without_guides() {
    let base = "Ты умный бот.";
    let plain = build_system_prompt(base, &[]);
    assert_eq!(plain, base);

    let with = build_system_prompt(base, &[("rust".into(), "Cargo.toml".into())]);
    assert!(with.starts_with(base));
    assert!(with.contains("Из гайда «rust»"));
    assert!(with.contains("Cargo.toml"));
}

#[test]
fn rate_limiter_allows_up_to_limit() {
    let mut limiter = RateLimiter::new(3, MINUTE);
    assert!(limiter.check_and_record(1, 0));
    assert!(limiter.check_and_record(1, 1));
    assert!(limiter.check_and_record(1, 2));
    assert!(!limiter.check_and_record(1, 3));
}

#[test]
fn rate_limiter_isolates_users() {
    let mut limiter = RateLimiter::new(2, MINUTE);
    assert!(limiter.check_and_record(1, 0));
    assert!(limiter.check_and_record(1, 0));
    assert!(!limiter.check_and_record(1, 0));
    assert!(limiter.check_and_record(2, 0));
    assert!(limiter.check_and_record(2, 0));
    assert!(!limiter.check_and_record(2, 0));
}

#[test]
fn rate_limiter_remaining_decrements() {
    let mut limiter = RateLimiter::new(5, MINUTE);
    assert_eq!(limiter.remaining(42, 0), 5);
    limiter.check_and_record(42, 0);
    assert_eq!(limiter.remaining(42, 0), 4);
    limiter.check_and_record(42, 0);
    assert_eq!(limiter.remaining(42, 0), 3);
}

#[test]
fn rate_limiter_records_atomically() {
    let mut limiter = RateLimiter::new(1, MINUTE);
    let a = limiter.check_and_record(99, 5);
    let b = limiter.check_and_record(99, 5);
    assert!(a ^ b, "только один из двух запросов должен быть разрешён");
}

#[test]
fn chat_token_budget_progression() {
    let mgr = manager();
    assert_eq!(mgr.compute_chat_token_budget(1), 5000);
    assert_eq!(mgr.compute_chat_token_budget(2), 12000);
    assert_eq!(mgr.compute_chat_token_budget(3), 19000);
    assert_eq!(mgr.compute_chat_token_budget(4), 26000);
    assert_eq!(mgr.compute_chat_token_budget(5), 33000);
    assert_eq!(mgr.compute_chat_token_budget(6), 40000);
    assert_eq!(mgr.compute_chat_token_budget(10), 40000, "capped at max");
}

#[test]
fn budgets_at_the_edges() {
    assert_eq!(budget_for(10, 5, 4), 10);
    assert_eq!(budget_for(10, 12, 0), 10);
    assert_eq!(budget_for(10, 12, 2), 11);
    assert_eq!(budget_for(10, 12, 9), 12);
    assert_eq!(budget_for(100, 109, 5), 104);
    assert_eq!(budget_for(100, 109, 6), 109);
}

#[test]
fn requests_leave_the_window() {
    let mut limiter = RateLimiter::new(1, 10);
    assert!(limiter.check_and_record(1, 100));
    assert!(!limiter.check_and_record(1, 109));
    assert_eq!(limiter.remaining(1, 109), 0);
    assert!(limiter.check_and_record(1, 110));
}

#[test]
fn many_users_are_forgotten() {
    let mut limiter = RateLimiter::new(1, 10);
    for user in 0..1005 {
        assert!(limiter.check_and_record(user, 0));
    }
    assert!(limiter.check_and_record(5000, 20));
    assert_eq!(limiter.remaining(7, 20), 1);
    assert_eq!(limiter.remaining(5000, 20), 0);
}

#[test]
fn long_messages_are_clipped() {
    assert_eq!(clip("привет"), "привет");
    let long = "я".repeat(15_001);
    let cut = clip(&long);
    assert!(cut.starts_with(&"я".repeat(15_000)));
    assert_eq!(cut.chars().count(), 15_000 + "\n[сообщение обрезано из-за длины]".chars().count());
    assert_eq!(clip(&"я".repeat(15_000)), "я".repeat(15_000));
}

#[test]
fn requests_keep_their_pace() {
    assert_eq!(pace_delay(0), Some(PACE_NANOS));
    assert_eq!(pace_delay(PACE_NANOS - 1), Some(1));
    assert_eq!(pace_delay(PACE_NANOS), None);
    assert_eq!(nanos_of(2), 2_000_000_000);
    assert_eq!(nanos_of(u64::MAX), u64::MAX);
}

#[test]
fn a_reply_is_prepared_and_remembered() {
    let mut mgr = manager();
    mgr.add_guide("борщ", 1, "Борщ варится из свёклы.", 1).unwrap();
    let first = mgr.reply_stream(1, 10, "Алиса", "как варить борщ?", 100);
    assert_eq!(first.budget, 5000);
    assert_eq!(first.settings.model, "gpt");
    assert_eq!(first.messages.len(), 2);
    assert_eq!(first.messages[0].role, "system");
    assert!(first.messages[0].content.contains("Из гайда «борщ»"));
    assert_eq!(first.messages[1].role, "user");
    assert_eq!(first.messages[1].content, "Алиса: как варить борщ?");
    assert_eq!(mgr.finish_reply(1, 10, "  Возьми свёклу. ", first.budget, 101), 0);

    let second = mgr.reply_stream(2, 10, "", "спасибо", 102);
    assert_eq!(second.budget, 12000);
    assert_eq!(second.messages.len(), 4);
    assert_eq!(second.messages[2].role, "assistant");
    assert_eq!(second.messages[2].content, "Возьми свёклу.");
    assert_eq!(second.messages[3].content, "спасибо");
    let snap = mgr.chat_snapshot(10);
    assert_eq!(snap.message_count, 3);
    assert_eq!(snap.participants, 2);
    assert_eq!(snap.budget, 12000);
    assert_eq!(mgr.global_stats(), (3, 2, 1));
    mgr.reset_chat(10);
    assert_eq!(mgr.chat_snapshot(10).message_count, 0);
}

#[test]
fn settings_override_the_defaults() {
    let mut mgr = manager();
    assert_eq!(mgr.effective_settings().base_url, "https://api.example.com/v1");
    mgr.set_setting(SETTING_MODEL, "other");
    mgr.set_setting(SETTING_BASE_URL, "http://localhost");
    mgr.set_setting(SETTING_API_KEY, "secret");
    mgr.set_setting(SETTING_SYSTEM_PROMPT, "Новый промпт.");
    let s = mgr.effective_settings();
    assert_eq!(s.model, "other");
    assert_eq!(s.base_url, "http://localhost");
    assert_eq!(s.api_key, "secret");
    assert_eq!(mgr.effective_system_prompt(), "Новый промпт.");
    let snap = mgr.settings_snapshot();
    assert!(snap.is_overridden(SETTING_MODEL));
    assert_eq!(snap.default_model, "gpt");
    assert!(mgr.reset_setting(SETTING_MODEL));
    assert!(!mgr.reset_setting(SETTING_MODEL));
    assert_eq!(mgr.effective_settings().model, "gpt");
    assert!(!mgr.settings_snapshot().is_overridden(SETTING_MODEL));
}

#[test]
fn limits_of_a_manager() {
    let mut mgr = manager();
    assert_eq!(mgr.rate_limit_max(), 2);
    assert_eq!(mgr.rate_limit_window_secs(), 60);
    assert_eq!(mgr.user_memory_tokens(), 5000);
    assert!(mgr.check_rate_limit(1, 0));
    assert_eq!(mgr.rate_limit_remaining(1, 0), 1);
    assert!(mgr.check_rate_limit(1, MINUTE - 1));
    assert!(!mgr.check_rate_limit(1, MINUTE - 1));
    assert!(mgr.check_rate_limit(1, MINUTE));
    assert_eq!(mgr.memory_limit_bytes(), 1000);
    assert!(!mgr.over_limit(950));
    assert!(mgr.over_limit(951));
    assert_eq!(mgr.check_global_limit(0, 950), LimitStep::Done(0));
    assert_eq!(mgr.check_global_limit(0, 951), LimitStep::Vacuum(1));
}

#[test]
fn guides_of_a_manager() {
    let mut mgr = manager();
    assert_eq!(mgr.add_guide("rust", 1, "cargo", 1).unwrap(), 1);
    assert_eq!(
        mgr.add_guide("rust", 1, "cargo", 2),
        Err("гайд с таким названием уже существует".to_string())
    );
    assert_eq!(mgr.add_guide("go", 1, " ", 2), Err("текст гайда пуст".to_string()));
    assert_eq!(mgr.guides().len(), 1);
    assert_eq!(mgr.find_guide("rust"), Some(1));
    assert!(mgr.delete_guide(1));
    assert!(!mgr.delete_guide(1));
    assert_eq!(mgr.store().guides_count(), 0);
}
