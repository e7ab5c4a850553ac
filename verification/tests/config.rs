use kostubet_ai::config::Config;
use kostubet_ai::config::Env;
use kostubet_ai::config::DEFAULT_SYSTEM_PROMPT;

fn env(vars: &[(&str, &str)]) -> Env {
    Env::new(vars.iter().map(|(k, v)| (k.to_string(), v.to_string())).collect())
}

fn config(vars: &[(&str, &str)]) -> Config {
    match Config::from_env(&env(vars)) {
        Ok(cfg) => cfg,
        Err(e) => panic!("{}", e),
    }
}

fn error(vars: &[(&str, &str)]) -> String {
    match Config::from_env(&env(vars)) {
        Ok(_) => panic!("the configuration is accepted"),
        Err(e) => e,
    }
}

#[test]
fn env_parsing_scenarios() {
    let cfg = config(&[
        ("BOT_TOKEN", "t"),
        ("LLM_API_KEY", "k"),
        ("LLM_MODELS", " gpt-a , gpt-b ,,"),
    ]);
    assert_eq!(cfg.models, vec!["gpt-a", "gpt-b"]);

    assert!(Config::from_env(&env(&[
        ("BOT_TOKEN", "t"),
        ("LLM_API_KEY", "k"),
        ("LLM_MODELS", " , "),
    ]))
    .is_err());

    let cfg = config(&[
        ("BOT_TOKEN", "t"),
        ("LLM_API_KEY", "k"),
        ("LLM_MODELS", "m"),
        ("MESSAGE_WINDOW_TOKENS", "10"),
        ("TEMPERATURE", "99"),
    ]);
    assert_eq!(cfg.message_window_tokens, 500);

    let cfg = config(&[
        ("BOT_TOKEN", "t"),
        ("LLM_API_KEY", "k"),
        ("LLM_MODELS", "m"),
        ("ADMINS", " 1 , x , 42"),
    ]);
    assert!(cfg.is_admin(1));
    assert!(cfg.is_admin(42));
    assert!(!cfg.is_admin(7));
}

#[test]
fn missing_variables_are_named() {
    assert_eq!(
        error(&[("LLM_API_KEY", "k"), ("LLM_MODELS", "m")]),
        "Отсутствует обязательная переменная BOT_TOKEN"
    );
    assert_eq!(
        error(&[("BOT_TOKEN", "t"), ("LLM_MODELS", "m")]),
        "Отсутствует обязательная переменная LLM_API_KEY"
    );
    assert_eq!(
        error(&[("BOT_TOKEN", "t"), ("LLM_API_KEY", "k")]),
        "LLM_MODELS: укажи хотя бы одну модель через запятую"
    );
}

#[test]
fn defaults_without_variables() {
    let cfg = config(&[("BOT_TOKEN", "t"), ("LLM_API_KEY", "k"), ("LLM_MODELS", "m")]);
    assert_eq!(cfg.llm_base_url, "https://api.openai.com/v1");
    assert_eq!(cfg.db_path, "data/kostubetai.db");
    assert_eq!(cfg.knowledge_dir, "knowledge");
    assert_eq!(cfg.models_cache_dir, "data/models");
    assert_eq!(cfg.message_window_tokens, 4000);
    assert_eq!(cfg.user_meta_chars, 600);
    assert_eq!(cfg.max_reply_tokens, 1200);
    assert_eq!(cfg.max_concurrent_requests, 5);
    assert_eq!(cfg.rate_limit_requests, 30);
    assert!(cfg.admins.is_empty());
    assert!(!cfg.is_admin(1));
    assert!(cfg.is_chat_allowed(-100));
    assert!(cfg.is_thread_allowed(3));
    assert!(DEFAULT_SYSTEM_PROMPT.starts_with("# РОЛЬ"));
}

#[test]
fn numbers_stay_within_bounds() {
    let base = [("BOT_TOKEN", "t"), ("LLM_API_KEY", "k"), ("LLM_MODELS", "m")];
    for text in ["0", "1", "99999999", "-5", "abc", ""] {
        let mut vars = base.to_vec();
        vars.push(("MESSAGE_WINDOW_TOKENS", text));
        vars.push(("MAX_REPLY_TOKENS", text));
        let cfg = config(&vars);
        assert!(500 <= cfg.message_window_tokens && cfg.message_window_tokens <= 100_000);
        assert!(100 <= cfg.max_reply_tokens && cfg.max_reply_tokens <= 8000);
    }
}

#[test]
fn listed_chats_and_threads_only() {
    let cfg = config(&[
        ("BOT_TOKEN", "t"),
        ("LLM_API_KEY", "k"),
        ("LLM_MODELS", "m"),
        ("ALLOWED_CHATS", "-100, 5"),
        ("ALLOWED_THREADS", "7"),
        ("LOREBOOK_DIR", "lore"),
    ]);
    assert!(cfg.is_chat_allowed(-100));
    assert!(cfg.is_chat_allowed(5));
    assert!(!cfg.is_chat_allowed(6));
    assert!(cfg.is_thread_allowed(7));
    assert!(!cfg.is_thread_allowed(0));
    assert_eq!(cfg.knowledge_dir, "lore");
}

#[test]
fn numbers_of_the_knowledge_base_are_clamped() {
    let base = [("BOT_TOKEN", "t"), ("LLM_API_KEY", "k"), ("LLM_MODELS", "m")];
    let with = |extra: &[(&'static str, &'static str)]| {
        let mut vars = base.to_vec();
        vars.extend_from_slice(extra);
        let cfg = config(&vars);
        (cfg.knowledge_top_n, cfg.knowledge_max_chars)
    };
    assert_eq!(with(&[("KNOWLEDGE_TOP_N", "1000"), ("KNOWLEDGE_MAX_CHARS", "1")]), (20, 200));
    assert_eq!(with(&[("KNOWLEDGE_TOP_N", "0"), ("KNOWLEDGE_MAX_CHARS", "99999")]), (1, 50_000));
    assert_eq!(with(&[("KNOWLEDGE_TOP_N", "7"), ("LOREBOOK_TOP_N", "9")]), (7, 4000));
    assert_eq!(with(&[("KNOWLEDGE_TOP_N", "x"), ("LOREBOOK_TOP_N", "90")]), (20, 4000));
    assert_eq!(with(&[]), (4, 4000));
}
