use kostubet_ai::llm::client;
use kostubet_ai::llm::prompt::build_messages;
use kostubet_ai::llm::prompt::format_knowledge;
use kostubet_ai::llm::prompt::signed_text;
use kostubet_ai::llm::prompt::PromptParts;
use kostubet_ai::llm::prompt::META_INSTRUCTION;
use kostubet_ai::llm::sse::SseBuffer;
use kostubet_ai::llm::sse::SseStep;
use kostubet_ai::llm::state::BadModelIndex;
use kostubet_ai::llm::state::ModelState;
use kostubet_ai::llm::ChatCall;
use kostubet_ai::llm::ChatMessage;
use kostubet_ai::llm::LlmClient;
use kostubet_ai::llm::LlmError;
use kostubet_ai::llm::RequestStep;
use kostubet_ai::storage::Role;
use kostubet_ai::storage::StoredMessage;
use kostubet_ai::storage::UserState;

#[test]
fn build_chat_url_normalizes_paths() {
    assert_eq!(
        LlmClient::build_chat_url("https://api.openai.com/v1"),
        "https://api.openai.com/v1/chat/completions"
    );
    assert_eq!(
        LlmClient::build_chat_url("https://api.openai.com/v1/"),
        "https://api.openai.com/v1/chat/completions"
    );
    assert_eq!(
        LlmClient::build_chat_url("https://api.openai.com/v1/chat/completions"),
        "https://api.openai.com/v1/chat/completions"
    );
    assert_eq!(
        LlmClient::build_chat_url("http://localhost:11434/v1/"),
        "http://localhost:11434/v1/chat/completions"
    );
}

#[test]
fn api_error_extracts_json_message() {
    let err = LlmError::Api {
        status: 401,
        body: r#"{"error": {"message": "Incorrect API key provided", "type": "invalid_request_error"}}"#.into(),
    };
    assert_eq!(err.to_string(), "API вернул ошибку 401: Incorrect API key provided");
}

#[test]
fn chat_url_normalization() {
    let c = client::LlmClient::new("https://api.openai.com/v1/", "k");
    assert_eq!(c.chat_url(), "https://api.openai.com/v1/chat/completions");
    let c = client::LlmClient::new("https://gw.ai/v1/chat/completions", "k");
    assert_eq!(c.chat_url(), "https://gw.ai/v1/chat/completions");
}

#[test]
fn api_error_message_extracted() {
    let e = client::LlmClient::parse_api_error(
        429,
        r#"{"error": {"message": "rate limited"}}"#,
    );
    match &e {
        client::LlmError::Api { status, body } => {
            assert_eq!(*status, 429);
            assert_eq!(body, "rate limited");
            assert!(e.retryable());
        }
        _ => panic!("wrong variant"),
    }
}

#[test]
fn full_composition() {
    let states = vec![UserState {
        user_id: 1,
        display_name: "vasya".into(),
        goal: "прошить".into(),
        current: "adb ok".into(),
    }];
    let history = vec![
        StoredMessage { user_id: 1, display_name: "vasya".into(), role: Role::User, content: "привет".into() },
        StoredMessage { user_id: 0, display_name: String::new(), role: Role::Assistant, content: "о".into() },
    ];
    let msgs = build_messages(PromptParts {
        system_prompt: "Ты бот.",
        knowledge: "▪ Загрузчик\nfastboot",
        user_states: &states,
        history: &history,
        user_message: "что дальше?",
    });

    assert_eq!(msgs.len(), 4);
    let sys = &msgs[0];
    assert_eq!(sys.role, "system");
    assert!(sys.content.starts_with("Ты бот."));
    assert!(sys.content.contains("▪ Загрузчик"));
    assert!(sys.content.contains("<user:@vasya goal=\"прошить\" current=\"adb ok\" id=1>"));
    assert!(sys.content.contains("Учитывай текущие мета-состояния"));
    assert_eq!(msgs[1].content, "vasya (id=1): привет");
    assert_eq!(msgs[2].role, "assistant");
    assert_eq!(msgs[3].content, "что дальше?");
}

#[test]
fn minimal_composition() {
    let msgs = build_messages(PromptParts {
        system_prompt: "s",
        knowledge: "  ",
        user_states: &[],
        history: &[],
        user_message: "q",
    });
    assert_eq!(msgs.len(), 2);
    assert!(!msgs[0].content.contains("База знаний"));
    assert!(!msgs[0].content.contains("user context"));
}

#[test]
fn switch_and_read() {
    let mut st = ModelState::new(vec!["a".into(), "b".into()]);
    assert_eq!(st.current(), "a");
    assert_eq!(st.set_index(1).unwrap(), "b");
    assert_eq!(st.current(), "b");
    assert!(st.set_index(2).is_err());
    assert_eq!(st.current(), "b");
}

#[test]
fn a_wrong_index_is_explained() {
    let mut st = ModelState::new(vec!["a".into(), "b".into()]);
    let e = st.set_index(7).unwrap_err();
    assert_eq!(e, BadModelIndex(7, 2));
    assert_eq!(e.to_string(), "индекс модели 7 вне списка из 2 моделей");
    assert_eq!(st.active_index(), 0);
    assert_eq!(st.list().len(), 2);
    assert_eq!(ModelState::new(Vec::new()).current(), "");
}

#[test]
fn the_system_message_is_put_together() {
    let states = vec![UserState { user_id: 5, ..Default::default() }];
    let msgs = build_messages(PromptParts {
        system_prompt: " Ты бот.\n",
        knowledge: " карточка ",
        user_states: &states,
        history: &[],
        user_message: "q",
    });
    assert_eq!(
        msgs[0].content,
        format!(
            "Ты бот.\n\n— База знаний —\nкарточка\n— Конец базы знаний —\n\n— Контекст участников (user context) —\n<user:@ id=5>\n{}",
            META_INSTRUCTION
        )
    );
    assert_eq!(signed_text(0, "A", "x"), "A: x");
    assert_eq!(signed_text(7, "", "x"), "x");
}

#[test]
fn knowledge_is_formatted() {
    assert_eq!(format_knowledge(&[]), "");
    assert_eq!(format_knowledge(&[("A", "b"), ("C", "d")]), "▪ A\nb\n\n▪ C\nd\n");
}

#[test]
fn errors_are_explained() {
    assert_eq!(LlmError::Http("нет сети".into()).to_string(), "сетевая ошибка: нет сети");
    assert_eq!(LlmError::Parse("x".into()).to_string(), "не удалось разобрать ответ: x");
    assert_eq!(LlmError::Empty.to_string(), "модель вернула пустой ответ");
    let text = LlmError::Api { status: 500, body: r#"{"error": "busy"}"#.into() };
    assert_eq!(text.to_string(), "API вернул ошибку 500: busy");
    let raw = LlmError::Api { status: 502, body: "я".repeat(400) };
    assert_eq!(raw.to_string(), format!("API вернул ошибку 502: {}", "я".repeat(300)));
    assert_eq!(client::LlmError::Http("e".into()).to_string(), "сеть/транспорт: e");
    assert_eq!(
        client::LlmError::Api { status: 400, body: "b".into() }.to_string(),
        "API вернул 400: b"
    );
    assert_eq!(client::LlmError::Empty.to_string(), "модель вернула пустой ответ");
}

#[test]
fn hints_for_the_chat() {
    assert_eq!(
        client::LlmError::Http("e".into()).user_hint(),
        "Не получилось связаться с моделью, попробуй ещё раз."
    );
    let busy = client::LlmError::Api { status: 429, body: String::new() };
    assert_eq!(busy.user_hint(), "Модель перегружена, попробуй через минуту.");
    let bad = client::LlmError::Api { status: 400, body: String::new() };
    assert_eq!(bad.user_hint(), "Модель ответила ошибкой, попробуй ещё раз.");
    assert!(!bad.retryable());
    assert_eq!(client::LlmError::Empty.user_hint(), "Модель вернула пустой ответ.");
    assert!(!client::LlmError::Empty.retryable());
    assert!(!client::LlmError::Api { status: 499, body: String::new() }.retryable());
    assert!(!client::LlmError::Api { status: 600, body: String::new() }.retryable());
    assert!(client::LlmError::Api { status: 599, body: String::new() }.retryable());
    assert!(busy.retryable());
    assert!(client::LlmError::Api { status: 503, body: String::new() }.retryable());
}

#[test]
fn messages_have_roles() {
    let m = ChatMessage::user_named("Алиса", "привет");
    assert_eq!(m.role, "user");
    assert_eq!(m.content, "Алиса: привет");
    assert_eq!(ChatMessage::system("s".into()).role, "system");
    assert_eq!(ChatMessage::assistant("a".into()).role, "assistant");
    assert_eq!(ChatMessage::user("u".into()).content, "u");
}

#[test]
fn a_client_waits_only_so_long() {
    let c = LlmClient::new();
    assert_eq!(c.connect_timeout_secs, 15);
    assert_eq!(c.timeout_secs, 180);
}

#[test]
fn failed_requests_are_tried_again() {
    let mut call = LlmClient::new().chat();
    for ms in [1500, 3000, 6000, 12000] {
        match call.on_response(429, "busy".into()) {
            RequestStep::Retry(wait) => assert_eq!(wait, ms),
            _ => panic!("no retry"),
        }
    }
    match call.on_network_error("down".into()) {
        RequestStep::Fail(LlmError::Http(e)) => assert_eq!(e, "down"),
        _ => panic!("no failure"),
    }
    let mut call = LlmClient::new().chat();
    assert!(matches!(call.on_network_error("down".into()), RequestStep::Retry(1500)));
    assert!(matches!(call.on_response(200, String::new()), RequestStep::Read));
    let mut call = LlmClient::new().chat();
    match call.on_response(401, "no".into()) {
        RequestStep::Fail(LlmError::Api { status, body }) => {
            assert_eq!(status, 401);
            assert_eq!(body, "no");
        }
        _ => panic!("no failure"),
    }
}

#[test]
fn answers_are_trimmed() {
    assert_eq!(ChatCall::answer(Some("  да \n".into())).unwrap(), "да");
    assert!(matches!(ChatCall::answer(Some(" ".into())), Err(LlmError::Empty)));
    assert!(matches!(ChatCall::answer(None), Err(LlmError::Empty)));
}

#[test]
fn a_stream_is_read_event_by_event() {
    let mut call = LlmClient::new().stream_chat();
    assert!(matches!(call.connection.on_response(200, String::new()), RequestStep::Read));
    call.answer.push("data: {\"a\":1}\n\ndata: ".as_bytes());
    assert_eq!(call.answer.next_payload(), Some("{\"a\":1}".to_string()));
    assert_eq!(call.answer.next_payload(), None);
    let deltas = call.answer.absorb(vec![Some("Привет".into()), None, Some(String::new()), Some("!".into())]);
    assert_eq!(deltas, vec!["Привет", "!"]);
    assert_eq!(call.answer.finish(), Some("Привет!".to_string()));
    let empty = LlmClient::new().stream_chat();
    assert_eq!(empty.answer.finish(), None);
}

#[test]
fn lines_of_a_stream() {
    let mut b = SseBuffer::new();
    b.push(": comment\ndata: x\r\n".as_bytes());
    match b.next() {
        SseStep::Data(d) => assert_eq!(d, "x"),
        _ => panic!("no data"),
    }
    assert!(matches!(b.next(), SseStep::Wait));
    b.push_text("data: [DONE]\n");
    assert!(matches!(b.next(), SseStep::Done));
}

fn event(text: &str) -> String {
    format!("data: {{\"choices\":[{{\"delta\":{{\"content\":\"{text}\"}}}}]}}\n\n")
}

#[test]
fn a_stream_may_be_cut_anywhere() {
    let stream = event("При") + &event("вет") + "data: [DONE]\n";
    let bytes = stream.as_bytes();
    let mut cut = 0;
    while cut <= bytes.len() {
        if stream.is_char_boundary(cut) {
            let mut answer = client::StreamedAnswer::new();
            let (mut pieces, first_done) = answer.attempt_stream(&bytes[..cut]);
            if !first_done {
                let (more, done) = answer.attempt_stream(&bytes[cut..]);
                pieces.extend(more);
                assert!(done);
            }
            assert_eq!(pieces, vec!["При", "вет"]);
            assert_eq!(answer.text(), "Привет");
        }
        cut += 1;
    }
}

#[test]
fn bad_events_are_passed_over() {
    let mut answer = client::StreamedAnswer::new();
    let (pieces, done) = answer.attempt_stream("data: nonsense\ndata: {}\n".as_bytes());
    assert!(pieces.is_empty());
    assert!(!done);
    assert_eq!(answer.accept(Some("x".into())), Some("x".to_string()));
    assert_eq!(answer.accept(None), None);
    assert_eq!(answer.text(), "x");
}

#[test]
fn streaming_falls_back_and_gives_up() {
    let c = client::LlmClient::new("https://api.example.com", "key");
    assert_eq!(c.api_key(), "key");
    let mut call = c.stream_chat();
    assert!(matches!(call.on_stream_end(" ".into()), client::CallStep::Plain));
    match call.on_stream_end("ответ".into()) {
        client::CallStep::Answer(a) => assert_eq!(a, "ответ"),
        _ => panic!("no answer"),
    }
    assert!(matches!(
        call.on_plain("".into()),
        client::CallStep::Fail(client::LlmError::Empty)
    ));
    assert!(matches!(
        call.on_error(client::LlmError::Http("e".into())),
        client::CallStep::Retry(1500)
    ));
    assert!(matches!(
        call.on_error(client::LlmError::Api { status: 500, body: String::new() }),
        client::CallStep::Retry(3000)
    ));
    assert!(matches!(
        call.on_error(client::LlmError::Http("e".into())),
        client::CallStep::Fail(client::LlmError::Http(_))
    ));
    let mut call = c.stream_chat();
    match call.on_error(client::LlmError::Api { status: 401, body: "no".into() }) {
        client::CallStep::Fail(client::LlmError::Api { status, .. }) => assert_eq!(status, 401),
        _ => panic!("no failure"),
    }
    match call.on_plain("да".into()) {
        client::CallStep::Answer(a) => assert_eq!(a, "да"),
        _ => panic!("no answer"),
    }
}

#[test]
fn plain_answers_are_read() {
    let body = r#"{"choices":[{"message":{"content":"ответ"}}]}"#;
    assert_eq!(client::LlmClient::attempt_plain(200, body).unwrap(), "ответ");
    assert_eq!(client::LlmClient::attempt_plain(200, "{}").unwrap(), "");
    match client::LlmClient::attempt_plain(200, "<html>") {
        Err(client::LlmError::Api { status, body }) => {
            assert_eq!(status, 200);
            assert_eq!(body, "<html>");
        }
        _ => panic!("no error"),
    }
    match client::LlmClient::attempt_plain(500, r#"{"message":"down"}"#) {
        Err(client::LlmError::Api { status, body }) => {
            assert_eq!(status, 500);
            assert_eq!(body, "down");
        }
        _ => panic!("no error"),
    }
}
