use localchat::{
    chat_completions_url, classify_key_ref, default_model_config, find_model_config, new_conversation,
    keyring_service_name, model_name_of_options, prepare_turn_request, sanitize_title,
    system_prompt_content, title_system_prompt, title_user_prompt, trim_ws, trimmed_empty,
    truncate_for_regenerate, truncate_chars, user_message, validate_model_config, KeyRefKind,
    Message, ModelConfig, TurnSetupError,
};

fn message(id: u128, role: &str, content: &str) -> Message {
    Message {
        id,
        conversation_id: 1,
        role: role.to_string(),
        content: content.to_string(),
        timestamp: 0,
        metadata: None,
    }
}

fn config() -> ModelConfig {
    ModelConfig {
        id: 5,
        name: "My Model".to_string(),
        provider: "openai_compatible".to_string(),
        api_url: "https://api.example.com/v1/".to_string(),
        api_key_ref: Some("env:KEY".to_string()),
        provider_options: Some("{\"model\": \"gpt-4o-mini\"}".to_string()),
    }
}

#[test]
fn model_name_is_read_from_options() {
    let got = model_name_of_options(&Some("{\"model\": \"gpt-4o-mini\"}".to_string()));
    assert_eq!(got.unwrap(), "gpt-4o-mini");
}

#[test]
fn absent_options_miss_the_model() {
    assert!(matches!(
        model_name_of_options(&None),
        Err(TurnSetupError::ModelNameMissing)
    ));
}

#[test]
fn invalid_options_are_not_json() {
    assert!(matches!(
        model_name_of_options(&Some("not json".to_string())),
        Err(TurnSetupError::OptionsNotJson)
    ));
}

#[test]
fn non_string_model_is_missing() {
    assert!(matches!(
        model_name_of_options(&Some("{\"model\": 5}".to_string())),
        Err(TurnSetupError::ModelNameMissing)
    ));
}

#[test]
fn request_assembles_prompt_and_history() {
    let history = vec![message(1, "user", "hi"), message(2, "assistant", "hello")];
    let req = prepare_turn_request(&config(), &history).unwrap();
    assert_eq!(req.url, "https://api.example.com/v1/chat/completions");
    assert_eq!(req.model, "gpt-4o-mini");
    assert_eq!(req.messages.len(), 3);
    assert_eq!(req.messages[0], ("system".to_string(), "You are My Model.".to_string()));
    assert_eq!(req.messages[1], ("user".to_string(), "hi".to_string()));
    assert_eq!(req.messages[2], ("assistant".to_string(), "hello".to_string()));
}

#[test]
fn request_fails_without_model_name() {
    let mut c = config();
    c.provider_options = Some("{}".to_string());
    assert!(matches!(
        prepare_turn_request(&c, &vec![]),
        Err(TurnSetupError::ModelNameMissing)
    ));
}

#[test]
fn url_strips_every_trailing_slash() {
    assert_eq!(chat_completions_url("https://a//"), "https://a/chat/completions");
    assert_eq!(chat_completions_url("base"), "base/chat/completions");
}

#[test]
fn system_prompt_names_the_model() {
    assert_eq!(system_prompt_content("GPT"), "You are GPT.");
}

#[test]
fn regenerate_cuts_back_to_last_assistant() {
    let msgs = vec![
        message(1, "user", "q1"),
        message(2, "assistant", "a1"),
        message(3, "user", "q2"),
        message(4, "assistant", "a2"),
    ];
    let (hist, id) = truncate_for_regenerate(&msgs).unwrap();
    assert_eq!(id, 4);
    assert_eq!(hist.len(), 3);
    assert_eq!(hist[0].id, 1);
    assert_eq!(hist[1].id, 2);
    assert_eq!(hist[2].id, 3);
}

#[test]
fn regenerate_without_assistant_is_refused() {
    let msgs = vec![message(1, "user", "q1")];
    assert!(truncate_for_regenerate(&msgs).is_none());
}

#[test]
fn regenerate_skips_trailing_user_messages() {
    let msgs = vec![
        message(1, "user", "q1"),
        message(2, "assistant", "a1"),
        message(3, "user", "q2"),
    ];
    let (hist, id) = truncate_for_regenerate(&msgs).unwrap();
    assert_eq!(id, 2);
    assert_eq!(hist.len(), 1);
}

#[test]
fn find_config_returns_the_first_match() {
    let mut a = config();
    a.id = 1;
    let mut b = config();
    b.id = 2;
    b.name = "second".to_string();
    let configs = vec![a, b];
    assert_eq!(find_model_config(&configs, 2).unwrap().name, "second");
    assert!(find_model_config(&configs, 3).is_none());
}

#[test]
fn validation_requires_substance() {
    assert!(validate_model_config(&config()));
    let mut c = config();
    c.name = "   ".to_string();
    assert!(!validate_model_config(&c));
    let mut c = config();
    c.api_url = "".to_string();
    assert!(!validate_model_config(&c));
    let mut c = config();
    c.provider = "\t".to_string();
    assert!(!validate_model_config(&c));
}

#[test]
fn default_config_points_at_the_environment() {
    let c = default_model_config(99);
    assert_eq!(c.id, 99);
    assert_eq!(c.name, "Default OpenAI Compatible");
    assert_eq!(c.provider, "openai_compatible");
    assert_eq!(c.api_url, "https://api.openai.com/v1");
    assert_eq!(c.api_key_ref.as_deref(), Some("env:OPENAI_API_KEY"));
    assert_eq!(c.provider_options.as_deref(), Some("{\"model\": \"gpt-4o-mini\"}"));
}

#[test]
fn key_refs_classify_as_documented() {
    assert!(matches!(classify_key_ref(&None), KeyRefKind::Unset));
    assert!(matches!(
        classify_key_ref(&Some("keyring".to_string())),
        KeyRefKind::Keyring
    ));
    assert!(matches!(
        classify_key_ref(&Some("vault".to_string())),
        KeyRefKind::Unsupported
    ));
    match classify_key_ref(&Some("env:MY_KEY".to_string())) {
        KeyRefKind::Env(v) => assert_eq!(v, "MY_KEY"),
        other => panic!("expected env, got {:?}", other),
    }
}

#[test]
fn repeated_env_prefixes_are_stripped() {
    match classify_key_ref(&Some("env:env:FOO".to_string())) {
        KeyRefKind::Env(v) => assert_eq!(v, "FOO"),
        other => panic!("expected env, got {:?}", other),
    }
}

#[test]
fn keyring_service_is_prefixed() {
    assert_eq!(
        keyring_service_name("0000-1111"),
        "localchat_api_key-0000-1111"
    );
}

#[test]
fn titles_are_sanitized_and_bounded() {
    assert_eq!(sanitize_title("  \"hello world\"  ").as_deref(), Some("hello world"));
    assert_eq!(sanitize_title("\"\"").as_deref(), None);
    assert_eq!(sanitize_title("   ").as_deref(), None);
    assert_eq!(sanitize_title("exactly-thirty-bytes-in-title-").as_deref(), Some("exactly-thirty-bytes-in-title-"));
    assert_eq!(sanitize_title("exactly-thirty-one-bytes-title-").as_deref(), None);
}

#[test]
fn title_prompt_truncates_both_sides() {
    let long = "a".repeat(1001);
    let p = title_user_prompt(&long, "short");
    let expected = format!("User: {}\nAssistant: short\n\nTitle:", "a".repeat(1000));
    assert_eq!(p, expected);
}

#[test]
fn title_system_prompt_is_fixed() {
    assert!(title_system_prompt().starts_with("You are an expert conversation summarizer."));
    assert!(title_system_prompt().ends_with("no extra text or quotes."));
}

#[test]
fn truncate_keeps_short_strings() {
    assert_eq!(truncate_chars("abc", 5), "abc");
    assert_eq!(truncate_chars("abcdef", 3), "abc");
}

#[test]
fn trim_helpers_match_expectations() {
    assert_eq!(trim_ws("  x "), "x");
    assert!(trimmed_empty(" \t\r\n"));
    assert!(!trimmed_empty(" x "));
}

#[test]
fn new_conversations_start_as_new_chat() {
    let c = new_conversation(8, 9, 100);
    assert_eq!(c.id, 8);
    assert_eq!(c.title, "New Chat");
    assert_eq!(c.created_at, 100);
    assert_eq!(c.last_updated_at, 100);
    assert_eq!(c.model_config_id, 9);
}

#[test]
fn user_messages_carry_their_fields() {
    let m = user_message(3, 4, "hello".to_string(), 99);
    assert_eq!(m.conversation_id, 3);
    assert_eq!(m.id, 4);
    assert_eq!(m.role, "user");
    assert_eq!(m.content, "hello");
    assert_eq!(m.timestamp, 99);
    assert!(m.metadata.is_none());
}
