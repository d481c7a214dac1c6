use ai_bridge::json::Json;
use ai_bridge::llm::{
    error_message, provider_kind, retry_after, wire_max_tokens, ApiError, AzureConfig, Message, OpenAIConfig,
    ProviderKind,
};

fn azure(endpoint: &str, deployment: &str, api_version: &str, api_key: &str) -> AzureConfig {
    AzureConfig {
        endpoint: endpoint.into(),
        deployment: deployment.into(),
        api_version: api_version.into(),
        api_key: api_key.into(),
    }
}

#[test]
fn azure_url_shape() {
    let cfg = azure("https://x.openai.azure.com/", "gpt-5", "2025-01-01", "k");
    assert_eq!(cfg.url(), "https://x.openai.azure.com/openai/deployments/gpt-5/chat/completions?api-version=2025-01-01");
}

#[test]
fn only_429_and_5xx_are_retried() {
    let e = |s| ApiError { provider: "azure".into(), status: s, message: String::new() };
    assert!(e(429).retryable());
    assert!(e(500).retryable());
    assert!(e(503).retryable());
    assert!(!e(400).retryable());
    assert!(!e(401).retryable());
}

#[test]
fn error_messages_are_extracted_from_json_or_passed_through() {
    let inner = Json::Object(vec![("message".to_string(), Json::Str("bad request".to_string()))]);
    let parsed = Some(Json::Object(vec![("error".to_string(), inner)]));
    assert_eq!(error_message(&parsed, r#"{"error":{"message":"bad request"}}"#), "bad request");
    assert_eq!(error_message(&None, "plain text error"), "plain text error");
}

#[test]
fn configs_reject_missing_required_fields() {
    assert!(azure("", "", "", "").validate().is_err());
    let empty = OpenAIConfig { base_url: String::new(), model: String::new(), api_key: String::new() };
    assert!(empty.validate().is_err());
    let c = OpenAIConfig { base_url: "http://localhost:11434/v1".into(), model: "llama3".into(), api_key: String::new() };
    assert!(c.validate().is_ok());
}

#[test]
fn azure_validation_names_the_first_missing_field() {
    let e = azure("https://x", "", "v", "k").validate().unwrap_err();
    assert!(e.starts_with("llm: "));
    assert!(azure("https://x", "d", "v", "k").validate().is_ok());
}

#[test]
fn openai_sends_no_empty_bearer() {
    let c = OpenAIConfig { base_url: "http://h/v1/".into(), model: "m".into(), api_key: String::new() };
    assert_eq!(c.authorization(), None);
    assert_eq!(c.url(), "http://h/v1/chat/completions");
    let k = OpenAIConfig { base_url: "http://h".into(), model: "m".into(), api_key: "sk".into() };
    assert_eq!(k.authorization(), Some("Bearer sk".to_string()));
}

#[test]
fn the_completion_budget_defaults_to_1024() {
    assert_eq!(wire_max_tokens(0), 1024);
    assert_eq!(wire_max_tokens(-5), 1024);
    assert_eq!(wire_max_tokens(400), 400);
}

#[test]
fn retries_wait_two_then_four_seconds_and_stop_at_the_third() {
    assert_eq!(retry_after(0, true), Some(2));
    assert_eq!(retry_after(1, true), Some(4));
    assert_eq!(retry_after(2, true), None);
    assert_eq!(retry_after(0, false), None);
}

#[test]
fn provider_is_chosen_by_name() {
    assert_eq!(provider_kind("").unwrap(), ProviderKind::Azure);
    assert_eq!(provider_kind("AZURE").unwrap(), ProviderKind::Azure);
    assert_eq!(provider_kind("openai").unwrap(), ProviderKind::OpenAI);
    assert_eq!(provider_kind("bogus").unwrap_err(), "llm: LLM_PROVIDER=\"bogus\" 는 지원하지 않습니다");
}

#[test]
fn messages_carry_their_role() {
    let m = Message::user("안녕".to_string());
    assert_eq!(m.role, "user");
    assert_eq!(m.content, Some("안녕".to_string()));
    assert_eq!(Message::system("s".to_string()).role, "system");
    assert_eq!(Message::assistant("a".to_string()).role, "assistant");
}

#[test]
fn api_errors_read_as_provider_status_and_message() {
    let e = ApiError { provider: "azure".into(), status: 429, message: "slow down".into() };
    assert_eq!(e.text(), "azure: HTTP 429: slow down");
}
