use free_agent::messages::{provider_error_for_status, LlmResponse, ProviderError, Usage};
use free_agent::pool::AttemptOutcome;
use free_agent::{KeyPool, ProviderPool};

fn key(s: &str) -> String {
    s.to_string()
}

fn response(text: &str) -> LlmResponse {
    LlmResponse {
        content: Some(text.to_string()),
        tool_calls: Vec::new(),
        usage: Usage { prompt_tokens: 1, completion_tokens: 1 },
    }
}

fn ok(text: &str) -> AttemptOutcome {
    AttemptOutcome::Success(response(text))
}

fn rate_limited() -> AttemptOutcome {
    AttemptOutcome::Failure(ProviderError::RateLimited)
}

fn auth_error() -> AttemptOutcome {
    AttemptOutcome::Failure(ProviderError::AuthError("HTTP 401".to_string()))
}

fn request_error() -> AttemptOutcome {
    AttemptOutcome::Failure(ProviderError::RequestError("boom".to_string()))
}

#[test]
fn rotation_cycles_through_every_key() {
    let mut pool = KeyPool::new(vec![key("k1"), key("k2"), key("k3")]);
    assert_eq!(pool.len(), 3);
    assert!(!pool.is_empty());
    let first_round: Vec<String> = (0..3).map(|_| pool.next_key().unwrap()).collect();
    assert_eq!(first_round, vec!["k1", "k2", "k3"]);
    // the fourth draw repeats the first: the cycle has period three
    assert_eq!(pool.next_key().unwrap(), "k1");
}

#[test]
fn rotation_on_empty_pool_yields_nothing() {
    let mut pool = KeyPool::new(Vec::new());
    assert!(pool.is_empty());
    assert_eq!(pool.len(), 0);
    assert!(pool.next_key().is_none());
}

#[test]
fn rate_limited_keys_fall_through_to_next_provider() {
    // providers [openai with 2 keys, gemini with 1 key], default openai:
    // both openai keys rate limited, gemini answers on its first try
    let mut pool = ProviderPool::new(
        vec![key("c1"), key("c2")],
        vec![key("g1")],
        Vec::new(),
        Vec::new(),
        "openai",
    );
    let outcomes = vec![rate_limited(), rate_limited(), ok("answer")];
    let (result, attempts) = pool.chat(&outcomes);
    let (resp, name) = result.expect("gemini should have answered");
    assert_eq!(name, "gemini");
    assert_eq!(resp.content.as_deref(), Some("answer"));
    assert!(attempts <= 3);
    assert_eq!(attempts, 3);
}

#[test]
fn auth_error_abandons_provider_without_retrying_its_keys() {
    // openai has a second key, but an auth failure skips straight to gemini
    let mut pool = ProviderPool::new(
        vec![key("c1"), key("c2")],
        vec![key("g1")],
        Vec::new(),
        Vec::new(),
        "openai",
    );
    let outcomes = vec![auth_error(), ok("from-b"), rate_limited()];
    let (result, attempts) = pool.chat(&outcomes);
    let (_, name) = result.expect("gemini should have answered");
    assert_eq!(name, "gemini");
    assert_eq!(attempts, 2);
}

#[test]
fn total_exhaustion_is_a_terminal_error_within_key_budget() {
    let mut pool = ProviderPool::new(
        vec![key("c1"), key("c2")],
        vec![key("g1")],
        Vec::new(),
        Vec::new(),
        "openai",
    );
    let outcomes = vec![rate_limited(), request_error(), rate_limited()];
    let (result, attempts) = pool.chat(&outcomes);
    match result {
        Err(ProviderError::RequestError(msg)) => assert_eq!(msg, "All providers failed"),
        other => panic!("expected the terminal error, got {:?}", other),
    }
    assert!(attempts <= 3);
}

#[test]
fn empty_pool_reports_no_keys() {
    let mut pool = ProviderPool::new(Vec::new(), Vec::new(), Vec::new(), Vec::new(), "openai");
    let outcomes: Vec<AttemptOutcome> = Vec::new();
    let (result, attempts) = pool.chat(&outcomes);
    assert!(matches!(result, Err(ProviderError::NoKeysConfigured)));
    assert_eq!(attempts, 0);
}

#[test]
fn default_provider_is_tried_first() {
    let mut pool = ProviderPool::new(
        vec![key("c1")],
        vec![key("g1")],
        vec![key("q1")],
        Vec::new(),
        "groq",
    );
    let outcomes = vec![ok("hi"), ok("x"), ok("y")];
    let (result, attempts) = pool.chat(&outcomes);
    let (_, name) = result.unwrap();
    assert_eq!(name, "groq");
    assert_eq!(attempts, 1);
    let order = pool.provider_order();
    assert_eq!(order, vec![2, 0, 1]);
}

#[test]
fn unknown_default_falls_back_to_first_provider() {
    let mut pool = ProviderPool::new(
        vec![key("c1")],
        vec![key("g1")],
        Vec::new(),
        Vec::new(),
        "nonesuch",
    );
    let outcomes = vec![ok("hi"), ok("x")];
    let (result, _) = pool.chat(&outcomes);
    assert_eq!(result.unwrap().1, "openai");
}

#[test]
fn available_providers_lists_configured_backends() {
    let pool = ProviderPool::new(
        vec![key("c1")],
        Vec::new(),
        vec![key("q1")],
        vec![key("m1")],
        "openai",
    );
    assert_eq!(pool.available_providers(), vec!["openai", "groq", "mistral"]);
}

#[test]
fn explicit_provider_is_tried_once_then_pool_takes_over() {
    let mut pool = ProviderPool::new(
        vec![key("c1")],
        vec![key("g1")],
        Vec::new(),
        Vec::new(),
        "openai",
    );
    // the named provider fails once; the fallback then walks the pool
    // default-first, trying openai again before gemini
    let outcomes = vec![rate_limited(), ok("recovered"), ok("spare")];
    let (result, attempts) = pool.chat_with_provider("gemini", &outcomes);
    let (resp, name) = result.unwrap();
    assert_eq!(name, "openai");
    assert_eq!(resp.content.as_deref(), Some("recovered"));
    assert_eq!(attempts, 2);
}

#[test]
fn explicit_provider_success_short_circuits() {
    let mut pool = ProviderPool::new(
        vec![key("c1")],
        vec![key("g1")],
        Vec::new(),
        Vec::new(),
        "openai",
    );
    let outcomes = vec![ok("direct"), ok("unused")];
    let (result, attempts) = pool.chat_with_provider("gemini", &outcomes);
    let (resp, name) = result.unwrap();
    assert_eq!(name, "gemini");
    assert_eq!(resp.content.as_deref(), Some("direct"));
    assert_eq!(attempts, 1);
}

#[test]
fn status_codes_classify_as_the_adapters_must() {
    assert!(matches!(
        provider_error_for_status(429, "d".to_string()),
        Some(ProviderError::RateLimited)
    ));
    assert!(matches!(
        provider_error_for_status(401, "d".to_string()),
        Some(ProviderError::AuthError(_))
    ));
    assert!(matches!(
        provider_error_for_status(403, "d".to_string()),
        Some(ProviderError::AuthError(_))
    ));
    assert!(provider_error_for_status(200, "d".to_string()).is_none());
    assert!(provider_error_for_status(204, "d".to_string()).is_none());
    assert!(matches!(
        provider_error_for_status(500, "d".to_string()),
        Some(ProviderError::RequestError(_))
    ));
}
