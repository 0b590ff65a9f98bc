use orange_yeoman::llm::providers::{provider_to_fetch, spec_for};
use orange_yeoman::llm::{select_provider, LlmError, LlmRequest, LlmRequestKind, LlmResponse, MockProvider};

// The structured result of a response, parsed from its JSON text.
fn result_json(response: &LlmResponse) -> serde_json::Value {
    serde_json::from_str(&response.result).expect("result is JSON")
}

fn request(kind: LlmRequestKind, user_prompt: &str) -> LlmRequest {
    LlmRequest {
        kind,
        model: None,
        system_prompt: None,
        user_prompt: user_prompt.to_string(),
        max_tokens: None,
    }
}

fn complete(kind: LlmRequestKind, user_prompt: &str) -> Result<LlmResponse, LlmError> {
    let provider = MockProvider::new();
    provider.complete(request(kind, user_prompt))
}

// Each request kind returns the same flat schema shape: a top-level
// schema_version, the mock marker, and readable placeholder text.
#[test]
fn each_request_kind_returns_correct_schema_shape() {
    for kind in [
        LlmRequestKind::Extraction,
        LlmRequestKind::FactCheck,
        LlmRequestKind::Research,
    ] {
        let response =
            complete(kind, "example prompt").expect("mock must succeed");
        let result = result_json(&response);
        assert_eq!(result["schema_version"], 1);
        assert_eq!(result["mock"], true);
        let text = result["text"]
            .as_str()
            .expect("text string");
        assert!(!text.is_empty(), "text must be non-empty");
        assert!(
            text.contains("Lorem ipsum"),
            "text must contain readable placeholder: {text}"
        );
    }
}

// Equivalent request kinds (same kind, same prompt) return the same stable
// response ID.
#[test]
fn equivalent_request_kinds_return_stable_response_ids() {
    let first = complete(LlmRequestKind::Research, "prompt one").expect("mock must succeed");
    let second = complete(LlmRequestKind::Research, "prompt one").expect("mock must succeed");
    assert_eq!(first.response_id, second.response_id);
    assert!(
        !first.response_id.is_empty(),
        "response ID must not be empty"
    );
}

// Different request kinds return different response IDs.
#[test]
fn different_request_kinds_return_different_response_ids() {
    let extraction = complete(LlmRequestKind::Extraction, "example").expect("mock must succeed");
    let fact_check = complete(LlmRequestKind::FactCheck, "example").expect("mock must succeed");
    let research = complete(LlmRequestKind::Research, "example").expect("mock must succeed");

    assert_ne!(extraction.response_id, fact_check.response_id);
    assert_ne!(fact_check.response_id, research.response_id);
    assert_ne!(extraction.response_id, research.response_id);
}

// An empty or whitespace-only user prompt is rejected with a safe error, and
// the error text never echoes the prompt.
#[test]
fn empty_user_prompt_is_rejected() {
    for prompt in ["", "   ", "\n\t "] {
        let err =
            complete(LlmRequestKind::Research, prompt).expect_err("empty prompt must be rejected");
        assert!(matches!(err, LlmError::EmptyUserPrompt));
        assert!(
            err.message().contains("user prompt must not be empty"),
            "unexpected error text: {}",
            err.message()
        );
    }
}

// Arbitrary prompt content is never copied into the mock result.
#[test]
fn arbitrary_prompt_content_is_not_copied_into_result() {
    let marker = "ZYXW-PROMPT-MARKER-9876";
    let response = complete(LlmRequestKind::Research, marker).expect("mock must succeed");
    let serialized = response.result.clone();
    assert!(
        !serialized.contains(marker),
        "prompt content leaked into result: {serialized}"
    );
}

// Mock usage is present and non-negative.
#[test]
fn mock_usage_is_present_and_non_negative() {
    let response = complete(LlmRequestKind::Extraction, "example").expect("mock must succeed");
    assert!(
        response.usage.input_tokens > 0,
        "input tokens must be present"
    );
    assert!(
        response.usage.output_tokens > 0,
        "output tokens must be present"
    );
}

// An API-key-like secret supplied in the prompt never reaches the result or
// any error string produced by the mock.
#[test]
fn secret_in_prompt_never_reaches_result_or_error() {
    let secret = "sk-live-secret-1234";
    let prompt = format!("check this claim {secret}");
    let response = complete(LlmRequestKind::Research, &prompt).expect("mock must succeed");
    let serialized = format!("{response:?}");
    assert!(
        !serialized.contains(secret),
        "secret leaked into response: {serialized}"
    );

    // The sanitized error path scrubs key-like tokens even if a provider
    // passes a raw secret through.
    let err = LlmError::Provider(format!("request failed with {secret}"));
    assert!(
        !err.message().contains(secret),
        "secret leaked into error: {}",
        err.message()
    );
    assert!(
        err.message().contains("sk-[REDACTED]"),
        "redaction marker missing: {}",
        err.message()
    );
}

// select_provider(true) installs the mock, which completes successfully.
#[test]
fn select_provider_true_uses_mock() {
    let provider = select_provider(true);
    let response = provider
        .complete(request(LlmRequestKind::Research, "prompt"))
        .expect("mock provider must succeed");
    assert_eq!(result_json(&response)["mock"], true);
}

// select_provider(false) installs the real provider stub. A non-empty
// prompt returns the not-yet-available error; an empty prompt returns
// EmptyUserPrompt. The error text never echoes the prompt.
#[test]
fn select_provider_false_real_provider_errors() {
    let provider = select_provider(false);
    let err = provider
        .complete(request(LlmRequestKind::Research, "prompt"))
        .expect_err("real provider stub must error");
    assert!(matches!(err, LlmError::Provider(_)));
    let msg = err.message();
    assert!(msg.contains("not yet available"), "unexpected error: {msg}");
    assert!(!msg.contains("prompt"), "error echoes prompt: {msg}");

    let empty_err = provider
        .complete(request(LlmRequestKind::Research, "   "))
        .expect_err("empty prompt must be rejected");
    assert!(matches!(empty_err, LlmError::EmptyUserPrompt));
}

// The catalog covers every provider the example config and the UI can
// name. Unknown provider keys resolve to None so validation treats them
// as unresolvable instead of guessing an endpoint.
#[test]
fn spec_for_covers_known_providers() {
    for provider in ["openai", "anthropic", "openrouter", "gemini", "deepseek"] {
        assert!(spec_for(provider).is_some(), "missing provider: {provider}");
    }
    assert!(spec_for("unknown-provider").is_none());
}

#[test]
fn provider_to_fetch_names_an_unknown_provider() {
    assert_eq!(provider_to_fetch("acme").unwrap_err(), "unknown provider: acme");
    assert_eq!(provider_to_fetch("openai").unwrap().models_url, "https://api.openai.com/v1/models");
}

#[test]
fn mock_result_has_no_kind_field() {
    let resp = MockProvider::new()
        .complete(LlmRequest {
            kind: LlmRequestKind::Research,
            model: None,
            system_prompt: None,
            user_prompt: "example".to_string(),
            max_tokens: None,
        })
        .unwrap();
    assert!(!resp.result.contains("\"kind\""));
    assert!(resp.result.contains("\"schema_version\":1"));
}
