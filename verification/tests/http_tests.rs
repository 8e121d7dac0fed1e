use jf::config::RetryConfig;
use jf::error::{FetchError, TransportError};
use jf::http::{
    body_read_error, build_jina_url, classify_response, network_error, RetryState, RetryStep,
};

#[test]
fn test_build_jina_url_basic() {
    let url = build_jina_url("https://example.com", false, None);
    assert_eq!(url, "https://r.jina.ai/https://example.com");
}

#[test]
fn test_build_jina_url_with_wait() {
    let url = build_jina_url("https://example.com", true, None);
    assert!(url.contains("wait=true"));
}

#[test]
fn test_build_jina_url_with_selector() {
    let url = build_jina_url("https://example.com", false, Some("article"));
    assert!(url.contains("selector=article"));
}

#[test]
fn test_build_jina_url_with_wait_and_selector() {
    let url = build_jina_url("https://example.com", true, Some("article"));
    assert!(url.contains("wait=true"));
    assert!(url.contains("selector=article"));
}

#[test]
fn jina_urls_exactly() {
    assert_eq!(
        build_jina_url("https://a.b/c", true, Some("#main")),
        "https://r.jina.ai/https://a.b/c?wait=true&selector=#main"
    );
    assert_eq!(build_jina_url("https://a.b", true, None), "https://r.jina.ai/https://a.b?wait=true");
    assert_eq!(build_jina_url("https://a.b", false, Some("p")), "https://r.jina.ai/https://a.b?selector=p");
}

#[test]
fn responses_are_classified() {
    match classify_response(429, "slow down".to_string(), "https://a.b") {
        Err(FetchError::RateLimited { retry_after: None }) => {}
        other => panic!("{:?}", other),
    }
    match classify_response(502, "bad".to_string(), "https://a.b") {
        Err(FetchError::JinaService { status: 502, body }) => assert_eq!(body, "bad"),
        other => panic!("{:?}", other),
    }
    match classify_response(200, "Access Denied to you".to_string(), "https://a.b") {
        Err(FetchError::TargetSite { url, .. }) => assert_eq!(url, "https://a.b"),
        other => panic!("{:?}", other),
    }
    let body = "# Title\n\nA long and perfectly normal article about gardening.".to_string();
    assert_eq!(classify_response(204, body.clone(), "https://a.b").unwrap(), body);
    assert!(classify_response(301, body.clone(), "https://a.b").is_err());
}

#[test]
fn transport_and_read_errors() {
    let e = network_error("refused".to_string(), &TransportError { timeout: false, connect: true, builder: false, body: false, decode: false, redirect: false, status: None });
    match e {
        FetchError::Network { message, is_transient } => {
            assert_eq!(message, "refused");
            assert!(is_transient);
        }
        other => panic!("{:?}", other),
    }
    match body_read_error("eof") {
        FetchError::Network { message, is_transient } => {
            assert_eq!(message, "Failed to read response: eof");
            assert!(is_transient);
        }
        other => panic!("{:?}", other),
    }
}

fn server_error() -> FetchError {
    FetchError::JinaService { status: 503, body: "down".to_string() }
}

#[test]
fn retries_follow_the_backoff_until_exhausted() {
    let config = RetryConfig::for_flags(false, 3);
    let mut state = RetryState::new();
    let mut waits = Vec::new();
    loop {
        match state.record_failure(&config, server_error()) {
            RetryStep::Retry { backoff_ms } => waits.push(backoff_ms),
            RetryStep::GiveUp => break,
        }
    }
    assert_eq!(waits, vec![500, 1000, 2000]);
    assert_eq!(state.attempt, 3);
    match state.into_error() {
        FetchError::JinaService { status, .. } => assert_eq!(status, 503),
        other => panic!("{:?}", other),
    }
}

#[test]
fn final_errors_are_not_retried() {
    let config = RetryConfig::for_flags(false, 3);
    let mut state = RetryState::new();
    let step = state.record_failure(&config, FetchError::JinaService { status: 404, body: String::new() });
    assert!(matches!(step, RetryStep::GiveUp));
    assert_eq!(state.attempt, 0);
    let step = state.record_failure(&config, FetchError::TargetSite { url: "u".into(), hint: "h".into() });
    assert!(matches!(step, RetryStep::GiveUp));
}

#[test]
fn no_retry_gives_up_at_once() {
    let config = RetryConfig::for_flags(true, 3);
    let mut state = RetryState::new();
    assert!(matches!(state.record_failure(&config, FetchError::RateLimited { retry_after: None }), RetryStep::GiveUp));
}

#[test]
fn success_counts_attempts() {
    let config = RetryConfig::default();
    let mut state = RetryState::new();
    assert!(matches!(state.record_failure(&config, FetchError::RateLimited { retry_after: None }), RetryStep::Retry { backoff_ms: 500 }));
    let result = state.succeed("# page".to_string(), "https://a.b", 42);
    assert_eq!(result.attempts, 2);
    assert_eq!(result.markdown, "# page");
    assert_eq!(result.original_url, "https://a.b");
    assert_eq!(result.response_time_ms, 42);
}

#[test]
fn giving_up_without_failure_is_unknown() {
    match RetryState::new().into_error() {
        FetchError::Network { message, is_transient } => {
            assert_eq!(message, "Unknown error");
            assert!(!is_transient);
        }
        other => panic!("{:?}", other),
    }
}
