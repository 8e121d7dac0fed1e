use jf::error::{detect_target_site_error, is_transient_error, FetchError, TransportError};
use reqwest::StatusCode;

#[test]
fn test_fetch_error_network_is_retryable() {
    let err = FetchError::Network {
        message: "timeout".to_string(),
        is_transient: true,
    };
    assert!(err.is_retryable());
}

#[test]
fn test_fetch_error_network_not_retryable() {
    let err = FetchError::Network {
        message: "invalid".to_string(),
        is_transient: false,
    };
    assert!(!err.is_retryable());
}

#[test]
fn test_fetch_error_500_is_retryable() {
    let err = FetchError::JinaService {
        status: StatusCode::INTERNAL_SERVER_ERROR.as_u16(),
        body: "error".to_string(),
    };
    assert!(err.is_retryable());
}

#[test]
fn test_fetch_error_404_is_not_retryable() {
    let err = FetchError::JinaService {
        status: StatusCode::NOT_FOUND.as_u16(),
        body: "not found".to_string(),
    };
    assert!(!err.is_retryable());
}

#[test]
fn test_fetch_error_target_site_not_retryable() {
    let err = FetchError::TargetSite {
        url: "https://example.com".to_string(),
        hint: "Cloudflare block".to_string(),
    };
    assert!(!err.is_retryable());
}

#[test]
fn test_fetch_error_validation_not_retryable() {
    let err = FetchError::Validation {
        message: "missing scheme".to_string(),
    };
    assert!(!err.is_retryable());
}

#[test]
fn test_exit_codes() {
    assert_eq!(
        FetchError::Network {
            message: "".to_string(),
            is_transient: false
        }
        .exit_code(),
        1
    );
    assert_eq!(
        FetchError::Validation {
            message: "".to_string()
        }
        .exit_code(),
        2
    );
    assert_eq!(
        FetchError::JinaService {
            status: StatusCode::BAD_GATEWAY.as_u16(),
            body: "".to_string()
        }
        .exit_code(),
        3
    );
    assert_eq!(FetchError::RateLimited { retry_after: None }.exit_code(), 4);
    assert_eq!(
        FetchError::TargetSite {
            url: "".to_string(),
            hint: "".to_string()
        }
        .exit_code(),
        5
    );
}

#[test]
fn test_detect_target_site_error_cloudflare() {
    let body = "Error: Cloudflare block detected";
    let result = detect_target_site_error(body, "https://example.com");
    assert!(result.is_some());
    if let Some(FetchError::TargetSite { hint, .. }) = result {
        assert!(hint.to_lowercase().contains("cloudflare"));
    }
}

#[test]
fn test_detect_target_site_error_none() {
    let body = "# Article Title\n\nThis is a normal article content.";
    let result = detect_target_site_error(body, "https://example.com");
    assert!(result.is_none());
}

#[test]
fn test_detect_target_site_error_short_error() {
    let body = "Error 404 not found";
    let result = detect_target_site_error(body, "https://example.com");
    assert!(result.is_some());
}

fn hint_of(result: Option<FetchError>) -> (String, String) {
    match result {
        Some(FetchError::TargetSite { url, hint }) => (url, hint),
        other => panic!("expected a target site error, got {:?}", other),
    }
}

#[test]
fn detection_ignores_case() {
    let (url, hint) = hint_of(detect_target_site_error("ACCESS DENIED", "https://example.com/x"));
    assert_eq!(url, "https://example.com/x");
    assert_eq!(hint, "ACCESS DENIED");
}

#[test]
fn hint_prefers_a_line_with_the_pattern() {
    let body = "# Oops\nSomething went wrong here\nYou hit a Cloudflare challenge page\nbye";
    let (_, hint) = hint_of(detect_target_site_error(body, "https://example.com"));
    assert_eq!(hint, "You hit a Cloudflare challenge page");
}

#[test]
fn hint_falls_back_to_an_error_line() {
    let body = "Forbidden\n   The request FAILED for this visitor   \n";
    let (_, hint) = hint_of(detect_target_site_error(body, "https://example.com"));
    assert_eq!(hint, "The request FAILED for this visitor");
}

#[test]
fn hint_skips_headings_and_short_lines() {
    let body = "# CAPTCHA required\nCAPTCHA\nplain text";
    let (_, hint) = hint_of(detect_target_site_error(body, "https://example.com"));
    assert_eq!(hint, "CAPTCHA");
}

#[test]
fn short_error_page_has_generic_hint() {
    let (_, hint) = hint_of(detect_target_site_error("an error occurred", "u"));
    assert_eq!(hint, "Response looks like an error page");
}

#[test]
fn long_page_mentioning_error_is_content() {
    let body = format!("{} error handling in Rust", "word ".repeat(120));
    assert!(detect_target_site_error(&body, "u").is_none());
}

#[test]
fn messages_of_errors() {
    let e = FetchError::Network { message: "dns".to_string(), is_transient: true };
    assert_eq!(e.message(), "Network error (transient): dns - will retry");
    let e = FetchError::Network { message: "dns".to_string(), is_transient: false };
    assert_eq!(e.message(), "Network error: dns");
    let e = FetchError::JinaService { status: 404, body: "not found".to_string() };
    assert_eq!(e.message(), "jina.ai service error (404 Not Found): not found");
    let e = FetchError::JinaService { status: 599, body: "x".repeat(300) };
    assert_eq!(e.message(), format!("jina.ai service error (599 <unknown status code>): {}", "x".repeat(200)));
    let e = FetchError::TargetSite { url: "https://a.b".to_string(), hint: "blocked".to_string() };
    assert_eq!(e.message(), "Target site error for https://a.b: blocked");
    let e = FetchError::RateLimited { retry_after: Some(17) };
    assert_eq!(e.message(), "Rate limited - retry after 17s");
    let e = FetchError::RateLimited { retry_after: None };
    assert_eq!(e.message(), "Rate limited - please wait before retrying");
    let e = FetchError::Validation { message: "bad".to_string() };
    assert_eq!(e.message(), "Validation error: bad");
}

#[test]
fn status_text_matches_status_code_display() {
    for code in [100u16, 200, 404, 429, 500, 503, 599, 999] {
        let status = StatusCode::from_u16(code).unwrap();
        assert_eq!(jf::error::status_text_of(code), status.to_string());
    }
}

fn transport() -> TransportError {
    TransportError { timeout: false, connect: false, builder: false, body: false, decode: false, redirect: false, status: None }
}

#[test]
fn transient_transport_errors() {
    assert!(is_transient_error(&TransportError { timeout: true, ..transport() }));
    assert!(is_transient_error(&TransportError { connect: true, builder: true, ..transport() }));
    assert!(!is_transient_error(&TransportError { builder: true, body: true, ..transport() }));
    assert!(is_transient_error(&TransportError { decode: true, ..transport() }));
    assert!(!is_transient_error(&TransportError { redirect: true, ..transport() }));
    assert!(is_transient_error(&TransportError { status: Some(503), ..transport() }));
    assert!(is_transient_error(&TransportError { status: Some(429), ..transport() }));
    assert!(!is_transient_error(&TransportError { status: Some(404), ..transport() }));
    assert!(!is_transient_error(&TransportError { status: Some(501), ..transport() }));
    assert!(is_transient_error(&transport()));
}
