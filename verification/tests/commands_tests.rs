use jf::commands::{get_exit_code, url_from_stdin_line, BatchProgress};
use jf::error::FetchError;

#[test]
fn exit_code_of_first_fetch_error() {
    let chain = vec![
        None,
        Some(FetchError::Validation { message: "bad".to_string() }),
        Some(FetchError::RateLimited { retry_after: None }),
    ];
    assert_eq!(get_exit_code(&chain), 2);
    assert_eq!(get_exit_code(&[None, None]), 1);
    assert_eq!(get_exit_code(&[]), 1);
    assert_eq!(get_exit_code(&[Some(FetchError::TargetSite { url: String::new(), hint: String::new() })]), 5);
}

#[test]
fn batch_progress_to_stdout() {
    let mut p = BatchProgress::new(3);
    assert!(!p.record_success(false));
    assert!(p.record_success(false));
    assert!(!p.should_stop(false));
    p.record_failure();
    assert!(p.should_stop(false));
    assert!(!p.should_stop(true));
    assert_eq!(p.success_count, 2);
    assert_eq!(p.failure_count, 1);
    assert_eq!(p.failure_message(false).as_deref(), Some("Batch processing failed: 1 URLs failed"));
    assert_eq!(p.failure_message(true), None);
}

#[test]
fn batch_progress_to_directory() {
    let mut p = BatchProgress::new(2);
    assert!(!p.record_success(true));
    assert!(!p.record_success(true));
    assert!(p.first);
    assert_eq!(p.failure_message(false), None);
}

#[test]
fn stdin_lines() {
    assert_eq!(url_from_stdin_line("  https://a.b \n").as_deref(), Some("https://a.b"));
    assert_eq!(url_from_stdin_line(" \n"), None);
    assert_eq!(url_from_stdin_line(""), None);
}
