use jf::config::{Config, RetryConfig};

#[test]
fn test_default_config() {
    let config = Config::default();
    assert_eq!(config.timeout, 30);
    assert_eq!(config.retries, 3);
    assert!(!config.wait_render);
    assert!(config.output_dir.is_none());
}

#[test]
fn test_config_with_cli_overrides() {
    let config = Config::default();
    let merged = config.with_cli_overrides(Some(60), Some(5), Some(true), None);
    assert_eq!(merged.timeout, 60);
    assert_eq!(merged.retries, 5);
    assert!(merged.wait_render);
}

#[test]
fn test_retry_backoff_calculation() {
    let config = RetryConfig::default();

    // First attempt: 500ms * 2^0 = 500ms
    assert_eq!(config.backoff_for_attempt(0), 500);

    // Second attempt: 500ms * 2^1 = 1000ms
    assert_eq!(config.backoff_for_attempt(1), 1000);

    // Third attempt: 500ms * 2^2 = 2000ms
    assert_eq!(config.backoff_for_attempt(2), 2000);
}

#[test]
fn test_retry_backoff_cap() {
    let config = RetryConfig {
        max_backoff_ms: 1000,
        ..Default::default()
    };

    // Should be capped at 1000ms
    assert_eq!(config.backoff_for_attempt(10), 1000);
}

#[test]
fn overrides_keep_unset_settings() {
    let config = Config {
        timeout: 12,
        retries: 7,
        wait_render: true,
        output_dir: Some("out".to_string()),
        concurrency: Some(4),
        user_agent: Some("agent".to_string()),
    };
    let same = config.with_cli_overrides(None, None, None, None);
    assert_eq!(same.timeout, 12);
    assert_eq!(same.retries, 7);
    assert!(same.wait_render);
    assert_eq!(same.output_dir.as_deref(), Some("out"));
    assert_eq!(same.concurrency, Some(4));
    assert_eq!(same.user_agent.as_deref(), Some("agent"));

    let moved = config.with_cli_overrides(None, None, Some(false), Some("elsewhere".to_string()));
    assert!(!moved.wait_render);
    assert_eq!(moved.output_dir.as_deref(), Some("elsewhere"));
    assert_eq!(moved.timeout, 12);
}

#[test]
fn load_falls_back_to_defaults() {
    let loaded = Config::load(None);
    assert_eq!(loaded.timeout, 30);
    assert_eq!(loaded.retries, 3);

    let found = Config::default().with_cli_overrides(Some(60), Some(5), Some(true), None);
    let loaded = Config::load(Some(found));
    assert_eq!(loaded.timeout, 60);
    assert_eq!(loaded.retries, 5);
    assert!(loaded.wait_render);
}

#[test]
fn default_backoff_doubles_up_to_thirty_seconds() {
    let config = RetryConfig::default();
    let waits: Vec<u64> = (0..10).map(|a| config.backoff_for_attempt(a)).collect();
    assert_eq!(waits, vec![500, 1000, 2000, 4000, 8000, 16000, 30000, 30000, 30000, 30000]);
    assert_eq!(config.backoff_for_attempt(u32::MAX), 30000);
    for w in waits.windows(2) {
        assert!(w[0] <= w[1]);
    }
}

#[test]
fn backoff_with_unusual_multipliers() {
    let tripling = RetryConfig { backoff_multiplier: 3, initial_backoff_ms: 100, max_backoff_ms: 100_000, max_retries: 3 };
    assert_eq!(tripling.backoff_for_attempt(3), 2700);
    let flat = RetryConfig { backoff_multiplier: 1, ..tripling };
    assert_eq!(flat.backoff_for_attempt(1_000_000), 100);
    let none = RetryConfig { backoff_multiplier: 0, ..tripling };
    assert_eq!(none.backoff_for_attempt(0), 100);
    assert_eq!(none.backoff_for_attempt(5), 0);
    let capped_start = RetryConfig { initial_backoff_ms: 5000, max_backoff_ms: 1000, ..tripling };
    assert_eq!(capped_start.backoff_for_attempt(0), 1000);
}

#[test]
fn retry_config_for_flags() {
    let c = RetryConfig::for_flags(false, 5);
    assert_eq!(c.max_retries, 5);
    assert_eq!(c.initial_backoff_ms, 500);
    assert_eq!(c.max_backoff_ms, 30_000);
    assert_eq!(c.backoff_multiplier, 2);
    assert_eq!(RetryConfig::for_flags(true, 5).max_retries, 0);
}

#[test]
fn overrides_compose() {
    let base = Config::default();
    let once = base.with_cli_overrides(Some(10), None, Some(true), Some("a".to_string()));
    let twice = once.with_cli_overrides(None, Some(9), None, Some("b".to_string()));
    let direct = base.with_cli_overrides(Some(10), Some(9), Some(true), Some("b".to_string()));
    assert_eq!(twice.timeout, direct.timeout);
    assert_eq!(twice.retries, direct.retries);
    assert_eq!(twice.wait_render, direct.wait_render);
    assert_eq!(twice.output_dir, direct.output_dir);
}
