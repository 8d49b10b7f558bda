use silkworm::api::{is_default_utility_options, UtilityFetchOptions};
use std::time::Duration;

#[test]
fn utility_options_default_values() {
    let options = UtilityFetchOptions::new();
    assert_eq!(options.concurrency, 8);
    assert!(options.default_headers.is_empty());
    assert_eq!(options.timeout, Some(Duration::from_secs(15)));
    assert_eq!(options.html_max_size_bytes, 2_000_000);
    assert!(options.follow_redirects);
    assert_eq!(options.max_redirects, 10);
    assert!(!options.keep_alive);
    assert!(is_default_utility_options(&options));
    assert!(is_default_utility_options(&UtilityFetchOptions::default()));
}

#[test]
fn utility_options_builders_set_fields() {
    let options = UtilityFetchOptions::new()
        .with_concurrency(2)
        .with_header("User-Agent", "docs")
        .with_headers(&[("A", "1"), ("B", "2")])
        .with_timeout(Duration::from_secs(8))
        .with_html_max_size_bytes(512_000)
        .with_follow_redirects(false)
        .with_max_redirects(3)
        .with_keep_alive(true);
    assert_eq!(options.concurrency, 2);
    assert_eq!(options.default_headers.get("User-Agent").map(String::as_str), Some("docs"));
    assert_eq!(options.default_headers.get("B").map(String::as_str), Some("2"));
    assert_eq!(options.timeout, Some(Duration::from_secs(8)));
    assert_eq!(options.html_max_size_bytes, 512_000);
    assert!(!options.follow_redirects);
    assert_eq!(options.max_redirects, 3);
    assert!(options.keep_alive);
    assert!(!is_default_utility_options(&options));
    assert!(UtilityFetchOptions::new().without_timeout().timeout.is_none());
    assert!(!is_default_utility_options(&UtilityFetchOptions::new().without_timeout()));
}

#[test]
fn zero_concurrency_options_are_rejected() {
    let options = UtilityFetchOptions::new().with_concurrency(0);
    assert!(options.http_settings().is_err());
    let settings = UtilityFetchOptions::new().http_settings().expect("settings");
    assert_eq!(settings.concurrency, 8);
    assert_eq!(settings.max_redirects, 10);
}

#[test]
fn zero_concurrency_options_give_the_config_error() {
    let options = UtilityFetchOptions::new().with_concurrency(0);
    match options.http_settings() {
        Err(silkworm::errors::SilkwormError::Config(m)) => assert_eq!(m, "concurrency must be greater than zero"),
        _ => panic!("expected a config error"),
    }
}
