use silkworm::headers::normalize_headers;
use silkworm::http::{after_response, redirect_request, resolve_redirect_url, BodyBuffer, FetchStep, HttpSettings, RedirectState};
use silkworm::errors::SilkwormError;
use silkworm::json::JsonValue;
use silkworm::request::Request;
use silkworm::strmap::StrMap;
use silkworm::urls::{build_url_with_params, canonical_url_with_params};
use std::collections::HashMap;

fn settings(follow_redirects: bool, max_redirects: usize, keep_alive: bool) -> HttpSettings {
    HttpSettings::new(1, StrMap::new(), None, 1024, follow_redirects, max_redirects, keep_alive).expect("settings")
}

fn build_url(req: &Request<()>) -> String {
    build_url_with_params(req.url.as_str(), &req.params).expect("build url")
}

#[test]
fn build_url_merges_params() {
    let req = Request::<()>::new("https://example.com/path?foo=bar")
        .with_param("foo", "baz")
        .with_param("q", "1");
    let built = build_url(&req);
    let parsed = url::Url::parse(&built).expect("parse url");
    let query: HashMap<String, String> = parsed.query_pairs().into_owned().collect();
    assert_eq!(query.get("foo"), Some(&"baz".to_string()));
    assert_eq!(query.get("q"), Some(&"1".to_string()));
}

#[test]
fn build_url_preserves_repeated_query_keys() {
    let req = Request::<()>::new("https://example.com/path?tag=a&tag=b&x=1").with_param("q", "1");
    let built = build_url(&req);
    let parsed = url::Url::parse(&built).expect("parse url");
    let tags: Vec<String> = parsed
        .query_pairs()
        .filter(|(k, _)| k == "tag")
        .map(|(_, v)| v.into_owned())
        .collect();

    assert_eq!(tags, vec!["a".to_string(), "b".to_string()]);
}

#[test]
fn build_url_strips_fragment() {
    let req = Request::<()>::new("https://example.com/path?x=1#section");
    let built = build_url(&req);

    assert!(!built.contains('#'));
    assert_eq!(built, "https://example.com/path?x=1");
}

#[test]
fn build_url_rejects_invalid_urls() {
    let req = Request::<()>::new("not a url");
    match build_url_with_params(req.url.as_str(), &req.params) {
        Err(SilkwormError::Http(message)) => assert!(message.starts_with("Invalid URL not a url: ")),
        other => panic!("expected http error, got {:?}", other.map(|_| ())),
    }
}

#[test]
fn canonical_url_sorts_query_pairs_without_dropping_duplicates() {
    let mut params = StrMap::new();
    params.insert("z".to_string(), "9".to_string());
    let canonical = canonical_url_with_params("https://example.com/path?b=2&a=1&b=1", &params).expect("canonical");
    let parsed = url::Url::parse(&canonical).expect("parse canonical");
    let query: Vec<(String, String)> = parsed.query_pairs().into_owned().collect();

    assert_eq!(
        query,
        vec![
            ("a".to_string(), "1".to_string()),
            ("b".to_string(), "1".to_string()),
            ("b".to_string(), "2".to_string()),
            ("z".to_string(), "9".to_string())
        ]
    );
}

#[test]
fn canonical_url_ignores_fragment() {
    let params = StrMap::new();
    let first = canonical_url_with_params("https://example.com/path?x=1#top", &params).expect("canonical #1");
    let second = canonical_url_with_params("https://example.com/path?x=1#bottom", &params).expect("canonical #2");

    assert_eq!(first, second);
    assert_eq!(first, "https://example.com/path?x=1");
}

#[test]
fn merge_headers_adds_keep_alive() {
    let client = settings(false, 3, true);
    let request_headers = StrMap::new();
    let merged = client.merge_headers(&request_headers);
    assert_eq!(merged.get("Connection").map(String::as_str), Some("keep-alive"));
}

#[test]
fn merge_headers_prefers_request_headers_and_existing_connection() {
    let mut defaults = StrMap::new();
    defaults.insert("Accept".to_string(), "*/*".to_string());
    defaults.insert("X-A".to_string(), "1".to_string());
    let client = HttpSettings::new(2, defaults, None, 10, true, 3, true).expect("settings");
    let mut request_headers = StrMap::new();
    request_headers.insert("Accept".to_string(), "text/html".to_string());
    request_headers.insert("connection".to_string(), "close".to_string());
    let merged = client.merge_headers(&request_headers);
    assert_eq!(merged.get("Accept").map(String::as_str), Some("text/html"));
    assert_eq!(merged.get("X-A").map(String::as_str), Some("1"));
    assert_eq!(merged.get("connection").map(String::as_str), Some("close"));
    assert!(merged.get("Connection").is_none());
}

#[test]
fn http_settings_reject_zero_concurrency() {
    match HttpSettings::new(0, StrMap::new(), None, 1, true, 1, false) {
        Err(SilkwormError::Config(message)) => assert_eq!(message, "concurrency must be greater than zero"),
        _ => panic!("expected a config error"),
    }
}

#[test]
fn resolve_redirect_url_joins_relative() {
    let resolved = resolve_redirect_url("https://example.com/path/page", "/next");
    assert_eq!(resolved, "https://example.com/next");
}

#[test]
fn redirect_request_resets_method_and_payload() {
    let req = Request::<()>::new("https://example.com/original")
        .with_method("POST")
        .with_data(vec![1, 2, 3])
        .with_json(JsonValue::from_u64(1))
        .with_param("q", "1");
    let redirected = redirect_request(req, "https://example.com/new", 301);
    assert_eq!(redirected.method, "GET");
    assert!(redirected.data.is_none());
    assert!(redirected.json.is_none());
    assert_eq!(redirected.url, "https://example.com/new");
    assert!(redirected.params.is_empty());
    assert_eq!(redirected.redirect_times(), 1);
}

#[test]
fn redirect_request_keeps_method_for_307() {
    let req = Request::<()>::new("https://example.com/original").with_method("POST").with_data(vec![9]);
    let redirected = redirect_request(req, "https://example.com/new", 307);
    assert_eq!(redirected.method, "POST");
    assert_eq!(redirected.data, Some(vec![9]));
}

#[test]
fn normalize_headers_copies_valid_entries() {
    let headers = vec![("Content-Type".to_string(), "text/html".to_string())];
    let normalized = normalize_headers(&headers);
    assert_eq!(normalized.get("content-type").map(String::as_str), Some("text/html"));
}

#[test]
fn normalize_headers_merges_duplicate_values() {
    let headers = vec![
        ("cache-control".to_string(), "no-cache".to_string()),
        ("cache-control".to_string(), "max-age=0".to_string()),
    ];

    let normalized = normalize_headers(&headers);
    assert_eq!(normalized.get("cache-control").map(String::as_str), Some("no-cache, max-age=0"));
}

#[test]
fn should_follow_redirect_is_case_insensitive_for_location() {
    let client = settings(true, 3, false);
    let mut headers = StrMap::new();
    headers.insert("Location".to_string(), "https://example.com/next".to_string());
    assert!(client.should_follow_redirect(302, &headers));
    assert!(!client.should_follow_redirect(200, &headers));
    assert!(!settings(false, 3, false).should_follow_redirect(302, &headers));
}

#[test]
fn after_response_follows_then_stops_at_the_limit() {
    let client = settings(true, 1, false);
    let mut state = RedirectState::new();
    state.visit("https://example.com/a");
    let mut headers = StrMap::new();
    headers.insert("location".to_string(), "/b".to_string());
    let step = after_response(&client, &mut state, "https://example.com/a", 302, &headers, Request::<()>::new("https://example.com/a"));
    let next = match step {
        FetchStep::Follow(next) => next,
        _ => panic!("expected a redirect to follow"),
    };
    assert_eq!(next.url, "https://example.com/b");
    assert_eq!(next.redirect_times(), 1);
    assert_eq!(state.followed(), 1);

    state.visit("https://example.com/b");
    let step = after_response(&client, &mut state, "https://example.com/b", 302, &headers, next);
    match step {
        FetchStep::Fail(SilkwormError::Http(message)) => assert_eq!(message, "Exceeded maximum redirects (1)"),
        _ => panic!("expected the redirect limit"),
    }
}

#[test]
fn after_response_detects_loops_and_delivers_finals() {
    let client = settings(true, 5, false);
    let mut state = RedirectState::new();
    state.visit("https://example.com/a");
    let mut headers = StrMap::new();
    headers.insert("Location".to_string(), "https://example.com/a".to_string());
    match after_response(&client, &mut state, "https://example.com/a", 301, &headers, Request::<()>::new("x")) {
        FetchStep::Fail(SilkwormError::Http(message)) => assert_eq!(message, "Redirect loop detected"),
        _ => panic!("expected a loop"),
    }
    match after_response(&client, &mut state, "https://example.com/a", 200, &headers, Request::<()>::new("x")) {
        FetchStep::Deliver(request) => assert_eq!(request.url, "x"),
        _ => panic!("expected delivery"),
    }
}

#[test]
fn body_buffer_truncates_to_max_bytes() {
    let mut buffer = BodyBuffer::new(4);
    buffer.push_chunk(b"0123456789");
    let (body, truncated) = buffer.finish();
    assert_eq!(body, b"0123".to_vec());
    assert!(truncated);
}

#[test]
fn body_buffer_keeps_short_bodies_whole() {
    let mut buffer = BodyBuffer::new(8);
    buffer.push_chunk(b"abc");
    buffer.push_chunk(b"de");
    let (body, truncated) = buffer.finish();
    assert_eq!(body, b"abcde".to_vec());
    assert!(!truncated);

    let mut exact = BodyBuffer::new(3);
    exact.push_chunk(b"ab");
    exact.push_chunk(b"cd");
    exact.push_chunk(b"ef");
    let (body, truncated) = exact.finish();
    assert_eq!(body, b"abc".to_vec());
    assert!(truncated);

    let mut zero = BodyBuffer::new(0);
    zero.push_chunk(b"x");
    let (body, truncated) = zero.finish();
    assert!(body.is_empty());
    assert!(truncated);
}

#[test]
fn prepare_builds_the_outgoing_request() {
    let mut defaults = StrMap::new();
    defaults.insert("Accept".to_string(), "*/*".to_string());
    let client = HttpSettings::new(1, defaults, None, 10, true, 3, false).expect("settings");
    let req = Request::<()>::new("https://example.com/p#f")
        .with_method("post")
        .with_param("a", "1")
        .with_header("X", "y")
        .with_proxy("http://proxy:1");
    let prepared = client.prepare(&req).expect("prepared");
    assert_eq!(prepared.url, "https://example.com/p?a=1");
    assert_eq!(prepared.method, "POST");
    assert_eq!(prepared.headers.get("Accept").map(String::as_str), Some("*/*"));
    assert_eq!(prepared.headers.get("X").map(String::as_str), Some("y"));
    assert_eq!(prepared.proxy.as_deref(), Some("http://proxy:1"));
    assert!(prepared.timeout.is_none());
}
