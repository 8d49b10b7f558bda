use silkworm::middlewares::{next_response_step, ResponseAction, ResponseStep};
use silkworm::middlewares::{
    proxies_from_text, ProxyMiddleware, RetryDecision, RetryPolicy, SkipNonHtmlMiddleware, UserAgentMiddleware,
};
use silkworm::request::{meta_keys, Request};
use silkworm::response::Response;
use silkworm::strmap::StrMap;

fn base_response(request: Request<&'static str>, status: u16) -> Response<&'static str> {
    Response {
        url: request.url.clone(),
        status,
        headers: StrMap::new(),
        body: Vec::new(),
        request,
    }
}

#[test]
fn user_agent_middleware_sets_header_when_missing() {
    let middleware = UserAgentMiddleware::new(Vec::new(), None);
    let request = Request::<()>::new("https://example.com");

    let request = middleware.process_request(request);

    assert_eq!(request.headers.get("User-Agent").map(String::as_str), Some("silkworm/0.1"));
}

#[test]
fn user_agent_middleware_keeps_existing_header_and_picks_from_list() {
    let middleware = UserAgentMiddleware::new(vec!["ua-1".to_string(), "ua-2".to_string()], None);
    let kept = middleware.process_request(Request::<()>::new("https://example.com").with_header("user-agent", "mine"));
    assert_eq!(kept.headers.get("user-agent").map(String::as_str), Some("mine"));
    assert!(kept.headers.get("User-Agent").is_none());

    let picked = middleware.process_request(Request::<()>::new("https://example.com"));
    let ua = picked.headers.get("User-Agent").expect("user agent").clone();
    assert!(ua == "ua-1" || ua == "ua-2");

    let custom = UserAgentMiddleware::new(Vec::new(), Some("bot/2".to_string()));
    let req = custom.process_request(Request::<()>::new("https://example.com"));
    assert_eq!(req.headers.get("User-Agent").map(String::as_str), Some("bot/2"));
}

#[test]
fn proxy_middleware_cycles_when_not_random() {
    let mut middleware = ProxyMiddleware::new(vec!["http://proxy-a".to_string(), "http://proxy-b".to_string()], false);

    let req1 = middleware.process_request(Request::<()>::new("https://example.com"));
    let req2 = middleware.process_request(Request::<()>::new("https://example.com"));
    let req3 = middleware.process_request(Request::<()>::new("https://example.com"));

    assert_eq!(req1.meta.get("proxy").and_then(|v| v.as_str()), Some("http://proxy-a"));
    assert_eq!(req2.meta.get("proxy").and_then(|v| v.as_str()), Some("http://proxy-b"));
    assert_eq!(req3.meta.get("proxy").and_then(|v| v.as_str()), Some("http://proxy-a"));
}

#[test]
fn proxy_middleware_random_and_empty() {
    let mut random = ProxyMiddleware::new(vec!["http://p".to_string()], true);
    let req = random.process_request(Request::<()>::new("https://example.com"));
    assert_eq!(req.proxy(), Some("http://p"));

    let mut none = ProxyMiddleware::new(Vec::new(), false);
    let req = none.process_request(Request::<()>::new("https://example.com"));
    assert!(req.proxy().is_none());
}

#[test]
fn proxy_list_reads_trimmed_non_empty_lines() {
    let proxies = proxies_from_text("  http://a:1 \r\n\n\thttp://b:2\n   \nhttp://c:3");
    assert_eq!(proxies, vec!["http://a:1".to_string(), "http://b:2".to_string(), "http://c:3".to_string()]);
    assert!(proxies_from_text("").is_empty());
    assert!(proxies_from_text("\n\n").is_empty());
}

#[test]
fn retry_middleware_returns_request_on_retryable_status() {
    let policy = RetryPolicy::new(1, Some(vec![500]), Some(vec![500]));
    let request = Request::<&'static str>::new("https://example.com");
    let response = base_response(request, 500);

    match policy.process_response(response) {
        RetryDecision::Retry { request, attempt, backoff } => {
            assert!(request.dont_filter);
            assert_eq!(request.meta.get("retry_times").and_then(|v| v.as_u64()), Some(1));
            assert!(!request.meta.contains_key(meta_keys::RETRY_DELAY_SECS));
            assert_eq!(attempt, 0);
            assert!(backoff);
        }
        RetryDecision::Keep(_) => panic!("expected retry request"),
    }
}

#[test]
fn retry_policy_stops_at_max_times_and_ignores_other_statuses() {
    let policy = RetryPolicy::new(1, None, None);
    let ok = base_response(Request::new("https://example.com"), 200);
    assert!(matches!(policy.process_response(ok), RetryDecision::Keep(_)));

    let mut exhausted = Request::new("https://example.com");
    exhausted.set_retry_times(1);
    let response = base_response(exhausted, 503);
    assert!(matches!(policy.process_response(response), RetryDecision::Keep(_)));

    let sleepy = RetryPolicy::new(3, Some(vec![500]), Some(vec![429]));
    let response = base_response(Request::new("https://example.com"), 429);
    match sleepy.process_response(response) {
        RetryDecision::Retry { backoff, .. } => assert!(backoff),
        RetryDecision::Keep(_) => panic!("429 is retried through the sleep codes"),
    }
    let response = base_response(Request::new("https://example.com"), 500);
    match sleepy.process_response(response) {
        RetryDecision::Retry { backoff, .. } => assert!(!backoff),
        RetryDecision::Keep(_) => panic!("500 is retried"),
    }
}

#[test]
fn skip_non_html_sets_noop_callback() {
    let middleware = SkipNonHtmlMiddleware::new(None, 0);
    let request = Request::<&'static str>::new("https://example.com").with_header("Accept", "application/json");
    let mut response = base_response(request, 200);
    response.headers.insert("content-type".to_string(), "application/json".to_string());

    let response = middleware.process_response(response, "noop");

    assert!(response.request.callback.is_some());
    assert!(response.headers.is_empty());
}

#[test]
fn skip_non_html_lets_html_and_allowed_responses_through() {
    let middleware = SkipNonHtmlMiddleware::new(None, 64).with_drop_body_on_skip(false);
    let mut html = base_response(Request::new("https://example.com"), 200);
    html.body = b"<!doctype html><p>x</p>".to_vec();
    let html = middleware.process_response(html, "noop");
    assert!(html.request.callback.is_none());

    let allowed = base_response(Request::new("https://example.com").with_allow_non_html(true), 200);
    let allowed = middleware.process_response(allowed, "noop");
    assert!(allowed.request.callback.is_none());

    let mut plain = base_response(Request::new("https://example.com"), 200);
    plain.body = b"just text".to_vec();
    let plain = middleware.process_response(plain, "noop");
    assert_eq!(plain.request.callback, Some("noop"));
    assert_eq!(plain.body, b"just text".to_vec());
}

#[test]
fn retry_policy_keeps_the_rest_of_the_request() {
    let policy = RetryPolicy::new(2, Some(vec![503]), Some(vec![]));
    let request = Request::<&'static str>::post("https://example.com/p")
        .with_header("Accept", "text/html")
        .with_meta_str("trace", "abc")
        .with_priority(3)
        .with_callback("parse_item");
    match policy.process_response(base_response(request, 503)) {
        RetryDecision::Retry { request, attempt, backoff } => {
            assert_eq!(attempt, 0);
            assert!(!backoff);
            assert_eq!(request.url, "https://example.com/p");
            assert_eq!(request.method, "POST");
            assert_eq!(request.headers.get("Accept").map(String::as_str), Some("text/html"));
            assert_eq!(request.meta_str("trace"), Some("abc"));
            assert_eq!(request.retry_times(), 1);
            assert_eq!(request.priority, 3);
            assert_eq!(request.callback, Some("parse_item"));
            assert!(request.dont_filter);
        }
        RetryDecision::Keep(_) => panic!("expected retry request"),
    }
}

#[test]
fn response_steps_follow_the_middleware_chain() {
    let plain = base_response(Request::new("https://example.com"), 200);
    assert!(matches!(next_response_step(ResponseAction::Response(plain), 0, 2), ResponseStep::Middleware(0, _)));

    let plain = base_response(Request::new("https://example.com"), 200);
    assert!(matches!(next_response_step(ResponseAction::Response(plain), 2, 2), ResponseStep::Parse(_)));

    let with_cb = base_response(Request::new("https://example.com").with_callback("cb"), 200);
    assert!(matches!(next_response_step(ResponseAction::Response(with_cb), 5, 1), ResponseStep::Callback(_)));

    let retry = Request::<&'static str>::new("https://example.com/again");
    match next_response_step(ResponseAction::Request(retry), 0, 3) {
        ResponseStep::Enqueue(r) => assert_eq!(r.url, "https://example.com/again"),
        _ => panic!("expected enqueue"),
    }
}
