use silkworm::errors::SilkwormError;
use silkworm::request::Request;
use silkworm::scheduler::{
    admit_request, memory_usage_bytes, parse_kb, parse_u64, request_fingerprint, Counter, EngineSettings, QueuedRequest,
    ReadyQueue, SeenRequests, Stats,
};

#[test]
fn seen_requests_with_limit_evicts_oldest() {
    let mut seen = SeenRequests::new(Some(2));
    assert!(seen.insert_if_new("https://a"));
    assert!(seen.insert_if_new("https://b"));
    assert!(!seen.insert_if_new("https://a"));
    assert!(seen.insert_if_new("https://c"));
    assert!(seen.insert_if_new("https://a"));
}

#[test]
fn seen_requests_without_limit_remember_everything() {
    let mut seen = SeenRequests::new(None);
    for i in 0..50u32 {
        assert!(seen.insert_if_new(&format!("https://example.com/{i}")));
    }
    for i in 0..50u32 {
        assert!(!seen.insert_if_new(&format!("https://example.com/{i}")));
    }
}

#[test]
fn seen_requests_with_limit_one_keeps_only_the_newest() {
    let mut seen = SeenRequests::new(Some(1));
    assert!(seen.insert_if_new("a"));
    assert!(!seen.insert_if_new("a"));
    assert!(seen.insert_if_new("b"));
    assert!(seen.insert_if_new("a"));
    assert!(!seen.insert_if_new("a"));
}

#[test]
fn queued_requests_honor_priority_then_fifo() {
    let mut heap = ReadyQueue::new();
    heap.push(QueuedRequest::new(
        Request::<()>::new("https://example.com/low").with_priority(1),
        0,
    ));
    heap.push(QueuedRequest::new(
        Request::<()>::new("https://example.com/high-old").with_priority(3),
        1,
    ));
    heap.push(QueuedRequest::new(
        Request::<()>::new("https://example.com/high-new").with_priority(3),
        2,
    ));

    assert_eq!(
        heap.pop().map(|queued| queued.request.url),
        Some("https://example.com/high-old".to_string())
    );
    assert_eq!(
        heap.pop().map(|queued| queued.request.url),
        Some("https://example.com/high-new".to_string())
    );
    assert_eq!(
        heap.pop().map(|queued| queued.request.url),
        Some("https://example.com/low".to_string())
    );
}

#[test]
fn ready_queue_pops_nothing_when_empty() {
    let mut queue: ReadyQueue<()> = ReadyQueue::new();
    assert!(queue.is_empty());
    assert!(queue.pop().is_none());
    queue.push(QueuedRequest::new(Request::new("https://example.com/neg").with_priority(-5), 7));
    assert_eq!(queue.len(), 1);
    let popped = queue.pop().expect("one request");
    assert_eq!(popped.priority, -5);
    assert_eq!(popped.sequence, 7);
    assert!(queue.is_empty());
}

#[test]
fn request_fingerprint_distinguishes_params_and_method() {
    let get_a = Request::<()>::new("https://example.com/search")
        .with_param("q", "rust")
        .with_param("page", "1");
    let get_b = Request::<()>::new("https://example.com/search")
        .with_param("q", "rust")
        .with_param("page", "2");
    let post = Request::<()>::new("https://example.com/search").with_method("POST");

    assert_ne!(request_fingerprint(&get_a), request_fingerprint(&get_b));
    assert_ne!(request_fingerprint(&get_a), request_fingerprint(&post));
}

#[test]
fn request_fingerprint_ignores_query_order_fragment_and_method_case() {
    let r1 = Request::<()>::new("https://example.com/p?a=1&b=2");
    let r2 = Request::<()>::new("https://example.com/p?b=2&a=1#top").with_method("get");
    assert_eq!(request_fingerprint(&r1), request_fingerprint(&r2));
    assert_eq!(request_fingerprint(&r1), "GET https://example.com/p?a=1&b=2");

    let dup = Request::<()>::new("https://example.com/p?b=2&a=1&a=0").with_param("c", "3");
    assert_eq!(request_fingerprint(&dup), "GET https://example.com/p?a=0&a=1&b=2&c=3");
}

#[test]
fn request_fingerprint_uppercases_trimmed_method_and_merges_params() {
    let req = Request::<()>::new("https://example.com/search#frag")
        .with_method("  post ")
        .with_param("q", "rust");
    assert_eq!(request_fingerprint(&req), "POST https://example.com/search?q=rust");

    let plain = Request::<()>::new("https://example.com/x#top");
    assert_eq!(request_fingerprint(&plain), "GET https://example.com/x?");

    let invalid = Request::<()>::new("not a url");
    assert_eq!(request_fingerprint(&invalid), "GET not a url");
}

#[test]
fn engine_new_rejects_zero_concurrency() {
    let result = EngineSettings::new(0, None, None, None, 1, false);
    match result {
        Err(SilkwormError::Config(_)) => {}
        Err(other) => panic!("expected config error, got {:?}", other),
        Ok(_) => panic!("expected error, got ok"),
    }
}

#[test]
fn engine_new_rejects_zero_max_seen_requests() {
    let result = EngineSettings::new(1, None, Some(0), None, 1, false);
    match result {
        Err(SilkwormError::Config(message)) => {
            assert_eq!(message, "max_seen_requests must be greater than zero when set");
        }
        Err(other) => panic!("expected config error, got {:?}", other),
        Ok(_) => panic!("expected error, got ok"),
    }
}

#[test]
fn engine_new_rejects_zero_max_pending_requests() {
    let result = EngineSettings::new(1, Some(0), None, None, 1, false);
    match result {
        Err(SilkwormError::Config(message)) => {
            assert_eq!(message, "max_pending_requests must be greater than zero when set");
        }
        Err(other) => panic!("expected config error, got {:?}", other),
        Ok(_) => panic!("expected error, got ok"),
    }
}

#[test]
fn engine_settings_size_the_pending_queue() {
    let default_size = EngineSettings::new(4, None, Some(10), None, 100, true).expect("settings");
    assert_eq!(default_size.queue_size, 40);
    assert_eq!(default_size.max_seen_requests, Some(10));
    assert_eq!(default_size.http.max_redirects, 10);
    assert!(default_size.http.follow_redirects);
    assert!(default_size.http.keep_alive);
    assert_eq!(default_size.http.html_max_size_bytes, 100);

    let explicit = EngineSettings::new(4, Some(3), None, None, 1, false).expect("settings");
    assert_eq!(explicit.queue_size, 3);
}

#[test]
fn stats_elapsed_defaults_to_zero() {
    let stats = Stats::new();
    assert_eq!(stats.elapsed(), std::time::Duration::ZERO);
}

#[test]
fn stats_count_and_keep_the_first_start() {
    let mut stats = Stats::new();
    stats.record(Counter::RequestsSent);
    stats.record(Counter::RequestsSent);
    stats.record(Counter::Errors);
    assert_eq!(stats.get(Counter::RequestsSent), 2);
    assert_eq!(stats.get(Counter::Errors), 1);
    assert_eq!(stats.get(Counter::ItemsScraped), 0);
    let start = std::time::Instant::now();
    stats.set_start_time(start);
    stats.set_start_time(start + std::time::Duration::from_secs(60));
    assert!(stats.elapsed() < std::time::Duration::from_secs(60));
}

#[test]
fn admit_request_skips_seen_unless_dont_filter() {
    let mut seen = SeenRequests::new(None);
    let req = Request::<()>::new("https://example.com/a");
    assert!(admit_request(&mut seen, &req));
    assert!(!admit_request(&mut seen, &req));
    let again = Request::<()>::new("https://example.com/a#other-fragment");
    assert!(!admit_request(&mut seen, &again));
    let forced = Request::<()>::new("https://example.com/a").with_dont_filter(true);
    assert!(admit_request(&mut seen, &forced));
    let posted = Request::<()>::new("https://example.com/a").with_method("POST");
    assert!(admit_request(&mut seen, &posted));
}

#[test]
fn parse_kb_reads_the_second_word() {
    assert_eq!(parse_kb("VmRSS:\t  1234 kB"), Some(1234));
    assert_eq!(parse_kb("VmRSS:"), None);
    assert_eq!(parse_kb("VmRSS: x kB"), None);
    assert_eq!(parse_u64("+42"), Some(42));
    assert_eq!(parse_u64("18446744073709551615"), Some(u64::MAX));
    assert_eq!(parse_u64("18446744073709551616"), None);
    assert_eq!(parse_u64(""), None);
    assert_eq!(parse_u64("+"), None);
    assert_eq!(parse_u64("-1"), None);
}

#[test]
fn memory_usage_reads_status_lines() {
    let status = "Name:\tx\nVmSize:\t  2048 kB\nVmRSS:\t  1024 kB\nVmRSS: 1 kB\n";
    assert_eq!(memory_usage_bytes(status), Some((1024 * 1024, 2048 * 1024)));
    assert_eq!(memory_usage_bytes("VmRSS: 1 kB\n"), None);
    assert_eq!(memory_usage_bytes(""), None);
}
