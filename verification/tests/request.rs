use silkworm::errors::{first_error, SilkwormError};
use silkworm::json::{JsonNumber, JsonValue};
use silkworm::request::{meta_keys, Request, SpiderOutput};
use silkworm::strmap::StrMap;

#[test]
fn request_get_and_post_set_method() {
    let get = Request::<()>::get("https://example.com");
    let post = Request::<()>::post("https://example.com");
    assert_eq!(get.method, "GET");
    assert_eq!(post.method, "POST");
}

#[test]
fn request_bulk_inserts_headers_params_and_meta() {
    let req = Request::<()>::new("https://example.com")
        .with_headers(&[("Accept", "text/html"), ("X-Trace", "1")])
        .with_params(&[("q", "rust"), ("page", "2")])
        .with_meta_entries(vec![("trace".to_string(), JsonValue::from_str("abc"))]);

    assert_eq!(req.headers.get("Accept").map(String::as_str), Some("text/html"));
    assert_eq!(req.headers.get("X-Trace").map(String::as_str), Some("1"));
    assert_eq!(req.params.get("q").map(String::as_str), Some("rust"));
    assert_eq!(req.params.get("page").map(String::as_str), Some("2"));
    assert_eq!(req.meta.get("trace").and_then(|v| v.as_str()), Some("abc"));
}

#[test]
fn request_meta_helpers_set_common_types() {
    let req = Request::<()>::new("https://example.com")
        .with_meta_str("trace", "abc")
        .with_meta_bool("flag", true)
        .with_meta_number("count", JsonNumber::PosInt(7));

    assert_eq!(req.meta.get("trace").and_then(|v| v.as_str()), Some("abc"));
    assert_eq!(req.meta.get("flag").and_then(|v| v.as_bool()), Some(true));
    assert_eq!(req.meta.get("count").and_then(|v| v.as_u64()), Some(7));
}

#[test]
fn request_typed_meta_accessors_work() {
    let mut req = Request::<()>::new("https://example.com")
        .with_meta_str("trace", "abc")
        .with_meta_bool("flag", true)
        .with_meta_number("count", JsonNumber::PosInt(7));

    assert_eq!(req.meta_str("trace"), Some("abc"));
    assert_eq!(req.meta_bool("flag"), Some(true));
    assert_eq!(req.meta_u64("count"), Some(7));
    assert_eq!(req.take_meta_u64("count"), Some(7));
    assert!(req.meta_u64("count").is_none());
    assert_eq!(req.take_meta_bool("flag"), Some(true));
    assert!(req.meta_bool("flag").is_none());
    assert!(req.meta_u64("trace").is_none());
}

#[test]
fn request_contract_meta_helpers_work() {
    let mut req = Request::<()>::new("https://example.com")
        .with_proxy("http://proxy.local:8080")
        .with_allow_non_html(true);

    assert_eq!(req.proxy(), Some("http://proxy.local:8080"));
    assert!(req.allow_non_html());
    assert_eq!(req.retry_times(), 0);
    assert_eq!(req.increment_retry_times(), 1);
    assert_eq!(req.retry_times(), 1);
    req.set_retry_times(5);
    assert_eq!(req.retry_times(), 5);

    req.mark_request_delay_scheduled();
    assert!(req.take_request_delay_scheduled());
    assert!(!req.take_request_delay_scheduled());

    assert_eq!(req.redirect_times(), 0);
    assert_eq!(req.increment_redirect_times(), 1);
    assert_eq!(req.redirect_times(), 1);
}

#[test]
fn request_builder_sets_fields() {
    let req = Request::<()>::builder("https://example.com/search")
        .header("Accept", "text/html")
        .param("q", "rust")
        .json(JsonValue::from_u64(1))
        .data(vec![1, 2, 3])
        .allow_non_html(true)
        .dont_filter(true)
        .priority(9)
        .build();

    assert_eq!(req.url, "https://example.com/search");
    assert_eq!(req.headers.get("Accept").map(String::as_str), Some("text/html"));
    assert_eq!(req.params.get("q").map(String::as_str), Some("rust"));
    assert_eq!(req.json.as_ref().and_then(|v| v.as_i64()), Some(1));
    assert_eq!(req.data.as_ref().map(Vec::len), Some(3));
    assert_eq!(req.meta.get(meta_keys::ALLOW_NON_HTML).and_then(|value| value.as_bool()), Some(true));
    assert!(req.dont_filter);
    assert_eq!(req.priority, 9);
}

#[test]
fn request_allow_non_html_sets_meta() {
    let req = Request::<()>::new("https://example.com").with_allow_non_html(true);
    assert_eq!(req.meta.get(meta_keys::ALLOW_NON_HTML).and_then(|value| value.as_bool()), Some(true));
}

#[test]
fn request_builder_callback_sets_callback() {
    let req = Request::<&str>::builder("https://example.com").callback("parse_item").build();
    assert_eq!(req.callback, Some("parse_item"));
}

#[test]
fn request_defaults_and_flags() {
    let req = Request::<()>::new("https://example.com")
        .with_dont_filter(true)
        .with_priority(-3)
        .with_timeout(std::time::Duration::from_secs(2));
    assert_eq!(req.method, "GET");
    assert!(req.headers.is_empty());
    assert!(req.dont_filter);
    assert_eq!(req.priority, -3);
    assert_eq!(req.timeout, Some(std::time::Duration::from_secs(2)));
}

#[test]
fn spider_outputs_wrap_requests_and_items() {
    match SpiderOutput::<()>::from_request(Request::new("https://example.com")) {
        SpiderOutput::Request(req) => assert_eq!(req.url, "https://example.com"),
        SpiderOutput::Item(_) => panic!("expected a request"),
    }
    match SpiderOutput::<()>::from_item(JsonValue::from_bool(true)) {
        SpiderOutput::Item(item) => assert_eq!(item.as_bool(), Some(true)),
        SpiderOutput::Request(_) => panic!("expected an item"),
    }
}

#[test]
fn headers_and_meta_are_hashmaps() {
    let mut headers = StrMap::new();
    headers.insert("accept".to_string(), "text/html".to_string());
    assert_eq!(headers.get("accept").map(String::as_str), Some("text/html"));

    let mut meta: StrMap<JsonValue> = StrMap::new();
    meta.insert("count".to_string(), JsonValue::from_u64(2));
    assert_eq!(meta.get("count").and_then(|v| v.as_i64()), Some(2));
}

#[test]
fn str_map_replaces_in_place_and_removes() {
    let mut map = StrMap::new();
    map.insert("a".to_string(), 1u32);
    map.insert("b".to_string(), 2u32);
    map.insert("a".to_string(), 3u32);
    assert_eq!(map.len(), 2);
    assert_eq!(map.get("a"), Some(&3));
    let (first_key, first_value) = map.entry(0);
    assert_eq!(first_key, "a");
    assert_eq!(*first_value, 3);
    assert_eq!(map.remove("a"), Some(3));
    assert!(!map.contains_key("a"));
    assert_eq!(map.len(), 1);
}

#[test]
fn request_clone_copies_fields_and_nested_values() {
    let mut nested = silkworm::json::JsonMap::new();
    nested.insert(
        "k".to_string(),
        JsonValue::Array(vec![JsonValue::from_u64(1), JsonValue::from_str("x")]),
    );
    let req = Request::<u8>::post("https://example.com/a")
        .with_header("Accept", "text/html")
        .with_param("q", "1")
        .with_meta("nested", JsonValue::Object(nested))
        .with_json(JsonValue::from_bool(true))
        .with_data(vec![1, 2, 3])
        .with_callback(7)
        .with_dont_filter(true)
        .with_priority(4);
    let copy = req.clone();
    assert_eq!(copy.url, req.url);
    assert_eq!(copy.method, "POST");
    assert_eq!(copy.headers.get("Accept").map(String::as_str), Some("text/html"));
    assert_eq!(copy.params.get("q").map(String::as_str), Some("1"));
    let line = |r: &Request<u8>| silkworm::pipelines::json_line(r.meta.get("nested").unwrap());
    assert_eq!(line(&copy), "{\"k\":[1,\"x\"]}\n");
    assert_eq!(line(&copy), line(&req));
    assert_eq!(copy.json.as_ref().and_then(|j| j.as_bool()), Some(true));
    assert_eq!(copy.data, Some(vec![1, 2, 3]));
    assert_eq!(copy.callback, Some(7));
    assert!(copy.dont_filter);
    assert_eq!(copy.priority, 4);
}

#[test]
fn first_error_keeps_the_earliest() {
    let kept = first_error(Some(SilkwormError::Pipeline("a".to_string())), Some(SilkwormError::Spider("b".to_string())));
    assert!(matches!(kept, Some(SilkwormError::Pipeline(m)) if m == "a"));
    let later = first_error(None, Some(SilkwormError::Spider("b".to_string())));
    assert!(matches!(later, Some(SilkwormError::Spider(m)) if m == "b"));
    assert!(first_error(None, None).is_none());
}
