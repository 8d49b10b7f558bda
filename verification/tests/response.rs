use silkworm::html::{escape_attr, escape_text};
use silkworm::request::{Request, SpiderOutput};
use silkworm::response::{contains_ascii_case_insensitive, decode_body, encoding_from_bom, Response};
use silkworm::strmap::StrMap;

fn response_with(url: &str, headers: StrMap<String>, body: &[u8]) -> Response<()> {
    Response {
        url: url.to_string(),
        status: 200,
        headers,
        body: body.to_vec(),
        request: Request::<()>::new(url),
    }
}

fn headers_of(pairs: &[(&str, &str)]) -> StrMap<String> {
    let mut headers = StrMap::new();
    for (k, v) in pairs {
        headers.insert(k.to_string(), v.to_string());
    }
    headers
}

#[test]
fn response_url_join_resolves_relative() {
    let request = Request::<()>::new("https://example.com");
    let response = Response {
        url: "https://example.com/path/".to_string(),
        status: 200,
        headers: StrMap::new(),
        body: Vec::new(),
        request,
    };
    assert_eq!(response.url_join("next"), "https://example.com/path/next");
}

#[test]
fn follow_all_filters_none_and_joins_urls() {
    let response = response_with("https://example.com/base/", StrMap::new(), b"");
    let hrefs = vec![Some("/one"), None, Some("two")];
    let requests = response.follow_all(&hrefs, None);
    assert_eq!(requests.len(), 2);
    assert_eq!(requests[0].url, "https://example.com/one");
    assert_eq!(requests[1].url, "https://example.com/base/two");
}

#[test]
fn follow_url_preserves_callback() {
    let mut request = Request::<String>::new("https://example.com");
    request.callback = Some("handler".to_string());
    let response = Response {
        url: "https://example.com".to_string(),
        status: 200,
        headers: StrMap::new(),
        body: Vec::new(),
        request,
    };

    let next = response.follow_url("/next");
    assert!(next.callback.is_some());
    assert_eq!(next.url, "https://example.com/next");
}

#[test]
fn follow_uses_given_callback_first() {
    let mut request = Request::<String>::new("https://example.com");
    request.callback = Some("inherited".to_string());
    let response = Response {
        url: "https://example.com/a/".to_string(),
        status: 200,
        headers: StrMap::new(),
        body: Vec::new(),
        request,
    };
    let next = response.follow("b", Some("given".to_string()));
    assert_eq!(next.callback.as_deref(), Some("given"));
    assert_eq!(next.url, "https://example.com/a/b");
    let many = response.follow_many(&["x", "", "y"], Some("cb".to_string()));
    assert_eq!(many.len(), 2);
    assert_eq!(many[1].callback.as_deref(), Some("cb"));
}

#[test]
fn looks_like_html_detects_content_type() {
    let response = response_with("https://example.com", headers_of(&[("content-type", "text/html")]), b"");
    assert!(response.looks_like_html());
}

#[test]
fn looks_like_html_sniffs_the_body() {
    let sniffed = response_with("https://example.com", StrMap::new(), b"  <!DOCTYPE html><p>x</p>");
    assert!(sniffed.looks_like_html());
    let json = response_with("https://example.com", headers_of(&[("Content-Type", "application/json")]), b"{}");
    assert!(!json.looks_like_html());
    let empty = response_with("https://example.com", StrMap::new(), b"");
    assert!(!empty.looks_like_html());
}

#[test]
fn status_helpers_report_success_and_redirects() {
    let mut response = response_with("https://example.com", StrMap::new(), b"");
    response.status = 204;
    assert!(response.status_ok());
    assert!(!response.is_redirect());

    let mut redirect = response_with("https://example.com", StrMap::new(), b"");
    redirect.status = 302;
    assert!(redirect.is_redirect());
    assert!(!redirect.status_ok());
}

#[test]
fn header_and_content_type_helpers_handle_case() {
    let response = response_with(
        "https://example.com",
        headers_of(&[("Content-Type", "text/html"), ("X-Trace", "abc")]),
        b"",
    );
    assert_eq!(response.header("content-type"), Some("text/html"));
    assert_eq!(response.header("X-TRACE"), Some("abc"));
    assert_eq!(response.content_type(), Some("text/html"));
    assert_eq!(response.header("missing"), None);
}

#[test]
fn html_response_selects_and_reads_attributes() {
    let body = b"<html><body><a href=\"/x\">Link</a></body></html>";
    let response = response_with("https://example.com", headers_of(&[("content-type", "text/html")]), body);
    let html = response.into_html(1024);
    let anchor = html.select_first("a").expect("select").expect("anchor");
    assert_eq!(anchor.text(), "Link");
    assert_eq!(anchor.attr("href").as_deref(), Some("/x"));
    assert!(anchor.html().contains("<a"));
}

#[test]
fn close_clears_body_and_headers() {
    let mut response = response_with("https://example.com", headers_of(&[("content-type", "text/plain")]), b"hi");
    response.close();
    assert!(response.body.is_empty());
    assert!(response.headers.is_empty());
}

#[test]
fn select_or_empty_returns_empty_on_invalid_selector() {
    let body = b"<html><body><div class=\"test\">Content</div></body></html>";
    let html = response_with("https://example.com", StrMap::new(), body).into_html(1024);

    let results = html.select_or_empty("div[invalid");
    assert_eq!(results.len(), 0);

    let results = html.select_or_empty(".test");
    assert_eq!(results.len(), 1);
    assert_eq!(results[0].text(), "Content");
}

#[test]
fn select_reports_invalid_selectors() {
    let html = response_with("https://example.com", StrMap::new(), b"<p>x</p>").into_html(1024);
    match html.select("<<") {
        Err(silkworm::errors::SilkwormError::Selector(message)) => {
            assert!(message.starts_with("Invalid CSS selector: "));
        }
        _ => panic!("expected a selector error"),
    }
}

#[test]
fn select_first_or_none_returns_none_on_invalid_selector() {
    let body = b"<html><body><div class=\"test\">Content</div></body></html>";
    let html = response_with("https://example.com", StrMap::new(), body).into_html(1024);

    assert!(html.select_first_or_none("div[invalid").is_none());

    let element = html.select_first_or_none(".test");
    assert!(element.is_some());
    assert_eq!(element.unwrap().text(), "Content");
}

#[test]
fn text_from_extracts_text_from_selector() {
    let body = b"<html><body><h1>Title</h1><p class=\"content\">Text</p></body></html>";
    let html = response_with("https://example.com", StrMap::new(), body).into_html(1024);

    assert_eq!(html.text_from("h1"), "Title");
    assert_eq!(html.text_from(".content"), "Text");
    assert_eq!(html.text_from(".missing"), "");
}

#[test]
fn attr_from_extracts_attribute() {
    let body = b"<html><body><a href=\"/link\" class=\"test\">Link</a></body></html>";
    let html = response_with("https://example.com", StrMap::new(), body).into_html(1024);

    assert_eq!(html.attr_from("a", "href"), Some("/link".to_string()));
    assert_eq!(html.attr_from("a", "class"), Some("test".to_string()));
    assert_eq!(html.attr_from("a", "missing"), None);
    assert_eq!(html.attr_from(".missing", "href"), None);
}

#[test]
fn select_texts_and_attrs_collect_values() {
    let body = b"<html><body><ul><li>One</li><li>Two</li></ul><a href=\"/a\">A</a><a>Skip</a></body></html>";
    let html = response_with("https://example.com", StrMap::new(), body).into_html(1024);

    assert_eq!(html.select_texts("li"), vec!["One".to_string(), "Two".to_string()]);
    assert_eq!(html.select_attrs("a", "href"), vec!["/a".to_string()]);

    let list = html.select_first_or_none("ul").expect("list");
    assert_eq!(list.select_texts("li"), vec!["One".to_string(), "Two".to_string()]);
}

#[test]
fn follow_css_outputs_builds_requests() {
    let body = b"<html><body><a href=\"/next\">Next</a><a href=\"\"></a></body></html>";
    let html = response_with("https://example.com/base/", StrMap::new(), body).into_html(1024);
    let outputs = html.follow_css_outputs("a", "href");
    assert_eq!(outputs.len(), 1);
    match &outputs[0] {
        SpiderOutput::Request(req) => {
            assert_eq!(req.url, "https://example.com/next");
        }
        SpiderOutput::Item(_) => panic!("expected request output"),
    }
}

#[test]
fn follow_many_filters_empty_strings() {
    let response = response_with("https://example.com/base/", StrMap::new(), b"");
    let hrefs = vec!["/one", "", "two", ""];
    let requests = response.follow_many(&hrefs, None);
    assert_eq!(requests.len(), 2);
    assert_eq!(requests[0].url, "https://example.com/one");
    assert_eq!(requests[1].url, "https://example.com/base/two");
}

#[test]
fn follow_urls_filters_empty_strings() {
    let response = response_with("https://example.com/base/", StrMap::new(), b"");
    let hrefs = vec!["/one", "", "two"];
    let requests = response.follow_urls(&hrefs);
    assert_eq!(requests.len(), 2);
    assert_eq!(requests[0].url, "https://example.com/one");
    assert_eq!(requests[1].url, "https://example.com/base/two");
}

#[test]
fn html_element_select_or_empty_returns_empty_on_invalid() {
    let body = b"<div class=\"parent\"><span class=\"child\">Text</span></div>";
    let html = response_with("https://example.com", StrMap::new(), body).into_html(1024);
    let parent = html.select_first_or_none(".parent").unwrap();

    assert_eq!(parent.select_or_empty("span[invalid").len(), 0);

    let children = parent.select_or_empty(".child");
    assert_eq!(children.len(), 1);
    assert_eq!(children[0].text(), "Text");
}

#[test]
fn html_element_attr_falls_back_to_inner_elements() {
    let body = b"<div id=\"outer\"><img src=\"/i.png\"></div>";
    let html = response_with("https://example.com", StrMap::new(), body).into_html(1024);
    let outer = html.select_first_or_none("#outer").expect("outer");
    assert_eq!(outer.attr("id"), Some("outer".to_string()));
    assert_eq!(outer.attr("src"), Some("/i.png".to_string()));
    assert_eq!(outer.attr_from("img", "src"), Some("/i.png".to_string()));
    assert_eq!(outer.text_from("img"), "");
}

#[test]
fn into_html_reads_at_most_the_limit() {
    let html = response_with("https://example.com", StrMap::new(), b"<p>abcdef</p>").into_html(6);
    assert_eq!(html.html_source(), "<p>abc");
    let none = response_with("https://example.com", StrMap::new(), b"<p>abcdef</p>").into_html(0);
    assert_eq!(none.html_source(), "");
    assert!(none.select_first_or_none("p").is_none());
}

#[test]
fn decode_body_follows_bom_header_and_meta() {
    let latin = decode_body(&vec![0x63, 0x61, 0x66, 0xE9], &headers_of(&[("Content-Type", "text/html; charset=ISO-8859-1")]));
    assert_eq!(latin.0, "caf\u{e9}");
    assert_eq!(latin.1, "windows-1252");

    let meta = decode_body(&b"<meta charset=\"latin1\"><p>\xE9</p>".to_vec(), &StrMap::new());
    assert_eq!(meta.1, "windows-1252");
    assert!(meta.0.ends_with("\u{e9}</p>"));

    let bom = decode_body(&vec![0xEF, 0xBB, 0xBF, 0x68, 0x69], &StrMap::new());
    assert_eq!(bom, ("hi".to_string(), "UTF-8".to_string()));

    let fallback = decode_body(&vec![0x68, 0xFF], &headers_of(&[("content-type", "text/html; charset=bogus")]));
    assert_eq!(fallback, ("h\u{fffd}".to_string(), "utf-8".to_string()));

    let empty = decode_body(&Vec::new(), &StrMap::new());
    assert_eq!(empty, (String::new(), "utf-8".to_string()));
}

#[test]
fn response_text_and_encoding() {
    let response = response_with("https://example.com", headers_of(&[("content-type", "text/plain; charset=utf-8")]), b"ok");
    assert_eq!(response.text(), "ok");
    assert_eq!(response.encoding(), "UTF-8");
}

#[test]
fn encoding_from_bom_detects_marks() {
    assert_eq!(encoding_from_bom(&[0xFF, 0xFE, 0x00, 0x00, 0x41]), Some("utf-32le".to_string()));
    assert_eq!(encoding_from_bom(&[0xFF, 0xFE, 0x41]), Some("utf-16le".to_string()));
    assert_eq!(encoding_from_bom(&[0xFE, 0xFF]), Some("utf-16be".to_string()));
    assert_eq!(encoding_from_bom(&[0x00, 0x00, 0xFE, 0xFF]), Some("utf-32be".to_string()));
    assert_eq!(encoding_from_bom(b"abc"), None);
}

#[test]
fn contains_ascii_case_insensitive_matches_windows() {
    assert!(contains_ascii_case_insensitive(b"xx<HtMl>", b"<html"));
    assert!(!contains_ascii_case_insensitive(b"<htm", b"<html"));
    assert!(!contains_ascii_case_insensitive(b"abc", b""));
}

#[test]
fn markup_escaping_of_text_and_attributes() {
    assert_eq!(escape_text("a<b>&\"c\""), "a&lt;b&gt;&amp;\"c\"");
    assert_eq!(escape_attr("a<b>&\"c\""), "a&lt;b&gt;&amp;&quot;c&quot;");
}
