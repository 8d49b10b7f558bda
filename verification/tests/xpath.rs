use silkworm::errors::SilkwormError;
use silkworm::html::{CssSelector, HtmlResponse};
use silkworm::request::Request;
use silkworm::response::Response;
use silkworm::strmap::StrMap;
use silkworm::xpath::CompiledXPath;

fn page(body: &str) -> HtmlResponse<()> {
    let mut headers = StrMap::new();
    headers.insert("content-type".to_string(), "text/html".to_string());
    let response = Response {
        url: "https://example.com".to_string(),
        status: 200,
        headers,
        body: body.as_bytes().to_vec(),
        request: Request::<()>::new("https://example.com"),
    };
    response.into_html(1 << 20)
}

const BODY: &str = "<html><body><h1 class=\"t\">Hi &amp; you</h1><p>a</p><p>b</p></body></html>";

#[test]
fn xpath_writes_selected_elements_as_markup() {
    let html = page(BODY);
    let nodes = html.xpath("//h1").expect("xpath");
    assert_eq!(nodes.len(), 1);
    assert_eq!(nodes[0].html(), "<h1 class=\"t\">Hi &amp; you</h1>");
    let ps: Vec<String> = html.xpath_or_empty("//p").iter().map(|e| e.html().to_string()).collect();
    assert_eq!(ps, vec!["<p>a</p>", "<p>b</p>"]);
}

#[test]
fn xpath_gives_string_values_and_scalars() {
    let html = page(BODY);
    assert_eq!(html.xpath("//h1/text()").expect("text")[0].html(), "Hi & you");
    assert_eq!(html.xpath("//h1/@class").expect("attr")[0].html(), "t");
    assert_eq!(html.xpath("count(//p)").expect("count")[0].html(), "2");
    assert_eq!(html.xpath("count(//p) > 1").expect("bool")[0].html(), "true");
    assert_eq!(html.xpath_first("//p").expect("first").map(|e| e.html().to_string()), Some("<p>a</p>".to_string()));
    assert!(html.xpath_first_or_none("//table").is_none());
}

#[test]
fn xpath_reports_invalid_expressions() {
    let html = page(BODY);
    match html.xpath("//[") {
        Err(SilkwormError::Selector(m)) => assert!(m.starts_with("Invalid XPath selector: ")),
        _ => panic!("expected a selector error"),
    }
    assert!(html.xpath_or_empty("//[").is_empty());
    assert!(html.xpath_first_or_none("//[").is_none());
    assert!(CompiledXPath::new("//[").is_err());
}

#[test]
fn compiled_xpath_matches_the_text_form() {
    let html = page(BODY);
    let compiled = CompiledXPath::new("//p").expect("compiles");
    assert_eq!(compiled.text(), "//p");
    let a: Vec<String> = html.xpath_with(&compiled).expect("eval").iter().map(|e| e.html().to_string()).collect();
    let b: Vec<String> = html.xpath("//p").expect("eval").iter().map(|e| e.html().to_string()).collect();
    assert_eq!(a, b);
    assert_eq!(html.xpath_first_with(&compiled).expect("first").map(|e| e.html().to_string()), Some("<p>a</p>".to_string()));
}

#[test]
fn compiled_css_selectors_select_like_their_text() {
    let html = page(BODY);
    let sel = CssSelector::new("p").expect("parses");
    assert_eq!(sel.text(), "p");
    let texts: Vec<String> = html.select_with(&sel).iter().map(|e| e.text()).collect();
    assert_eq!(texts, vec!["a", "b"]);
    assert_eq!(html.select_first_with(&sel).map(|e| e.text()), Some("a".to_string()));
    let h1 = html.select_first("h1").expect("select").expect("h1");
    let inner = CssSelector::new("*").expect("parses");
    assert!(h1.select_first_with(&inner).is_some());
    match CssSelector::new("p[") {
        Err(SilkwormError::Selector(m)) => assert!(m.starts_with("Invalid CSS selector: ")),
        _ => panic!("expected a selector error"),
    }
}
