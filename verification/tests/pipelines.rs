use silkworm::json::{JsonMap, JsonNumber, JsonValue};
use silkworm::pipelines::{
    build_xml, csv_escape, escape_xml, flatten_item, json_line, sanitize_tag, scalar_to_string, sorted_keys,
    xml_footer, xml_header, CsvLayout,
};

fn text(s: &str) -> JsonValue {
    JsonValue::from_str(s)
}

#[test]
fn flatten_item_flattens_nested_objects_and_arrays() {
    let mut inner = JsonMap::new();
    inner.insert("name".to_string(), text("Ada"));
    inner.insert("age".to_string(), JsonValue::from_u64(42));

    let mut outer = JsonMap::new();
    outer.insert("user".to_string(), JsonValue::Object(inner));
    outer.insert("tags".to_string(), JsonValue::Array(vec![text("a"), text("b")]));

    let flat = flatten_item(&JsonValue::Object(outer));
    assert_eq!(flat.get("user_name").map(String::as_str), Some("Ada"));
    assert_eq!(flat.get("user_age").map(String::as_str), Some("42"));
    assert_eq!(flat.get("tags").map(String::as_str), Some("a,b"));
}

#[test]
fn flatten_item_wraps_scalars_and_renders_nested_arrays_as_json() {
    let flat = flatten_item(&text("solo"));
    assert_eq!(flat.get("item").map(String::as_str), Some("solo"));

    let nested = JsonValue::Array(vec![
        JsonValue::Array(vec![JsonValue::from_u64(1), JsonValue::from_i64(-2)]),
        JsonValue::Null,
        JsonValue::from_bool(true),
    ]);
    let mut map = JsonMap::new();
    map.insert("x".to_string(), nested);
    let flat = flatten_item(&JsonValue::Object(map));
    assert_eq!(flat.get("x").map(String::as_str), Some("[1,-2],,true"));
}

#[test]
fn csv_escape_quotes_when_needed() {
    assert_eq!(csv_escape("plain"), "plain");
    assert_eq!(csv_escape("a,b"), "\"a,b\"");
    assert_eq!(csv_escape("a\"b"), "\"a\"\"b\"");
}

#[test]
fn csv_escape_quotes_line_breaks() {
    assert_eq!(csv_escape("a\nb"), "\"a\nb\"");
    assert_eq!(csv_escape("a\rb"), "\"a\rb\"");
    assert_eq!(csv_escape(""), "");
}

#[test]
fn sanitize_tag_replaces_invalid_chars() {
    assert_eq!(sanitize_tag("my tag-name"), "my_tag_name");
    assert_eq!(sanitize_tag(""), "item");
    assert_eq!(sanitize_tag("9 bad<tag"), "_bad_tag");
}

#[test]
fn sanitize_tag_keeps_valid_names() {
    assert_eq!(sanitize_tag("ns:item.v2"), "ns:item.v2");
    assert_eq!(sanitize_tag("___"), "___");
    assert_eq!(sanitize_tag("a  b"), "a_b");
    assert_eq!(sanitize_tag(sanitize_tag("9 bad<tag").as_str()), "_bad_tag");
}

#[test]
fn build_xml_escapes_text() {
    let xml = build_xml("item", &text("a&b"), 1);
    assert_eq!(xml, "  <item>a&amp;b</item>\n");
}

#[test]
fn build_xml_nests_objects_and_arrays() {
    let mut map = JsonMap::new();
    map.insert("title".to_string(), text("<T>"));
    map.insert("tags".to_string(), JsonValue::Array(vec![text("x"), JsonValue::Null]));
    let xml = build_xml("entry", &JsonValue::Object(map), 0);
    assert_eq!(
        xml,
        "<entry>\n  <tags>\n    <item>x</item>\n    <item></item>\n  </tags>\n  <title>&lt;T&gt;</title>\n</entry>\n"
    );
}

#[test]
fn escape_xml_replaces_all_markup() {
    assert_eq!(escape_xml("<a href=\"x\">'&'</a>"), "&lt;a href=&quot;x&quot;&gt;&apos;&amp;&apos;&lt;/a&gt;");
}

#[test]
fn xml_file_header_and_footer() {
    assert_eq!(xml_header("my items"), "<?xml version=\"1.0\" encoding=\"UTF-8\"?>\n<my_items>\n");
    assert_eq!(xml_footer("my items"), "</my_items>\n");
}

#[test]
fn json_lines_are_compact_json() {
    let mut map = JsonMap::new();
    map.insert("b".to_string(), JsonValue::Number(JsonNumber::Float("1.5".to_string())));
    map.insert("a".to_string(), text("q\"\n\u{1}"));
    assert_eq!(json_line(&JsonValue::Object(map)), "{\"a\":\"q\\\"\\n\\u0001\",\"b\":1.5}\n");
    assert_eq!(scalar_to_string(&JsonValue::Array(vec![])), "[]");
    assert_eq!(scalar_to_string(&JsonValue::Null), "");
}

#[test]
fn csv_layout_infers_names_from_first_item() {
    let mut layout = CsvLayout::new(None);
    let mut first = JsonMap::new();
    first.insert("b".to_string(), JsonValue::from_u64(2));
    first.insert("a".to_string(), text("x,y"));
    let (chunk, with_header) = layout.render(&JsonValue::Object(first));
    assert!(with_header);
    assert_eq!(chunk, "a,b\n\"x,y\",2\n");
    layout.mark_header_written();

    let mut second = JsonMap::new();
    second.insert("c".to_string(), JsonValue::from_u64(3));
    second.insert("b".to_string(), JsonValue::from_u64(5));
    let (chunk, with_header) = layout.render(&JsonValue::Object(second));
    assert!(!with_header);
    assert_eq!(chunk, ",5\n");
}

#[test]
fn csv_layout_resets_inferred_names() {
    let mut layout = CsvLayout::new(None);
    let mut first = JsonMap::new();
    first.insert("a".to_string(), JsonValue::from_u64(1));
    let _ = layout.render(&JsonValue::Object(first));
    layout.mark_header_written();
    layout.reset();
    let mut second = JsonMap::new();
    second.insert("b".to_string(), JsonValue::from_u64(2));
    let (chunk, with_header) = layout.render(&JsonValue::Object(second));
    assert!(with_header);
    assert!(chunk.starts_with("b\n"));
}

#[test]
fn csv_layout_uses_configured_names() {
    let mut layout = CsvLayout::new(Some(vec!["z".to_string(), "a".to_string()]));
    let mut item = JsonMap::new();
    item.insert("a".to_string(), text("1"));
    let (chunk, _) = layout.render(&JsonValue::Object(item));
    assert_eq!(chunk, "z,a\n,1\n");
}

#[test]
fn sorted_keys_orders_columns() {
    let mut item = JsonMap::new();
    item.insert("zeta".to_string(), JsonValue::Null);
    item.insert("alpha".to_string(), JsonValue::Null);
    item.insert("mid".to_string(), JsonValue::Null);
    let flat = flatten_item(&JsonValue::Object(item));
    assert_eq!(sorted_keys(&flat), vec!["alpha".to_string(), "mid".to_string(), "zeta".to_string()]);
}
