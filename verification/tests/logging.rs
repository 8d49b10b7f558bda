use silkworm::logging::{
    escape, escape_value, get_logger, level_enabled, level_from_name, level_label, timestamp_text, Level,
};

#[test]
fn escape_replaces_quotes() {
    assert_eq!(escape("a\"b"), "a\\\"b");
}

#[test]
fn escape_value_quotes_whitespace() {
    assert_eq!(escape_value("hello world"), "\"hello world\"");
    assert_eq!(escape_value("plain"), "plain");
    assert_eq!(escape_value(""), "\"\"");
}

#[test]
fn escape_value_escapes_quotes_inside() {
    assert_eq!(escape_value("say \"hi\""), "\"say \\\"hi\\\"\"");
    assert_eq!(escape_value("tab\there"), "\"tab\there\"");
}

#[test]
fn level_label_matches_levels() {
    assert_eq!(level_label(Level::Debug), "DEBUG");
    assert_eq!(level_label(Level::Info), "INFO");
    assert_eq!(level_label(Level::Warn), "WARN");
    assert_eq!(level_label(Level::Error), "ERROR");
}

#[test]
fn level_names_select_levels() {
    assert_eq!(level_from_name("trace"), Level::Debug);
    assert_eq!(level_from_name("Debug"), Level::Debug);
    assert_eq!(level_from_name("INFO"), Level::Info);
    assert_eq!(level_from_name("warning"), Level::Warn);
    assert_eq!(level_from_name("critical"), Level::Error);
    assert_eq!(level_from_name("verbose"), Level::Info);
}

#[test]
fn levels_below_the_minimum_are_dropped() {
    assert!(level_enabled(Level::Error, Level::Warn));
    assert!(level_enabled(Level::Warn, Level::Warn));
    assert!(!level_enabled(Level::Info, Level::Warn));
    let logger = get_logger("engine", None);
    assert!(logger.debug("hidden", &[], Level::Info, "0").is_none());
    assert!(logger.info("shown", &[], Level::Info, "0").is_some());
    assert!(logger.error("always", &[], Level::Error, "0").is_some());
}

#[test]
fn log_lines_hold_context_and_fields() {
    let logger = get_logger("engine", Some("quotes")).bind("run", "a b");
    let line = logger
        .info("Starting \"engine\"", &[("url", "https://example.com".to_string())], Level::Debug, "T")
        .expect("line");
    assert_eq!(
        line,
        "ts=T level=INFO msg=\"Starting \\\"engine\\\"\" component=engine spider=quotes run=\"a b\" url=https://example.com"
    );
}

#[test]
fn empty_component_is_left_out() {
    let logger = get_logger("", None);
    let line = logger.line(Level::Warn, "m", &[], "0");
    assert_eq!(line, "ts=0 level=WARN msg=\"m\"");
}

#[test]
fn timestamps_are_rfc3339() {
    assert_eq!(timestamp_text(0, 0), "1970-01-01T00:00:00Z");
    let later = timestamp_text(86_400, 0);
    assert!(later.starts_with("1970-01-02T00:00:00"));
}
