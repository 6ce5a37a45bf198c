use godot_toml::document::{count_line_feeds_before, TomlSyntaxError, TOML};
use godot_toml::toml_value::TomlValue;
use godot_toml::variant::Variant;

fn table(entries: Vec<(&str, TomlValue)>) -> TomlValue {
    TomlValue::Table(entries.into_iter().map(|(k, v)| (k.to_string(), v)).collect())
}

fn syntax_error(message: &str, span_start: Option<usize>) -> TomlSyntaxError {
    TomlSyntaxError { message: message.to_string(), span_start }
}

#[test]
fn default_document_is_empty() {
    let doc = TOML::default();
    assert_eq!(doc.data, Variant::Nil);
    assert_eq!(doc.get_error_line(), 0);
    assert_eq!(doc.get_error_message(), "");
    assert_eq!(doc.get_parsed_text(), "");
}

#[test]
fn parse_success_sets_data_and_returns_zero() {
    let mut doc = TOML::default();
    let text = "name = \"ship\"\nspeed = 3\n".to_string();
    let value = table(vec![
        ("name", TomlValue::String("ship".to_string())),
        ("speed", TomlValue::Integer(3)),
    ]);
    let res = doc.record_parse(text, false, Ok(value));
    assert_eq!(res, 0);
    assert_eq!(
        doc.data,
        Variant::Dictionary(vec![
            ("name".to_string(), Variant::String("ship".to_string())),
            ("speed".to_string(), Variant::Int(3)),
        ])
    );
    assert_eq!(doc.get_parsed_text(), "");
    assert_eq!(doc.get_error_line(), 0);
}

#[test]
fn parse_keeps_text_when_asked() {
    let mut doc = TOML::default();
    let text = "a = true\n".to_string();
    doc.record_parse(text.clone(), true, Ok(table(vec![("a", TomlValue::Boolean(true))])));
    assert_eq!(doc.get_parsed_text(), text);
    doc.record_parse("b = 1".to_string(), false, Ok(table(vec![("b", TomlValue::Integer(1))])));
    assert_eq!(doc.get_parsed_text(), "");
}

#[test]
fn parse_error_counts_line_feeds_before_span() {
    let mut doc = TOML::default();
    let text = "a = 1\nb = 2\nc = \n".to_string();
    // the error span starts on the third line, at byte 16
    let res = doc.record_parse(text, false, Err(syntax_error("string values must be quoted", Some(16))));
    assert_eq!(res, 2);
    assert_eq!(doc.get_error_line(), 2);
    assert_eq!(doc.get_error_message(), "string values must be quoted");
    assert_eq!(doc.data, Variant::Nil);
}

#[test]
fn parse_error_keeps_previous_data() {
    let mut doc = TOML::default();
    doc.record_parse("a = 1".to_string(), false, Ok(table(vec![("a", TomlValue::Integer(1))])));
    let res = doc.record_parse("a = \n\n=".to_string(), false, Err(syntax_error("invalid key", Some(6))));
    assert_eq!(res, 2);
    assert_eq!(doc.data, Variant::Dictionary(vec![("a".to_string(), Variant::Int(1))]));
}

#[test]
fn parse_error_without_span_keeps_previous_line() {
    let mut doc = TOML::default();
    doc.record_parse("x\ny\nz =".to_string(), false, Err(syntax_error("first", Some(5))));
    assert_eq!(doc.get_error_line(), 2);
    let res = doc.record_parse("other".to_string(), false, Err(syntax_error("second", None)));
    assert_eq!(res, 2);
    assert_eq!(doc.get_error_message(), "second");
}

#[test]
fn parse_error_at_start_counts_whole_text() {
    let mut doc = TOML::default();
    let res = doc.record_parse("=\n\n\n".to_string(), false, Err(syntax_error("missing key", Some(0))));
    assert_eq!(res, 3);
}

#[test]
fn count_line_feeds_before_positions() {
    assert_eq!(count_line_feeds_before("a\nb\nc", 2), 1);
    assert_eq!(count_line_feeds_before("a\nb\nc", 4), 2);
    assert_eq!(count_line_feeds_before("a\nb\nc", 100), 2);
    assert_eq!(count_line_feeds_before("a\nb\nc", 0), 2);
    assert_eq!(count_line_feeds_before("", 3), 0);
    assert_eq!(count_line_feeds_before("é\nü\n", 2), 1);
}

#[test]
fn parse_reads_text_with_the_toml_crate() {
    let mut doc = TOML::default();
    let res = doc.parse("title = \"Game\"\n[size]\nw = 4\nh = 3\n".to_string(), true);
    assert_eq!(res, Some(0));
    assert_eq!(
        doc.data,
        Variant::Dictionary(vec![
            ("size".to_string(), Variant::Dictionary(vec![
                ("h".to_string(), Variant::Int(3)),
                ("w".to_string(), Variant::Int(4)),
            ])),
            ("title".to_string(), Variant::String("Game".to_string())),
        ])
    );
    assert_eq!(doc.get_parsed_text(), "title = \"Game\"\n[size]\nw = 4\nh = 3\n");
}

#[test]
fn parse_reports_the_error_line() {
    let mut doc = TOML::default();
    let res = doc.parse("a = 1\nb = 2\nc = \n".to_string(), false);
    assert_eq!(res, Some(2));
    assert_eq!(doc.get_error_line(), 2);
    assert!(!doc.get_error_message().is_empty());
    assert_eq!(doc.data, Variant::Nil);
}

#[test]
fn parse_refuses_date_times() {
    let mut doc = TOML::default();
    assert_eq!(doc.parse("when = 1979-05-27\n".to_string(), true), None);
    assert_eq!(doc.get_parsed_text(), "");
    assert_eq!(TOML::parse_string("when = 07:32:00".to_string()), None);
}

#[test]
fn parse_string_gives_data_or_nil() {
    let res = TOML::parse_string("list = [1, 2]".to_string());
    assert_eq!(
        res,
        Some(Variant::Dictionary(vec![("list".to_string(), Variant::Array(vec![Variant::Int(1), Variant::Int(2)]))]))
    );
    assert_eq!(TOML::parse_string("a\n= 1".to_string()), Some(Variant::Nil));
    assert_eq!(TOML::parse_string("=".to_string()), Some(Variant::Nil));
    assert_eq!(
        TOML::parse_string("x = 1.5".to_string()),
        Some(Variant::Dictionary(vec![("x".to_string(), Variant::Float(1.5f64.to_bits()))]))
    );
}

#[test]
fn stringify_gives_the_table() {
    let variant = Variant::Dictionary(vec![
        ("title".to_string(), Variant::String("Game".to_string())),
        ("ratio".to_string(), Variant::Float(1.5f64.to_bits())),
    ]);
    let res = TOML::stringify(variant);
    assert_eq!(
        res,
        table(vec![
            ("title", TomlValue::String("Game".to_string())),
            ("ratio", TomlValue::Float(1.5f64.to_bits())),
        ])
    );
}
