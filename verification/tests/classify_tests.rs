use fileinfo::classify::classify;
use fileinfo::classify::friendly_value;
use fileinfo::classify::Category;
use fileinfo::vocab::date_type_str;

#[test]
fn friendly_value_formats_date() {
    // The outside date formatter parsed the value and produced the local-time
    // rendering; the classifier shows exactly that result.
    let raw = "2024-06-04T12:34:56Z";
    let formatted = Some(String::from("2024-06-04 12:34:56"));
    assert_eq!(
        friendly_value(raw, date_type_str(), &formatted),
        "2024-06-04 12:34:56"
    );
}

#[test]
fn friendly_value_invalid_date() {
    // The outside date formatter cannot parse the value, so it hands back
    // nothing and the raw value is kept unchanged.
    let raw = "invalid";
    assert_eq!(friendly_value(raw, date_type_str(), &None), raw);
}

#[test]
fn friendly_value_unrelated_type() {
    let raw = "hello";
    assert_eq!(friendly_value(raw, "other", &None), raw);
}

#[test]
fn classify_untyped_value_is_link_shown_verbatim() {
    let c = classify("http://example.org/other", "", &None);
    assert_eq!(c.category, Category::Link);
    assert_eq!(c.display, "http://example.org/other");
}

#[test]
fn classify_multiline_value() {
    let c = classify("first line\nsecond line", "some-type", &None);
    assert_eq!(c.category, Category::MultilineLiteral);
    assert_eq!(c.display, "first line\nsecond line");
}

#[test]
fn classify_plain_literal_unknown_datatype() {
    let c = classify("42", "http://www.w3.org/2001/XMLSchema#integer", &None);
    assert_eq!(c.category, Category::Literal);
    assert_eq!(c.display, "42");
}

#[test]
fn classify_date_uses_formatter_result() {
    let formatted = Some(String::from("2020-01-01 00:00:00"));
    let c = classify("2020-01-01T00:00:00Z", date_type_str(), &formatted);
    assert_eq!(c.category, Category::Literal);
    assert_eq!(c.display, "2020-01-01 00:00:00");
}

#[test]
fn classify_is_idempotent_without_formatter() {
    let first = classify("plain value", "other", &None);
    let second = classify(&first.display, "other", &None);
    assert_eq!(second.category, first.category);
    assert_eq!(second.display, first.display);
}
