use fileinfo::label::friendly_label;

#[test]
fn friendly_label_basic() {
    let uri = "https://example.com/FooBarBaz";
    assert_eq!(friendly_label(uri), "Foo Bar Baz");
}

#[test]
fn friendly_label_trailing_slash() {
    let uri = "https://example.com/FooBarBaz/";
    assert_eq!(friendly_label(uri), "Foo Bar Baz");
}

#[test]
fn friendly_label_trailing_hash() {
    let uri = "https://example.com/FooBarBaz#";
    assert_eq!(friendly_label(uri), "Foo Bar Baz");
}

#[test]
fn friendly_label_domain_only() {
    let uri = "https://example.com";
    assert_eq!(friendly_label(uri), "Example.com");
}

#[test]
fn friendly_label_hash_local_name() {
    assert_eq!(
        friendly_label("http://www.w3.org/1999/02/22-rdf-syntax-ns#type"),
        "Type"
    );
}

#[test]
fn friendly_label_keeps_inner_case() {
    assert_eq!(friendly_label("ns#dateTimeXSD"), "Date Time X S D");
}

#[test]
fn friendly_label_empty_after_trimming() {
    assert_eq!(friendly_label("///"), "");
    assert_eq!(friendly_label(""), "");
}

#[test]
fn friendly_label_single_word() {
    assert_eq!(friendly_label("http://example.org/name"), "Name");
}
