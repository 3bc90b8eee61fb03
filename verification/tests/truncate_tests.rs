use fileinfo::truncate::ellipsize;
use fileinfo::truncate::COMMENT_TOOLTIP_MAX_CHARS;
use fileinfo::truncate::TOOLTIP_MAX_CHARS;

#[test]
fn ellipsize_shorter_than_limit() {
    let input = "a".repeat(TOOLTIP_MAX_CHARS - 1);
    assert_eq!(ellipsize(&input, TOOLTIP_MAX_CHARS), input);
}

#[test]
fn ellipsize_equal_to_limit() {
    let input = "a".repeat(TOOLTIP_MAX_CHARS);
    assert_eq!(ellipsize(&input, TOOLTIP_MAX_CHARS), input);
}

#[test]
fn ellipsize_longer_than_limit() {
    let input = "a".repeat(TOOLTIP_MAX_CHARS + 5);
    let expected = format!("{}…", "a".repeat(TOOLTIP_MAX_CHARS));
    assert_eq!(ellipsize(&input, TOOLTIP_MAX_CHARS), expected);
}

#[test]
fn ellipsize_multibyte_characters() {
    let input = "é".repeat(TOOLTIP_MAX_CHARS + 2);
    let expected = format!("{}…", "é".repeat(TOOLTIP_MAX_CHARS));
    assert_eq!(ellipsize(&input, TOOLTIP_MAX_CHARS), expected);
}

#[test]
fn ellipsize_zero_limit() {
    assert_eq!(ellipsize("hello", 0), "…");
}

#[test]
fn ellipsize_empty_string() {
    assert_eq!(ellipsize("", 5), "");
}

#[test]
fn ellipsize_truncated_length_is_limit_plus_one() {
    let out = ellipsize("hello world", 4);
    assert_eq!(out.chars().count(), 5);
    assert_eq!(out, "hell…");
    assert!(out.ends_with('…'));
}

#[test]
fn comment_tooltip_bound_is_three_tooltips() {
    assert_eq!(COMMENT_TOOLTIP_MAX_CHARS, 3 * TOOLTIP_MAX_CHARS);
    let comment = "c".repeat(COMMENT_TOOLTIP_MAX_CHARS + 1);
    let out = ellipsize(&comment, COMMENT_TOOLTIP_MAX_CHARS);
    assert_eq!(out.chars().count(), COMMENT_TOOLTIP_MAX_CHARS + 1);
}
