use mimir::search::{is_short_simple_token, like_contains_pattern, rewrite_as_prefix};

#[test]
fn prefix_simple() {
    assert_eq!(rewrite_as_prefix("que"), "que*");
    assert_eq!(rewrite_as_prefix("queen"), "queen*");
}

#[test]
fn prefix_already_has_star() {
    assert_eq!(rewrite_as_prefix("que*"), "que*");
}

#[test]
fn prefix_phrase_left_alone() {
    // Open phrase: pass through (we don't know if the user is still
    // typing the closing quote).
    assert_eq!(rewrite_as_prefix(r#""don stop"#), r#""don stop"#);
    // Closed phrase — the last token ends with `"`, no rewrite.
    assert_eq!(rewrite_as_prefix(r#""don stop""#), r#""don stop""#);
}

#[test]
fn prefix_negation_left_alone() {
    assert_eq!(rewrite_as_prefix("foo -bar"), "foo -bar");
}

#[test]
fn prefix_field_left_alone() {
    assert_eq!(rewrite_as_prefix("title:foo"), "title:foo");
}

#[test]
fn prefix_empty_left_alone() {
    assert_eq!(rewrite_as_prefix(""), "");
    assert_eq!(rewrite_as_prefix("   "), "   ");
}

#[test]
fn prefix_multi_word() {
    assert_eq!(rewrite_as_prefix("queen dont stop"), "queen dont stop*");
    assert_eq!(rewrite_as_prefix("foo bar baz"), "foo bar baz*");
}

#[test]
fn prefix_no_op_for_punctuation() {
    assert_eq!(rewrite_as_prefix("foo -"), "foo -");
}

#[test]
fn prefix_trailing_space_left_alone() {
    assert_eq!(rewrite_as_prefix("foo "), "foo ");
    assert_eq!(rewrite_as_prefix("foo\tbar"), "foo\tbar*");
}

#[test]
fn short_simple_token_detection() {
    assert!(is_short_simple_token("q"));
    assert!(is_short_simple_token(" qu "));
    assert!(is_short_simple_token("é"));
    assert!(!is_short_simple_token("que"));
    assert!(!is_short_simple_token(""));
    assert!(!is_short_simple_token("  "));
    assert!(!is_short_simple_token("q*"));
    assert!(!is_short_simple_token("日"));
}

#[test]
fn like_pattern_wraps_query() {
    assert_eq!(like_contains_pattern("q"), "%q%");
}
