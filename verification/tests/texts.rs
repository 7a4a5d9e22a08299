use repox::text::concat_text;
use repox::text::decimal_text;
use repox::text::join;
use repox::text::parse_decimal;
use repox::text::split_fields;
use repox::text::split_tokens;
use repox::text::Separator;

fn text(s: &str) -> String {
    s.to_string()
}

#[test]
fn fields_keep_empty_runs() {
    assert_eq!(split_fields("a//b", Separator::Slash), vec![text("a"), text(""), text("b")]);
    assert_eq!(split_fields("", Separator::Slash), vec![text("")]);
    assert_eq!(split_fields("/", Separator::Slash), vec![text(""), text("")]);
    assert_eq!(split_fields("a,b", Separator::Slash), vec![text("a,b")]);
}

#[test]
fn tokens_drop_empty_runs() {
    assert_eq!(
        split_tokens("tools, build\tdocs,,", Separator::List),
        vec![text("tools"), text("build"), text("docs")]
    );
    assert_eq!(split_tokens("  ", Separator::List), Vec::<String>::new());
    assert_eq!(split_tokens("/usr//lib/", Separator::Slash), vec![text("usr"), text("lib")]);
}

#[test]
fn join_puts_glue_between() {
    assert_eq!(join(&vec![text("a"), text("b"), text("c")], "/"), text("a/b/c"));
    assert_eq!(join(&vec![text("a")], "/"), text("a"));
    assert_eq!(join(&vec![], "/"), text(""));
    assert_eq!(concat_text("ab", "cd"), text("abcd"));
}

#[test]
fn decimal_numbers_are_read() {
    assert_eq!(parse_decimal("0"), Some(0));
    assert_eq!(parse_decimal("42"), Some(42));
    assert_eq!(parse_decimal("007"), Some(7));
    assert_eq!(parse_decimal("18446744073709551615"), Some(u64::MAX));
}

#[test]
fn what_is_no_decimal_number_is_refused() {
    assert_eq!(parse_decimal(""), None);
    assert_eq!(parse_decimal("4x"), None);
    assert_eq!(parse_decimal("-1"), None);
    assert_eq!(parse_decimal(" 1"), None);
    assert_eq!(parse_decimal("18446744073709551616"), None);
    assert_eq!(parse_decimal("99999999999999999999999"), None);
}

#[test]
fn numbers_are_written_in_decimal_digits() {
    assert_eq!(decimal_text(0), text("0"));
    assert_eq!(decimal_text(7), text("7"));
    assert_eq!(decimal_text(10), text("10"));
    assert_eq!(decimal_text(9051), text("9051"));
    assert_eq!(decimal_text(u64::MAX), text("18446744073709551615"));
    assert_eq!(parse_decimal(&decimal_text(123456789)), Some(123456789));
}

#[test]
fn lines_are_fields() {
    assert_eq!(split_fields("a\nb c\n", Separator::Line), vec![text("a"), text("b c"), text("")]);
}
