use minishell::scan::{scan_command, State};
use minishell::lexer::tokenize;

fn quote_kind(s: Option<State>) -> Option<String> {
    match s {
        Some(State::Quote(k)) => Some(k),
        _ => None,
    }
}

#[test]
fn trailing_backslash_asks_for_more() {
    assert!(matches!(scan_command("echo hello \\"), Some(State::BackNewLine)));
    assert!(matches!(scan_command("\\"), Some(State::BackNewLine)));
    assert!(matches!(scan_command("a\\\\\\"), Some(State::BackNewLine)));
}

#[test]
fn escaped_trailing_backslash_is_complete() {
    assert!(scan_command("echo hello \\\\").is_none());
    assert!(scan_command("a\\\\\\\\").is_none());
}

#[test]
fn odd_double_quotes_leave_quote_open() {
    assert_eq!(quote_kind(scan_command("echo \"hello")), Some("dquote".to_string()));
    assert_eq!(quote_kind(scan_command("echo \"a\" \"b")), Some("dquote".to_string()));
}

#[test]
fn odd_single_quotes_leave_quote_open() {
    assert_eq!(quote_kind(scan_command("echo 'hello")), Some("quote".to_string()));
    assert_eq!(quote_kind(scan_command("echo 'a' 'b' 'c")), Some("quote".to_string()));
}

#[test]
fn even_quotes_are_complete() {
    assert!(scan_command("echo \"a\" \"b\"").is_none());
    assert!(scan_command("echo 'a' 'b'").is_none());
    assert!(scan_command("").is_none());
}

#[test]
fn quote_of_other_kind_inside_quote_is_literal() {
    assert!(scan_command("echo \"it's\"").is_none());
    assert!(scan_command("echo '\"'").is_none());
}

#[test]
fn escaped_quote_does_not_open() {
    assert!(scan_command("echo \\\"").is_none());
    assert_eq!(quote_kind(scan_command("echo \"a\\\"")), Some("dquote".to_string()));
}

#[test]
fn backslash_escapes_inside_single_quotes_for_scanner() {
    assert_eq!(quote_kind(scan_command("'\\'")), Some("quote".to_string()));
    assert!(matches!(scan_command("'\\''\\"), Some(State::BackNewLine)));
    assert!(scan_command("'\\''\\\\").is_none());
}

#[test]
fn unicode_whitespace_separates_words() {
    assert_eq!(tokenize("a\u{a0}b\u{3000}c"), vec!["a".to_string(), "b".to_string(), "c".to_string()]);
}

#[test]
fn open_quote_takes_precedence_over_backslash() {
    assert_eq!(quote_kind(scan_command("echo \"abc\\")), Some("dquote".to_string()));
}

#[test]
fn tokenize_mixed_quotes() {
    assert_eq!(
        tokenize("a \"b c\" 'd\\e' f"),
        vec!["a".to_string(), "b c".to_string(), "d\\e".to_string(), "f".to_string()]
    );
}

#[test]
fn tokenize_collapses_blanks() {
    assert_eq!(tokenize("  a \t  b  "), vec!["a".to_string(), "b".to_string()]);
    assert_eq!(tokenize(""), Vec::<String>::new());
    assert_eq!(tokenize("   "), Vec::<String>::new());
}

#[test]
fn tokenize_escaped_space_joins_words() {
    assert_eq!(tokenize("a\\ b c"), vec!["a b".to_string(), "c".to_string()]);
}

#[test]
fn tokenize_double_quote_escapes_and_literal_single() {
    assert_eq!(tokenize("\"a\\\"b 'c'\""), vec!["a\"b 'c'".to_string()]);
}

#[test]
fn tokenize_escaped_line_break_is_kept() {
    assert_eq!(tokenize("\"hello \\\nworld\""), vec!["hello \nworld".to_string()]);
    assert_eq!(tokenize("ab\\\ncd"), vec!["ab\ncd".to_string()]);
}

#[test]
fn tokenize_empty_quotes_give_no_word() {
    assert_eq!(tokenize("a \"\" b"), vec!["a".to_string(), "b".to_string()]);
}

#[test]
fn tokenize_line_break_inside_single_quotes_is_kept() {
    assert_eq!(tokenize("'a\nb'"), vec!["a\nb".to_string()]);
}
