use minishell::parse::{parse_command, valid_flags, Cmd};
use minishell::token::{token_parsing, tokens, Token};

fn flags_of(c: &Cmd) -> Vec<String> {
    let mut f = c.flags.clone();
    f.sort();
    f
}

#[test]
fn ls_with_invalid_flag() {
    assert_eq!(parse_command("ls -z").unwrap_err(), "ls: invalid option -- 'z'\n".to_string());
}

#[test]
fn ls_with_valid_flags_and_path() {
    let c = parse_command("ls -la /tmp").unwrap();
    assert_eq!(c.name, "ls");
    assert_eq!(flags_of(&c), vec!["a".to_string(), "l".to_string()]);
    assert_eq!(c.args, vec!["/tmp".to_string()]);
}

#[test]
fn parsing_twice_gives_identical_commands() {
    let input = "ls -l \"my dir\" -a x";
    let a = parse_command(input).unwrap();
    let b = parse_command(input).unwrap();
    assert_eq!(a.name, b.name);
    assert_eq!(a.flags, b.flags);
    assert_eq!(a.args, b.args);
    assert_eq!(a.args, vec!["my dir".to_string(), "x".to_string()]);
}

#[test]
fn empty_input_is_an_empty_error() {
    assert_eq!(parse_command("").unwrap_err(), "");
    assert_eq!(parse_command("   \t ").unwrap_err(), "");
}

#[test]
fn duplicate_flags_collapse() {
    let c = parse_command("ls -ll -l -F").unwrap();
    assert_eq!(flags_of(&c), vec!["F".to_string(), "l".to_string()]);
}

#[test]
fn flags_of_command_without_flags_are_rejected() {
    assert_eq!(parse_command("echo -n hi").unwrap_err(), "echo: invalid option -- 'n'\n");
}

#[test]
fn rm_accepts_r_only() {
    let c = parse_command("rm -r dir").unwrap();
    assert_eq!(c.flags, vec!["r".to_string()]);
    assert_eq!(parse_command("rm -rf dir").unwrap_err(), "rm: invalid option -- 'rf'\n");
}

#[test]
fn first_bad_flag_group_is_named() {
    assert_eq!(parse_command("ls -l -xy -q").unwrap_err(), "ls: invalid option -- 'xy'\n");
}

#[test]
fn leading_dashes_are_all_stripped() {
    let c = parse_command("ls --la").unwrap();
    assert_eq!(flags_of(&c), vec!["a".to_string(), "l".to_string()]);
}

#[test]
fn leading_blanks_before_name() {
    let c = parse_command("   echo  a   b ").unwrap();
    assert_eq!(c.name, "echo");
    assert_eq!(c.args, vec!["a".to_string(), "b".to_string()]);
    assert!(c.flags.is_empty());
}

#[test]
fn quoted_dash_word_is_still_a_flag_word() {
    assert_eq!(parse_command("cat '-x'").unwrap_err(), "cat: invalid option -- 'x'\n");
}

#[test]
fn valid_flags_table() {
    assert!(valid_flags("ls", &vec!["l".to_string(), "a".to_string(), "F".to_string()]));
    assert!(!valid_flags("ls", &vec!["r".to_string()]));
    assert!(valid_flags("rm", &vec!["r".to_string()]));
    assert!(!valid_flags("rm", &vec!["l".to_string()]));
    assert!(valid_flags("cat", &vec![]));
    assert!(!valid_flags("cat", &vec!["l".to_string()]));
    assert!(!valid_flags("ls", &vec!["la".to_string()]));
}

#[test]
fn tokens_classify_by_position_and_dash() {
    let t = tokens(&"ls -l \"a b\" c".to_string());
    assert_eq!(t.len(), 4);
    assert!(matches!(&t[0], Token::Command(s) if s == "ls"));
    assert!(matches!(&t[1], Token::Arg(s) if s == "-l"));
    assert!(matches!(&t[2], Token::Command(s) if s == "a b"));
    assert!(matches!(&t[3], Token::Command(s) if s == "c"));
}

#[test]
fn leading_dash_word_is_invalid() {
    let t = token_parsing(&vec!["-x".to_string(), "-y".to_string(), "z".to_string()]);
    assert!(matches!(&t[0], Token::Invalid(s) if s == "-x"));
    assert!(matches!(&t[1], Token::Arg(s) if s == "-y"));
    assert!(matches!(&t[2], Token::Command(s) if s == "z"));
    assert!(tokens(&"   ".to_string()).is_empty());
}

#[test]
fn command_name_ends_at_unicode_whitespace() {
    assert_eq!(parse_command("\u{a0}").unwrap_err(), "");
    assert_eq!(parse_command("ls\u{a0}-z").unwrap_err(), "ls: invalid option -- 'z'\n");
    let c = parse_command("ls\u{a0}x").unwrap();
    assert_eq!(c.name, "ls");
    assert_eq!(c.args, vec!["x".to_string()]);
}
