use minishell::builtins::{clear, confirms, echo, exit_code, expand_tilde, get_help_texts, get_target, help, major, minor, parse_i32, pwd};
use minishell::listing::{access_error, columns_text, mode_string};
use minishell::parse::parse_command;
use minishell::prompt::{base_name_of, branch_from_head, display_prompt, prompt_at};
use minishell::shell::Shell;

#[test]
fn exit_clamps_large_status() {
    assert_eq!(exit_code(&parse_command("exit 300").unwrap()), Ok(255));
}

#[test]
fn exit_with_non_number_does_not_exit() {
    assert_eq!(
        exit_code(&parse_command("exit abc").unwrap()),
        Err("exit abc: undefined code\n".to_string())
    );
}

#[test]
fn exit_status_cases() {
    assert_eq!(exit_code(&parse_command("exit").unwrap()), Ok(0));
    assert_eq!(exit_code(&parse_command("exit 42").unwrap()), Ok(42));
    assert_eq!(exit_code(&parse_command("exit +7").unwrap()), Ok(7));
    assert_eq!(exit_code(&parse_command("exit 99999999999").unwrap()), Err("exit 99999999999: undefined code\n".to_string()));
}

#[test]
fn exit_negative_status_clamps_to_zero() {
    let mut c = parse_command("exit").unwrap();
    c.args.push("-5".to_string());
    assert_eq!(exit_code(&c), Ok(0));
}

#[test]
fn parse_i32_edges() {
    assert_eq!(parse_i32("2147483647"), Some(i32::MAX));
    assert_eq!(parse_i32("-2147483648"), Some(i32::MIN));
    assert_eq!(parse_i32("2147483648"), None);
    assert_eq!(parse_i32("-2147483649"), None);
    assert_eq!(parse_i32("007"), Some(7));
    assert_eq!(parse_i32(""), None);
    assert_eq!(parse_i32("-"), None);
    assert_eq!(parse_i32("1a"), None);
    assert_eq!(parse_i32(" 1"), None);
    assert_eq!(parse_i32("-0"), Some(0));
}

#[test]
fn echo_joins_arguments() {
    assert_eq!(echo(&parse_command("echo a  \"b c\" d").unwrap()), "a b c d\n");
    assert_eq!(echo(&parse_command("echo").unwrap()), "\n");
}

#[test]
fn clear_and_pwd_text() {
    assert_eq!(clear(), "\x1b[2J\x1b[H");
    let sh = Shell::new("/home/me".to_string());
    assert_eq!(pwd(&sh), "/home/me\n");
}

#[test]
fn help_outputs() {
    let all = help(&parse_command("help").unwrap());
    assert!(all.starts_with("Usage: help [command]\nSupported commands:\n\texit\n\techo\n"));
    assert!(all.ends_with("\tcp\n"));
    assert_eq!(help(&parse_command("help pwd").unwrap()), "pwd: Print the current working directory.\n\tUsage: pwd\n");
    assert_eq!(help(&parse_command("help nope").unwrap()), "help: no help topics match 'nope'\n");
    assert_eq!(help(&parse_command("help a b").unwrap()), "help: too many arguments\nUsage: help [command]\n");
    assert_eq!(get_help_texts().len(), 9);
}

#[test]
fn device_numbers() {
    assert_eq!(major(0x0803), 8);
    assert_eq!(minor(0x0803), 3);
    assert_eq!(major(0x1234_5678), 0x456);
    assert_eq!(minor(0x1234_5678), 0x78 | 0x12300);
}

#[test]
fn ls_targets() {
    assert_eq!(get_target(&parse_command("ls").unwrap()), vec![".".to_string()]);
    assert_eq!(get_target(&parse_command("ls a b").unwrap()), vec!["a".to_string(), "b".to_string()]);
}

#[test]
fn permission_strings() {
    assert_eq!(mode_string(0o100755), "-rwxr-xr-x");
    assert_eq!(mode_string(0o040755), "drwxr-xr-x");
    assert_eq!(mode_string(0o041777), "drwxrwxrwt");
    assert_eq!(mode_string(0o104644), "-rwSr--r--");
    assert_eq!(mode_string(0o106755), "-rwsr-sr-x");
    assert_eq!(mode_string(0o120777), "lrwxrwxrwx");
    assert_eq!(mode_string(0o020620), "crw--w----");
    assert_eq!(mode_string(0o011000), "p--------T");
    assert_eq!(mode_string(0), "?---------");
}

#[test]
fn column_layout_fills_columns_first() {
    let es: Vec<String> = vec!["a", "bb", "c", "dddd", "e"].into_iter().map(String::from).collect();
    // widest is 4, cells are 6 wide; 13 columns wide fits 2 columns, so 3 rows.
    assert_eq!(columns_text(&es, 13), "a     dddd  \nbb    e     \nc     \n");
    assert_eq!(columns_text(&es, 100), "a     bb    c     dddd  e     \n");
    assert_eq!(columns_text(&es, 0), "a     \nbb    \nc     \ndddd  \ne     \n");
    assert_eq!(columns_text(&vec![], 80), "");
}

#[test]
fn access_error_message() {
    assert_eq!(access_error("x", "No such file or directory"), "ls: cannot access 'x': No such file or directory\n");
}

#[test]
fn clock_prompt_shape() {
    let p = display_prompt();
    let start = "\x1b[36m\u{256d}\u{2500}[\x1b[1;37m\x1b[94m";
    assert!(p.starts_with(start));
    let time: String = p[start.len()..].chars().take(8).collect();
    assert_eq!(time.len(), 8);
    assert_eq!(time.chars().nth(2), Some(':'));
    assert_eq!(time.chars().nth(5), Some(':'));
    assert!(time.chars().filter(|c| *c != ':').all(|c| c.is_ascii_digit()));
    assert_eq!(
        prompt_at("12:34:56"),
        "\x1b[36m\u{256d}\u{2500}[\x1b[1;37m\x1b[94m12:34:56\x1b[0m\x1b[36m]\x1b[0m\n\x1b[36m\u{2570}\u{2500}\u{bb} \x1b[0m"
    );
}

#[test]
fn directory_prompt() {
    let mut sh = Shell::new("/home/me/project".to_string());
    sh.update_prompt(Some("main".to_string()));
    assert_eq!(sh.prompt, "\x1b[1m \x1b[32mproject \x1b[31mgit:(\x1b[36mmain\x1b[31m) \x1b[32m\u{279c}\x1b[0m ");
    sh.update_prompt(None);
    assert_eq!(sh.prompt, "\x1b[1m \x1b[32mproject \x1b[32m\u{279c}\x1b[0m ");
}

#[test]
fn base_names() {
    assert_eq!(base_name_of("/home/me"), "me");
    assert_eq!(base_name_of("/home/me/"), "me");
    assert_eq!(base_name_of("/"), "");
    assert_eq!(base_name_of("plain"), "plain");
}

#[test]
fn branch_names_from_head() {
    assert_eq!(branch_from_head("ref: refs/heads/main\n"), "main");
    assert_eq!(branch_from_head("ref: refs/heads/feature/x\n"), "x");
    assert_eq!(branch_from_head("0123456789abcdef\n"), "0123456");
    assert_eq!(branch_from_head("abc"), "abc");
}

#[test]
fn tilde_expansion() {
    assert_eq!(expand_tilde("~/docs", "/home/me"), "/home/me/docs");
    assert_eq!(expand_tilde("~/a~b", "/h"), "/h/a/hb");
    assert_eq!(expand_tilde("a~b", "/h"), "a~b");
    assert_eq!(expand_tilde("", "/h"), "");
}

#[test]
fn confirmation_answers() {
    assert!(confirms("y\n"));
    assert!(confirms("  Yes"));
    assert!(!confirms("n\n"));
    assert!(!confirms(""));
    assert!(!confirms("   \n"));
}
