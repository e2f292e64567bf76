use minishell::exec::{find_builtin, get_builtins, names_command, not_found_message, path_dirs, route, Builtin, Route};
use minishell::parse::parse_command;
use minishell::scan::State;
use minishell::shell::{Shell, Step};

#[test]
fn continuation_inside_double_quote_joins_lines() {
    let mut sh = Shell::new("/home/user".to_string());
    assert!(matches!(sh.accept_line("echo \"hello \\\n"), Step::More));
    assert!(matches!(&sh.state, State::Quote(k) if k == "dquote"));
    assert_eq!(sh.prompt_text(), "dquote> ");
    match sh.accept_line("world\"\n") {
        Step::Run(cmd) => {
            assert_eq!(cmd.name, "echo");
            assert_eq!(cmd.args, vec!["hello world".to_string()]);
        }
        _ => panic!("expected a command"),
    }
    assert!(matches!(sh.state, State::Ready));
    assert_eq!(sh.history, vec!["echo \"hello \\world\"".to_string()]);
}

#[test]
fn continuation_after_backslash() {
    let mut sh = Shell::new("/".to_string());
    assert!(matches!(sh.accept_line("echo ab\\\n"), Step::More));
    assert!(matches!(sh.state, State::BackNewLine));
    assert_eq!(sh.prompt_text(), "> ");
    match sh.accept_line("cd\n") {
        Step::Run(cmd) => assert_eq!(cmd.args, vec!["abcd".to_string()]),
        _ => panic!("expected a command"),
    }
}

#[test]
fn open_quote_lines_are_appended() {
    let mut sh = Shell::new("/".to_string());
    assert!(matches!(sh.accept_line("echo \"a\n"), Step::More));
    assert_eq!(sh.prompt_text(), "dquote> ");
    match sh.accept_line("b\"\n") {
        Step::Run(cmd) => assert_eq!(cmd.args, vec!["ab".to_string()]),
        _ => panic!("expected a command"),
    }
    assert!(matches!(sh.accept_line("echo 'a\n"), Step::More));
    assert_eq!(sh.prompt_text(), "quote> ");
    match sh.accept_line("b'\n") {
        Step::Run(cmd) => assert_eq!(cmd.args, vec!["ab".to_string()]),
        _ => panic!("expected a command"),
    }
}

#[test]
fn blank_line_is_empty_step() {
    let mut sh = Shell::new("/".to_string());
    assert!(matches!(sh.accept_line("\n"), Step::Empty));
    assert!(matches!(sh.accept_line("   \n"), Step::Empty));
    assert!(sh.history.is_empty());
}

#[test]
fn invalid_option_step() {
    let mut sh = Shell::new("/".to_string());
    match sh.accept_line("ls -z\n") {
        Step::Invalid(e) => assert_eq!(e, "ls: invalid option -- 'z'\n"),
        _ => panic!("expected an error"),
    }
}

#[test]
fn interrupt_drops_pending_input() {
    let mut sh = Shell::new("/".to_string());
    assert!(matches!(sh.accept_line("echo \"abc\n"), Step::More));
    sh.interrupt();
    assert!(matches!(sh.state, State::Ready));
    assert_eq!(sh.input, "");
    assert_eq!(sh.prompt_text(), "$ ");
    match sh.accept_line("pwd\n") {
        Step::Run(cmd) => assert_eq!(cmd.name, "pwd"),
        _ => panic!("expected a command"),
    }
}

#[test]
fn new_shell_state() {
    let sh = Shell::new("/tmp".to_string());
    assert_eq!(sh.cwd, "/tmp");
    assert_eq!(sh.builtins.len(), 13);
    assert_eq!(sh.last_status, 0);
    assert_eq!(sh.prompt, "$ ");
}

#[test]
fn registry_lookup() {
    let reg = get_builtins();
    assert_eq!(find_builtin(&reg, "ls"), Some(Builtin::Ls));
    assert_eq!(find_builtin(&reg, "cp"), Some(Builtin::Cp));
    assert_eq!(find_builtin(&reg, "git"), None);
    assert_eq!(Builtin::Mkdir.name(), "mkdir");
}

#[test]
fn non_mutating_builtins_are_forked() {
    let reg = get_builtins();
    let c = parse_command("ls -l").unwrap();
    assert_eq!(route(&reg, &c), Route::Forked(Builtin::Ls));
    let c = parse_command("echo hi").unwrap();
    assert_eq!(route(&reg, &c), Route::Forked(Builtin::Echo));
}

#[test]
fn state_changing_builtins_run_in_process() {
    let reg = get_builtins();
    assert_eq!(route(&reg, &parse_command("cd /tmp").unwrap()), Route::InProcess(Builtin::Cd));
    assert_eq!(route(&reg, &parse_command("exit 3").unwrap()), Route::InProcess(Builtin::Exit));
    assert_eq!(route(&reg, &parse_command("vim x").unwrap()), Route::Unknown);
}

#[test]
fn path_list_splits_on_colons() {
    assert_eq!(path_dirs("/bin:/usr/bin"), vec!["/bin".to_string(), "/usr/bin".to_string()]);
    assert_eq!(path_dirs(""), vec!["".to_string()]);
    assert_eq!(path_dirs("a::b:"), vec!["a".to_string(), "".to_string(), "b".to_string(), "".to_string()]);
}

#[test]
fn path_names_command() {
    assert!(names_command("/usr/bin/git", "git"));
    assert!(!names_command("/usr/bin/legit", "git"));
    assert!(!names_command("git", "git"));
    assert!(names_command("/git", "git"));
}

#[test]
fn unknown_command_messages() {
    assert_eq!(not_found_message("foo", None), "Command not found: foo\n");
    assert_eq!(
        not_found_message("git", Some("/usr/bin/git".to_string())),
        "git: found at /usr/bin/git, but only builtin commands are run\n"
    );
}

#[test]
fn child_result_is_recorded() {
    let mut sh = Shell::new("/srv".to_string());
    assert_eq!(sh.child_finished(Some(3)), None);
    assert_eq!(sh.last_status, 3);
    assert_eq!(sh.child_finished(None), Some("error wait\n".to_string()));
    assert_eq!(sh.last_status, 3);
    assert_eq!(sh.cwd, "/srv");
}
