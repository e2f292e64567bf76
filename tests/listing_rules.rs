use minishell::listing::{check_type, contains_text, ends_with_text, entry_priority, format_entry_name, is_listed, starts_with_text, Types};
use minishell::prompt::trim_end_of;

#[test]
fn kinds_from_mode() {
    assert!(matches!(check_type(0o040755, "d".to_string()), Types::Dir(n) if n == "d"));
    assert!(matches!(check_type(0o100644, "f".to_string()), Types::File(n) if n == "f"));
    assert!(matches!(check_type(0o100700, "x".to_string()), Types::Executable(n) if n == "x"));
    assert!(matches!(check_type(0o120777, "l".to_string()), Types::Symlink(n) if n == "l"));
    assert!(matches!(check_type(0o020620, "c".to_string()), Types::CharDevice(_)));
    assert!(matches!(check_type(0o060660, "b".to_string()), Types::BlockDevice(_)));
    assert!(matches!(check_type(0o140755, "s".to_string()), Types::Socket(_)));
    assert!(matches!(check_type(0o010644, "p".to_string()), Types::Pipe(_)));
    assert!(matches!(check_type(0o000644, "?".to_string()), Types::NotSupported));
}

#[test]
fn entry_decorations() {
    let d = Types::Dir("src".to_string());
    assert_eq!(format_entry_name(&d, "", true, false), "src/");
    assert_eq!(format_entry_name(&d, "", false, false), "src");
    let l = Types::Symlink("cur".to_string());
    assert_eq!(format_entry_name(&l, "/opt/x", false, true), "cur -> /opt/x");
    assert_eq!(format_entry_name(&l, "/opt/x", true, false), "cur@");
    assert_eq!(format_entry_name(&l, "/opt/x", false, false), "cur");
    assert_eq!(format_entry_name(&Types::Socket("s".to_string()), "", false, false), "s=");
    assert_eq!(format_entry_name(&Types::Pipe("p".to_string()), "", false, false), "p|");
    assert_eq!(format_entry_name(&Types::Executable("run".to_string()), "", true, true), "run");
    assert_eq!(format_entry_name(&Types::NotSupported, "", true, true), "");
}

#[test]
fn hidden_entries() {
    assert!(!is_listed(".git", false));
    assert!(is_listed(".git", true));
    assert!(is_listed("src", false));
    assert!(is_listed("", false));
}

#[test]
fn long_listing_line_ranks() {
    assert_eq!(entry_priority("ls: cannot open 'x': Permission denied\n"), 0);
    assert_eq!(entry_priority("total: 12\n"), 1);
    assert_eq!(entry_priority("drwxr-xr-x 2 me me 4096 Jan  1 10:00 .\n"), 2);
    assert_eq!(entry_priority("drwxr-xr-x 9 me me 4096 Jan  1 10:00 ..\n"), 3);
    assert_eq!(entry_priority("-rw-r--r-- 1 me me 10 Jan  1 10:00 a.txt\n"), 4);
}

#[test]
fn text_searches() {
    assert!(contains_text("hello world", "lo w"));
    assert!(!contains_text("hello", "world"));
    assert!(contains_text("abc", ""));
    assert!(starts_with_text("total: 3", "total: "));
    assert!(!starts_with_text("tot", "total: "));
    assert!(ends_with_text("a ..", " .."));
    assert!(!ends_with_text("a..", " .."));
    assert_eq!(trim_end_of("abc \t\n"), "abc");
    assert_eq!(trim_end_of("   "), "");
}
