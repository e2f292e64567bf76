//! What the builtin commands compute, apart from their input and output: the
//! status `exit` ends with, and the text that `echo`, `clear`, `pwd` and
//! `help` print.
use vstd::prelude::*;
use crate::text::{chars_of, push_char};
use crate::lexer::views;
use crate::parse::Cmd;
use crate::shell::Shell;

verus! {

/// A decimal digit.
pub open spec fn is_digit(c: char) -> bool {
    '0' <= c <= '9'
}

/// The value of a non-empty run of decimal digits.
pub open spec fn digits_value(s: Seq<char>) -> int
    decreases s.len(),
{
    if s.len() == 0 {
        0
    } else {
        10 * digits_value(s.drop_last()) + ((s.last() as u32) as int - ('0' as u32) as int)
    }
}

/// A non-empty run of decimal digits.
pub open spec fn all_digits(s: Seq<char>) -> bool {
    s.len() > 0 && forall|k: int| 0 <= k < s.len() ==> is_digit(#[trigger] s[k])
}

/// The integer written in `s`: an optional sign followed by decimal digits,
/// nothing else.
pub open spec fn integer_value(s: Seq<char>) -> Option<int> {
    if s.len() > 0 && (s[0] == '-' || s[0] == '+') {
        if all_digits(s.drop_first()) {
            Some(
                if s[0] == '-' {
                    -digits_value(s.drop_first())
                } else {
                    digits_value(s.drop_first())
                },
            )
        } else {
            None
        }
    } else if all_digits(s) {
        Some(digits_value(s))
    } else {
        None
    }
}

/// The `i32` written in `s`, if `s` writes an integer in that range.
pub open spec fn i32_value(s: Seq<char>) -> Option<int> {
    match integer_value(s) {
        Some(v) => if i32::MIN <= v <= i32::MAX {
            Some(v)
        } else {
            None
        },
        None => None,
    }
}

proof fn lemma_digits_nonneg(s: Seq<char>)
    requires
        forall|k: int| 0 <= k < s.len() ==> is_digit(#[trigger] s[k]),
    ensures
        digits_value(s) >= 0,
    decreases s.len(),
{
    if s.len() > 0 {
        let p = s.drop_last();
        assert(forall|k: int| 0 <= k < p.len() ==> p[k] == s[k]);
        lemma_digits_nonneg(p);
        assert(is_digit(s[s.len() - 1]));
    }
}

proof fn lemma_digits_monotone(s: Seq<char>, j: int)
    requires
        0 <= j <= s.len(),
        forall|k: int| 0 <= k < s.len() ==> is_digit(#[trigger] s[k]),
    ensures
        0 <= digits_value(s.take(j)) <= digits_value(s),
    decreases s.len(),
{
    if j < s.len() {
        let p = s.drop_last();
        assert(forall|k: int| 0 <= k < p.len() ==> p[k] == s[k]);
        assert(p.take(j) =~= s.take(j));
        lemma_digits_monotone(p, j);
        lemma_digits_nonneg(p);
        assert(is_digit(s[s.len() - 1]));
    } else {
        assert(s.take(j) =~= s);
        lemma_digits_nonneg(s);
    }
}

/// Reads an `i32` written in decimal with an optional sign.
pub fn parse_i32(s: &str) -> (r: Option<i32>)
    ensures
        match i32_value(s@) {
            Some(v) => r == Some(v as i32),
            None => r is None,
        },
{
    let v = chars_of(s);
    let n = v.len();
    let mut start: usize = 0;
    let mut negative = false;
    if n > 0 && (v[0] == '-' || v[0] == '+') {
        negative = v[0] == '-';
        start = 1;
    }
    if start == n {
        return None;
    }
    let ghost d = v@.subrange(start as int, n as int);
    assert(start == 1 ==> d =~= v@.drop_first());
    assert(start == 0 ==> d =~= v@);
    let mut acc: u64 = 0;
    let mut i = start;
    assert(d.take(0) =~= Seq::<char>::empty());
    while i < n
        invariant
            v@ == s@,
            n == v@.len(),
            start <= i <= n,
            start == 1 ==> (d == s@.drop_first() && (s@[0] == '-' || s@[0] == '+')),
            start == 0 ==> (d == s@ && !(s@.len() > 0 && (s@[0] == '-' || s@[0] == '+'))),
            start <= 1,
            negative == (start == 1 && s@[0] == '-'),
            d == v@.subrange(start as int, n as int),
            acc == digits_value(d.take(i - start)),
            acc <= 2147483648,
            forall|k: int| 0 <= k < i - start ==> is_digit(#[trigger] d[k]),
        decreases n - i,
    {
        let c = v[i];
        assert(d[i - start] == c);
        if !('0' <= c && c <= '9') {
            assert(!all_digits(d));
            return None;
        }
        assert(d.take(i - start + 1).drop_last() =~= d.take(i - start));
        let digit = (c as u32 - '0' as u32) as u64;
        acc = acc * 10 + digit;
        i = i + 1;
        if acc > 2147483648 {
            proof {
                if all_digits(d) {
                    lemma_digits_monotone(d, i - start);
                }
            }
            return None;
        }
    }
    assert(d.take(n - start) =~= d);
    assert(all_digits(d));
    if negative {
        Some((0i64 - acc as i64) as i32)
    } else if acc <= 2147483647 {
        Some(acc as i32)
    } else {
        None
    }
}

/// `v` brought into the range of exit statuses, 0 to 255.
pub open spec fn clamp_status(v: int) -> int {
    if v < 0 {
        0
    } else if v > 255 {
        255
    } else {
        v
    }
}

/// The status that `exit` with arguments `args` ends the interpreter with, or
/// the message it prints instead.
pub open spec fn exit_outcome_ok(args: Seq<Seq<char>>, r: Result<i32, String>) -> bool {
    if args.len() == 0 {
        r == Ok::<i32, String>(0)
    } else {
        match i32_value(args[0]) {
            Some(v) => r == Ok::<i32, String>(clamp_status(v) as i32),
            None => r matches Err(e) && e@ == "exit "@ + args[0] + ": undefined code\n"@,
        }
    }
}

/// What `exit` does: with no argument it ends with status 0; with a number it
/// ends with that number brought into 0 to 255; with anything else it prints
/// that the code is undefined and the interpreter goes on.
pub fn exit_code(cmd: &Cmd) -> (r: Result<i32, String>)
    ensures
        exit_outcome_ok(cmd.arg_views(), r),
{
    if cmd.args.len() == 0 {
        return Ok(0);
    }
    let arg = cmd.args[0].as_str();
    match parse_i32(arg) {
        Some(n) => {
            if n < 0 {
                Ok(0)
            } else if n > 255 {
                Ok(255)
            } else {
                Ok(n)
            }
        },
        None => {
            let mut msg = String::from_str("exit ");
            msg.append(arg);
            msg.append(": undefined code\n");
            Err(msg)
        },
    }
}

/// The words of `ws` separated by single spaces.
pub open spec fn join_words(ws: Seq<Seq<char>>) -> Seq<char>
    decreases ws.len(),
{
    if ws.len() == 0 {
        Seq::empty()
    } else if ws.len() == 1 {
        ws[0]
    } else {
        join_words(ws.drop_last()) + " "@ + ws.last()
    }
}

/// What `echo` prints: its arguments separated by spaces, then a line break.
pub fn echo(cmd: &Cmd) -> (r: String)
    ensures
        r@ == join_words(cmd.arg_views()) + "\n"@,
{
    let mut out = String::new();
    let mut i: usize = 0;
    let ghost ws = cmd.arg_views();
    assert(ws.take(0) =~= Seq::<Seq<char>>::empty());
    while i < cmd.args.len()
        invariant
            ws == views(cmd.args@),
            i <= cmd.args@.len(),
            out@ == join_words(ws.take(i as int)),
        decreases cmd.args@.len() - i,
    {
        assert(ws.take(i + 1).drop_last() =~= ws.take(i as int));
        if i > 0 {
            out.append(" ");
        } else {
            assert(ws.take(1) =~= seq![ws[0]]);
        }
        out.append(cmd.args[i].as_str());
        i = i + 1;
    }
    assert(ws.take(cmd.args@.len() as int) =~= ws);
    out.append("\n");
    out
}

/// What `clear` prints: erase the screen and move the cursor home.
pub fn clear() -> (r: String)
    ensures
        r@ == "\x1b[2J\x1b[H"@,
{
    String::from_str("\x1b[2J\x1b[H")
}

/// What `pwd` prints: the working directory and a line break.
pub fn pwd(shell: &Shell) -> (r: String)
    ensures
        r@ == shell.cwd@ + "\n"@,
{
    let mut r = shell.cwd.clone();
    r.append("\n");
    r
}

/// Device major number of a device id, in the classic encoding.
pub fn major(dev: u64) -> (r: u64)
    ensures
        r == (dev >> 8u64) & 0xfffu64,
{
    (dev >> 8) & 0xfff
}

/// Device minor number of a device id, in the classic encoding.
pub fn minor(dev: u64) -> (r: u64)
    ensures
        r == (dev & 0xffu64) | ((dev >> 12u64) & 0xfff00u64),
{
    (dev & 0xff) | ((dev >> 12) & 0xfff00)
}

/// The help table: each topic with its text.
pub open spec fn help_table() -> Seq<(Seq<char>, Seq<char>)> {
    seq![
        ("exit"@, "exit: Exit the shell..\n\tUsage: exit [status]"@),
        ("echo"@, "echo [args...]: Print arguments to the standard output.\n\tUsage: echo \"helloword\""@),
        ("pwd"@, "pwd: Print the current working directory.\n\tUsage: pwd"@),
        ("ls"@, "ls: List directory contents.\n\tUsage: ls -[lfa] [dir]"@),
        ("cd"@, "cd [dir]: Change the current directory.\n\tUsage: cd [dir]"@),
        ("cat"@, "cat [file...]: Concatenate and display file(s).\n\tUsage: cat [file]"@),
        ("mkdir"@, "mkdir [dir...]: Create new directories.\n\tUsage: mkdir [dir]"@),
        ("rm"@, "rm [file...]: Remove file(s) or directory recursively if implemented.\n\tUsage: rm -[r] [file]"@),
        ("cp"@, "cp [src] [dest]: Copy file from src to dest.\n\tUsage: pc [src] [dest]"@),
    ]
}

/// The character sequences of a table of string pairs.
pub open spec fn pair_views(t: Seq<(&'static str, &'static str)>) -> Seq<(Seq<char>, Seq<char>)> {
    t.map_values(|p: (&'static str, &'static str)| (p.0@, p.1@))
}

/// The help texts, one per topic.
pub fn get_help_texts() -> (r: Vec<(&'static str, &'static str)>)
    ensures
        pair_views(r@) == help_table(),
{
    let r = vec![
        ("exit", "exit: Exit the shell..\n\tUsage: exit [status]"),
        ("echo", "echo [args...]: Print arguments to the standard output.\n\tUsage: echo \"helloword\""),
        ("pwd", "pwd: Print the current working directory.\n\tUsage: pwd"),
        ("ls", "ls: List directory contents.\n\tUsage: ls -[lfa] [dir]"),
        ("cd", "cd [dir]: Change the current directory.\n\tUsage: cd [dir]"),
        ("cat", "cat [file...]: Concatenate and display file(s).\n\tUsage: cat [file]"),
        ("mkdir", "mkdir [dir...]: Create new directories.\n\tUsage: mkdir [dir]"),
        ("rm", "rm [file...]: Remove file(s) or directory recursively if implemented.\n\tUsage: rm -[r] [file]"),
        ("cp", "cp [src] [dest]: Copy file from src to dest.\n\tUsage: pc [src] [dest]"),
    ];
    assert(pair_views(r@) =~= help_table());
    r
}

/// The text of the first entry of `tab` on `topic`.
pub open spec fn help_text_of(tab: Seq<(Seq<char>, Seq<char>)>, topic: Seq<char>) -> Option<Seq<char>>
    decreases tab.len(),
{
    if tab.len() == 0 {
        None
    } else {
        match help_text_of(tab.drop_last(), topic) {
            Some(t) => Some(t),
            None => if tab.last().0 == topic {
                Some(tab.last().1)
            } else {
                None
            },
        }
    }
}

proof fn lemma_help_prefix(tab: Seq<(Seq<char>, Seq<char>)>, topic: Seq<char>, n: int)
    requires
        0 <= n <= tab.len(),
        help_text_of(tab.take(n), topic) is Some,
    ensures
        help_text_of(tab, topic) == help_text_of(tab.take(n), topic),
    decreases tab.len() - n,
{
    if n < tab.len() {
        assert(tab.take(n + 1).drop_last() =~= tab.take(n));
        lemma_help_prefix(tab, topic, n + 1);
    } else {
        assert(tab.take(n) =~= tab);
    }
}

/// One line per topic of `tab`, each indented by a tab.
pub open spec fn topic_lines(tab: Seq<(Seq<char>, Seq<char>)>) -> Seq<char>
    decreases tab.len(),
{
    if tab.len() == 0 {
        Seq::empty()
    } else {
        topic_lines(tab.drop_last()) + "\t"@ + tab.last().0 + "\n"@
    }
}

/// What `help` prints for arguments `args`.
pub open spec fn help_output(args: Seq<Seq<char>>) -> Seq<char> {
    if args.len() == 0 {
        "Usage: help [command]\n"@ + "Supported commands:\n"@ + topic_lines(help_table())
    } else if args.len() == 1 {
        match help_text_of(help_table(), args[0]) {
            Some(t) => t + "\n"@,
            None => "help: no help topics match '"@ + args[0] + "'\n"@,
        }
    } else {
        "help: too many arguments\n"@ + "Usage: help [command]\n"@
    }
}

/// What `help` prints: the list of topics without an argument, the text on
/// one topic with one argument, a usage message with more.
pub fn help(cmd: &Cmd) -> (r: String)
    ensures
        r@ == help_output(cmd.arg_views()),
{
    let texts = get_help_texts();
    let ghost tab = pair_views(texts@);
    if cmd.args.len() == 0 {
        let mut out = String::from_str("Usage: help [command]\n");
        out.append("Supported commands:\n");
        let mut i: usize = 0;
        assert(tab.take(0) =~= Seq::<(Seq<char>, Seq<char>)>::empty());
        while i < texts.len()
            invariant
                tab == pair_views(texts@),
                i <= texts@.len(),
                tab == help_table(),
                cmd.args@.len() == 0,
                out@ == "Usage: help [command]\n"@ + "Supported commands:\n"@ + topic_lines(tab.take(i as int)),
            decreases texts@.len() - i,
        {
            assert(tab.take(i + 1).drop_last() =~= tab.take(i as int));
            out.append("\t");
            out.append(texts[i].0);
            out.append("\n");
            i = i + 1;
        }
        assert(tab.take(texts@.len() as int) =~= tab);
        out
    } else if cmd.args.len() == 1 {
        let topic = cmd.args[0].as_str();
        let mut i: usize = 0;
        assert(tab.take(0) =~= Seq::<(Seq<char>, Seq<char>)>::empty());
        while i < texts.len()
            invariant
                tab == pair_views(texts@),
                i <= texts@.len(),
                help_text_of(tab.take(i as int), topic@) is None,
                tab == help_table(),
                topic@ == cmd.arg_views()[0],
                cmd.args@.len() == 1,
            decreases texts@.len() - i,
        {
            assert(tab.take(i + 1).drop_last() =~= tab.take(i as int));
            assert(tab[i as int] == (texts@[i as int].0@, texts@[i as int].1@));
            assert(tab.take(i + 1).last() == tab[i as int]);
            if crate::text::same_text(texts[i].0, topic) {
                proof {
                    lemma_help_prefix(tab, topic@, i + 1);
                }
                let mut out = String::from_str(texts[i].1);
                out.append("\n");
                return out;
            }
            i = i + 1;
        }
        assert(tab.take(texts@.len() as int) =~= tab);
        let mut out = String::from_str("help: no help topics match '");
        out.append(topic);
        out.append("'\n");
        out
    } else {
        let mut out = String::from_str("help: too many arguments\n");
        out.append("Usage: help [command]\n");
        out
    }
}

/// The paths `ls` lists: its arguments, or the current directory when it has none.
pub fn get_target(cmd: &Cmd) -> (r: Vec<String>)
    ensures
        views(r@) == if cmd.args@.len() == 0 {
            seq![ "."@ ]
        } else {
            cmd.arg_views()
        },
{
    if cmd.args.len() == 0 {
        let r = vec![String::from_str(".")];
        assert(views(r@) =~= seq![ "."@ ]);
        r
    } else {
        let mut r: Vec<String> = Vec::new();
        let mut i: usize = 0;
        while i < cmd.args.len()
            invariant
                i <= cmd.args@.len(),
                views(r@) == views(cmd.args@).take(i as int),
            decreases cmd.args@.len() - i,
        {
            let ghost before = r@;
            let a = cmd.args[i].clone();
            r.push(a);
            assert(views(r@) =~= views(before).push(a@));
            assert(views(cmd.args@).take(i + 1) =~= views(cmd.args@).take(i as int).push(cmd.args@[i as int]@));
            i = i + 1;
        }
        assert(views(cmd.args@).take(i as int) =~= views(cmd.args@));
        r
    }
}

/// `s` with every `~` replaced by `home`.
pub open spec fn tildes_replaced(s: Seq<char>, home: Seq<char>) -> Seq<char>
    decreases s.len(),
{
    if s.len() == 0 {
        s
    } else if s.last() == '~' {
        tildes_replaced(s.drop_last(), home) + home
    } else {
        tildes_replaced(s.drop_last(), home).push(s.last())
    }
}

/// A path as the file builtins use it: when it starts with `~`, every `~` in
/// it is replaced by the home directory `home`; otherwise it is unchanged.
pub fn expand_tilde(path: &str, home: &str) -> (r: String)
    ensures
        r@ == if path@.len() > 0 && path@[0] == '~' {
            tildes_replaced(path@, home@)
        } else {
            path@
        },
{
    let v = chars_of(path);
    if !(v.len() > 0 && v[0] == '~') {
        return String::from_str(path);
    }
    let mut out = String::new();
    let mut i: usize = 0;
    assert(v@.take(0) =~= Seq::<char>::empty());
    while i < v.len()
        invariant
            v@ == path@,
            i <= v@.len(),
            out@ == tildes_replaced(v@.take(i as int), home@),
        decreases v@.len() - i,
    {
        assert(v@.take(i + 1).drop_last() =~= v@.take(i as int));
        if v[i] == '~' {
            out.append(home);
        } else {
            push_char(&mut out, v[i]);
        }
        i = i + 1;
    }
    assert(v@.take(v@.len() as int) =~= v@);
    out
}

/// An answer that agrees: after leading blanks, it starts with `y` or `Y`.
pub open spec fn agrees(answer: Seq<char>) -> bool {
    let t = crate::prompt::trim_start(answer);
    t.len() > 0 && (t[0] == 'y' || t[0] == 'Y')
}

/// Whether `answer`, typed at a confirmation question, agrees.
pub fn confirms(answer: &str) -> (r: bool)
    ensures
        r == agrees(answer@),
{
    let v = chars_of(answer);
    let mut a: usize = 0;
    assert(v@.skip(0) =~= v@);
    while a < v.len() && crate::text::blank(v[a])
        invariant
            a <= v@.len(),
            crate::prompt::trim_start(v@) == crate::prompt::trim_start(v@.skip(a as int)),
        decreases v@.len() - a,
    {
        assert(v@.skip(a as int).drop_first() =~= v@.skip(a + 1));
        a = a + 1;
    }
    if a < v.len() {
        assert(v@.skip(a as int)[0] == v@[a as int]);
        v[a] == 'y' || v[a] == 'Y'
    } else {
        false
    }
}

} // verus!
