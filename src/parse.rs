//! Turning one complete command line into a `Cmd`: the command name, its
//! validated single-character flags, and its positional arguments.
use vstd::prelude::*;
use crate::text::{is_blank, blank, chars_of, same_text, push_char, string_of};
use crate::lexer::{tokenize, words_of, views};

verus! {

/// A parsed command.
#[derive(Debug)]
pub struct Cmd {
    /// The command name: the first blank-delimited word of the input.
    pub name: String,
    /// The flags, one character each, without repetition.
    pub flags: Vec<String>,
    /// The positional arguments, in order.
    pub args: Vec<String>,
}

impl Cmd {
    /// The characters given as flags.
    pub open spec fn flag_set(&self) -> Set<char> {
        Set::new(|c: char| exists|k: int| 0 <= k < self.flags@.len() && #[trigger] self.flags@[k]@ == seq![c])
    }

    /// The arguments as character sequences.
    pub open spec fn arg_views(&self) -> Seq<Seq<char>> {
        views(self.args@)
    }

    /// Every flag is a single character and no two flags are equal.
    pub open spec fn flags_distinct(&self) -> bool {
        &&& forall|k: int| 0 <= k < self.flags@.len() ==> (#[trigger] self.flags@[k])@.len() == 1
        &&& forall|a: int, b: int|
            0 <= a < self.flags@.len() && 0 <= b < self.flags@.len() && a != b
                ==> self.flags@[a]@ != self.flags@[b]@
    }
}

/// The first index at or after `i` whose character is not of the kind
/// `blanks` (blank when `blanks` is true, non-blank otherwise).
pub open spec fn skip_run(s: Seq<char>, i: int, blanks: bool) -> int
    decreases s.len() - i,
{
    if 0 <= i < s.len() && is_blank(s[i]) == blanks {
        skip_run(s, i + 1, blanks)
    } else {
        i
    }
}

/// Where the command name starts.
pub open spec fn name_start(s: Seq<char>) -> int {
    skip_run(s, 0, true)
}

/// Where the command name ends.
pub open spec fn name_end(s: Seq<char>) -> int {
    skip_run(s, name_start(s), false)
}

/// The input holds at least one word.
pub open spec fn has_command(s: Seq<char>) -> bool {
    name_start(s) < s.len()
}

/// The command name: the first blank-delimited word.
pub open spec fn command_name(s: Seq<char>) -> Seq<char> {
    s.subrange(name_start(s), name_end(s))
}

/// The words that follow the command name, tokenized.
pub open spec fn command_words(s: Seq<char>) -> Seq<Seq<char>> {
    words_of(s.subrange(name_end(s), s.len() as int))
}

/// A word that starts with a dash is a group of flags.
pub open spec fn is_flag_word(t: Seq<char>) -> bool {
    t.len() > 0 && t[0] == '-'
}

/// A word without its leading dashes.
pub open spec fn strip_dashes(t: Seq<char>) -> Seq<char>
    decreases t.len(),
{
    if t.len() > 0 && t[0] == '-' {
        strip_dashes(t.drop_first())
    } else {
        t
    }
}

/// The flags that the command named `command` accepts: `l`, `a` and `F` for `ls`, `r` for
/// `rm`, none for any other command.
pub open spec fn allowed_flag_name(command: Seq<char>, f: Seq<char>) -> bool {
    (command == "ls"@ && (f == "l"@ || f == "a"@ || f == "F"@)) || (command == "rm"@ && f == "r"@)
}

/// Every character of `cs` is a flag that `exec` accepts.
pub open spec fn flags_allowed(command: Seq<char>, cs: Seq<char>) -> bool {
    forall|k: int| 0 <= k < cs.len() ==> allowed_flag_name(command, seq![#[trigger] cs[k]])
}

/// A flag word holding a flag that `exec` does not accept.
pub open spec fn is_bad_word(command: Seq<char>, t: Seq<char>) -> bool {
    is_flag_word(t) && !flags_allowed(command, strip_dashes(t))
}

/// The index of the first word of `ts` that holds a flag `exec` does not accept.
pub open spec fn first_bad(command: Seq<char>, ts: Seq<Seq<char>>) -> Option<int>
    decreases ts.len(),
{
    if ts.len() == 0 {
        None
    } else {
        match first_bad(command, ts.drop_last()) {
            Some(k) => Some(k),
            None => if is_bad_word(command, ts.last()) {
                Some(ts.len() - 1)
            } else {
                None
            },
        }
    }
}

/// The words of `ts` that are not flag words, in order.
pub open spec fn arg_words(ts: Seq<Seq<char>>) -> Seq<Seq<char>>
    decreases ts.len(),
{
    if ts.len() == 0 {
        ts
    } else if is_flag_word(ts.last()) {
        arg_words(ts.drop_last())
    } else {
        arg_words(ts.drop_last()).push(ts.last())
    }
}

/// All flag characters of the flag words of `ts`.
pub open spec fn flag_chars(ts: Seq<Seq<char>>) -> Set<char>
    decreases ts.len(),
{
    if ts.len() == 0 {
        Set::empty()
    } else if is_flag_word(ts.last()) {
        flag_chars(ts.drop_last()) + strip_dashes(ts.last()).to_set()
    } else {
        flag_chars(ts.drop_last())
    }
}

/// The message for flag group `opt` that the command named `command` does not accept.
pub open spec fn invalid_option_message(command: Seq<char>, opt: Seq<char>) -> Seq<char> {
    command + ": invalid option -- '"@ + opt + "'\n"@
}

/// What `parse_command` returns for input `s`: an empty error when there is no
/// word at all; the message for the first bad flag word; otherwise the command.
pub open spec fn parse_result_ok(s: Seq<char>, r: Result<Cmd, String>) -> bool {
    if !has_command(s) {
        r matches Err(e) && e@ == Seq::<char>::empty()
    } else {
        let name = command_name(s);
        let ts = command_words(s);
        match first_bad(name, ts) {
            Some(k) => r matches Err(e) && e@ == invalid_option_message(name, strip_dashes(ts[k])),
            None => r matches Ok(cmd) && cmd.name@ == name && cmd.arg_views() == arg_words(ts)
                && cmd.flag_set() == flag_chars(ts) && cmd.flags_distinct(),
        }
    }
}

proof fn lemma_skip_run_bounds(s: Seq<char>, i: int, blanks: bool)
    requires
        0 <= i <= s.len(),
    ensures
        i <= skip_run(s, i, blanks) <= s.len(),
        skip_run(s, i, blanks) < s.len() ==> is_blank(s[skip_run(s, i, blanks)]) != blanks,
    decreases s.len() - i,
{
    if i < s.len() && is_blank(s[i]) == blanks {
        lemma_skip_run_bounds(s, i + 1, blanks);
    }
}

/// When the input holds a word, the command name is not empty, and neither is
/// any error message that parsing gives.
pub proof fn lemma_name_nonempty(s: Seq<char>, r: Result<Cmd, String>)
    requires
        has_command(s),
        parse_result_ok(s, r),
    ensures
        command_name(s).len() > 0,
        r matches Err(e) ==> e@.len() > 0,
{
    lemma_skip_run_bounds(s, 0, true);
    let a = name_start(s);
    lemma_skip_run_bounds(s, a + 1, false);
    assert(name_end(s) == skip_run(s, a + 1, false));
}

/// A bad flag word found in a prefix of `ts` is the first one in `ts` too.
proof fn lemma_first_bad_prefix(command: Seq<char>, ts: Seq<Seq<char>>, n: int)
    requires
        0 <= n <= ts.len(),
        first_bad(command, ts.take(n)) is Some,
    ensures
        first_bad(command, ts) == first_bad(command, ts.take(n)),
    decreases ts.len() - n,
{
    if n < ts.len() {
        assert(ts.take(n + 1).drop_last() =~= ts.take(n));
        lemma_first_bad_prefix(command, ts, n + 1);
    } else {
        assert(ts.take(n) =~= ts);
    }
}

fn skip_chars(v: &Vec<char>, from: usize, blanks: bool) -> (r: usize)
    requires
        from <= v@.len(),
    ensures
        r == skip_run(v@, from as int, blanks),
        from <= r <= v@.len(),
        forall|k: int| from <= k < r ==> is_blank(#[trigger] v@[k]) == blanks,
{
    let mut i = from;
    while i < v.len() && blank(v[i]) == blanks
        invariant
            from <= i <= v@.len(),
            skip_run(v@, i as int, blanks) == skip_run(v@, from as int, blanks),
            forall|k: int| from <= k < i ==> is_blank(#[trigger] v@[k]) == blanks,
        decreases v@.len() - i,
    {
        i = i + 1;
    }
    i
}

fn dash_count(v: &Vec<char>) -> (k: usize)
    ensures
        k <= v@.len(),
        strip_dashes(v@) == v@.subrange(k as int, v@.len() as int),
{
    let mut k: usize = 0;
    assert(v@.skip(0) =~= v@);
    while k < v.len() && v[k] == '-'
        invariant
            k <= v@.len(),
            strip_dashes(v@) == strip_dashes(v@.skip(k as int)),
        decreases v@.len() - k,
    {
        assert(v@.skip(k as int).drop_first() =~= v@.skip(k + 1));
        k = k + 1;
    }
    assert(v@.skip(k as int) =~= v@.subrange(k as int, v@.len() as int));
    k
}

fn holds_char(v: &Vec<char>, c: char) -> (r: bool)
    ensures
        r == v@.contains(c),
{
    let mut i: usize = 0;
    while i < v.len()
        invariant
            i <= v@.len(),
            forall|k: int| 0 <= k < i ==> v@[k] != c,
        decreases v@.len() - i,
    {
        if v[i] == c {
            return true;
        }
        i = i + 1;
    }
    false
}

/// Whether every entry of `args` is a flag that the command named `command` accepts.
pub fn valid_flags(command: &str, args: &Vec<String>) -> (r: bool)
    ensures
        r == forall|k: int| 0 <= k < args@.len() ==> allowed_flag_name(command@, #[trigger] args@[k]@),
{
    let is_ls = same_text(command, "ls");
    let is_rm = same_text(command, "rm");
    let mut i: usize = 0;
    while i < args.len()
        invariant
            is_ls == (command@ == "ls"@),
            is_rm == (command@ == "rm"@),
            i <= args@.len(),
            forall|k: int| 0 <= k < i ==> allowed_flag_name(command@, #[trigger] args@[k]@),
        decreases args@.len() - i,
    {
        let f = args[i].as_str();
        let ok = (is_ls && (same_text(f, "l") || same_text(f, "a") || same_text(f, "F"))) || (
        is_rm && same_text(f, "r"));
        if !ok {
            return false;
        }
        i = i + 1;
    }
    true
}

/// The one-character flags of a flag word, one string per character.
fn flag_strings(v: &Vec<char>, from: usize) -> (r: Vec<String>)
    requires
        from <= v@.len(),
    ensures
        r@.len() == v@.len() - from,
        forall|m: int| 0 <= m < r@.len() ==> (#[trigger] r@[m])@ == seq![v@[from + m]],
{
    let mut r: Vec<String> = Vec::new();
    let mut j = from;
    while j < v.len()
        invariant
            from <= j <= v@.len(),
            r@.len() == j - from,
            forall|m: int| 0 <= m < r@.len() ==> (#[trigger] r@[m])@ == seq![v@[from + m]],
        decreases v@.len() - j,
    {
        let mut f = String::new();
        push_char(&mut f, v[j]);
        assert(f@ =~= seq![v@[j as int]]);
        r.push(f);
        j = j + 1;
    }
    r
}

/// Parses one complete command line: the first word is the command name, the
/// words after it are tokenized; words that start with a dash give one flag
/// per character after the dashes, checked against what the command accepts,
/// and the other words are the arguments. Fails with an empty message when
/// the input has no word, and with an "invalid option" message naming the
/// first flag group that holds a flag the command does not accept.
pub fn parse_command(input: &str) -> (r: Result<Cmd, String>)
    ensures
        parse_result_ok(input@, r),
{
    let v = chars_of(input);
    let start = skip_chars(&v, 0, true);
    if start == v.len() {
        return Err(String::new());
    }
    let end = skip_chars(&v, start, false);
    let name = string_of(&v, start, end);
    let rest = string_of(&v, end, v.len());
    let words = tokenize(rest.as_str());
    let ghost ts = views(words@);
    assert(ts == command_words(input@));
    let mut seen: Vec<char> = Vec::new();
    let mut flags: Vec<String> = Vec::new();
    let mut args: Vec<String> = Vec::new();
    let mut i: usize = 0;
    assert(ts.take(0) =~= Seq::<Seq<char>>::empty());
    assert(seen@.to_set() =~= Set::<char>::empty());
    assert(views(args@) =~= Seq::<Seq<char>>::empty());
    while i < words.len()
        invariant
            ts == views(words@),
            ts == command_words(input@),
            has_command(input@),
            name@ == command_name(input@),
            i <= words@.len(),
            first_bad(name@, ts.take(i as int)) is None,
            views(args@) == arg_words(ts.take(i as int)),
            seen@.to_set() == flag_chars(ts.take(i as int)),
            seen@.no_duplicates(),
            flags@.len() == seen@.len(),
            forall|k: int| 0 <= k < flags@.len() ==> (#[trigger] flags@[k])@ == seq![seen@[k]],
        decreases words@.len() - i,
    {
        let ghost before = ts.take(i as int);
        assert(ts.take(i + 1).drop_last() =~= before);
        assert(ts.take(i + 1).last() == ts[i as int]);
        assert(ts[i as int] == words@[i as int]@);
        let tv = chars_of(words[i].as_str());
        if tv.len() > 0 && tv[0] == '-' {
            let k = dash_count(&tv);
            let candidates = flag_strings(&tv, k);
            let ghost stripped = strip_dashes(tv@);
            assert(forall|m: int| 0 <= m < candidates@.len() ==> candidates@[m]@ == seq![stripped[m]]);
            if !valid_flags(name.as_str(), &candidates) {
                assert(!flags_allowed(name@, stripped)) by {
                    let m = choose|m: int| 0 <= m < candidates@.len() && !allowed_flag_name(name@, #[trigger] candidates@[m]@);
                    assert(candidates@[m]@ == seq![stripped[m]]);
                }
                let mut msg = name.clone();
                msg.append(": invalid option -- '");
                let opt = string_of(&tv, k, tv.len());
                msg.append(opt.as_str());
                msg.append("'\n");
                assert(first_bad(name@, ts.take(i + 1)) == Some(i as int));
                proof {
                    lemma_first_bad_prefix(name@, ts, i + 1);
                }
                return Err(msg);
            }
            assert(flags_allowed(name@, stripped)) by {
                assert forall|m: int| 0 <= m < stripped.len() implies allowed_flag_name(name@, seq![#[trigger] stripped[m]]) by {
                    assert(candidates@[m]@ == seq![stripped[m]]);
                }
            }
            let mut j = k;
            assert(tv@.subrange(k as int, k as int).to_set() =~= Set::<char>::empty());
            assert(seen@.to_set() =~= flag_chars(before) + tv@.subrange(k as int, k as int).to_set());
            while j < tv.len()
                invariant
                    k <= j <= tv@.len(),
                    flags@.len() == seen@.len(),
                    forall|q: int| 0 <= q < flags@.len() ==> (#[trigger] flags@[q])@ == seq![seen@[q]],
                    seen@.no_duplicates(),
                    seen@.to_set() == flag_chars(before) + tv@.subrange(k as int, j as int).to_set(),
                decreases tv@.len() - j,
            {
                let c = tv[j];
                let ghost old_seen = seen@;
                if !holds_char(&seen, c) {
                    let mut f = String::new();
                    push_char(&mut f, c);
                    assert(f@ =~= seq![c]);
                    seen.push(c);
                    flags.push(f);
                    proof {
                        old_seen.lemma_push_to_set_commute(c);
                    }
                } else {
                    assert(old_seen.to_set().insert(c) =~= old_seen.to_set());
                }
                assert(seen@.to_set() == old_seen.to_set().insert(c));
                assert(seen@.to_set() =~= flag_chars(before) + tv@.subrange(k as int, j + 1).to_set()) by {
                    assert(tv@.subrange(k as int, j + 1) =~= tv@.subrange(k as int, j as int).push(c));
                    tv@.subrange(k as int, j as int).lemma_push_to_set_commute(c);
                }
                j = j + 1;
            }
            assert(tv@.subrange(k as int, tv@.len() as int) == stripped);
            assert(first_bad(name@, ts.take(i + 1)) is None);
            assert(arg_words(ts.take(i + 1)) == arg_words(before));
        } else {
            assert(!is_flag_word(ts[i as int]));
            args.push(words[i].clone());
            assert(views(args@) =~= arg_words(ts.take(i + 1)));
        }
        i = i + 1;
    }
    assert(ts.take(words@.len() as int) =~= ts);
    let cmd = Cmd { name, flags, args };
    assert(cmd.flag_set() =~= seen@.to_set()) by {
        assert forall|c: char| cmd.flag_set().contains(c) implies seen@.contains(c) by {
            let q = choose|q: int| 0 <= q < cmd.flags@.len() && #[trigger] cmd.flags@[q]@ == seq![c];
            assert(seq![seen@[q]][0] == seq![c][0]);
        }
        assert forall|c: char| seen@.contains(c) implies cmd.flag_set().contains(c) by {
            let q = choose|q: int| 0 <= q < seen@.len() && seen@[q] == c;
            assert(cmd.flags@[q]@ == seq![c]);
        }
    }
    assert(cmd.flags_distinct()) by {
        assert forall|a: int, b: int|
            0 <= a < cmd.flags@.len() && 0 <= b < cmd.flags@.len() && a != b
            implies cmd.flags@[a]@ != cmd.flags@[b]@ by {
            assert(seq![seen@[a]][0] == seen@[a]);
            assert(seq![seen@[b]][0] == seen@[b]);
        }
    }
    Ok(cmd)
}

/// Two commands with the same name, the same flags and the same arguments.
pub open spec fn same_command(a: Cmd, b: Cmd) -> bool {
    a.name@ == b.name@ && a.flag_set() == b.flag_set() && a.arg_views() == b.arg_views()
}

/// Parsing is a function of the input: two parses of one string both succeed
/// with structurally identical commands, or both fail with the same message.
pub proof fn lemma_parse_deterministic(s: Seq<char>, r1: Result<Cmd, String>, r2: Result<Cmd, String>)
    requires
        parse_result_ok(s, r1),
        parse_result_ok(s, r2),
    ensures
        r1 is Ok <==> r2 is Ok,
        r1 matches Ok(a) ==> (r2 matches Ok(b) && same_command(a, b)),
        r1 matches Err(e1) ==> (r2 matches Err(e2) && e1@ == e2@),
{
}

} // verus!
