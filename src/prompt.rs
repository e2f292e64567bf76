//! The text of the prompts: the clock prompt, and the directory prompt with
//! the current git branch.
use vstd::prelude::*;
use crate::text::{is_blank, blank, chars_of, same_text, string_of};
use crate::shell::Shell;

verus! {

/// `t` reads as a time of day `HH:MM:SS`.
pub open spec fn is_clock_text(t: Seq<char>) -> bool {
    &&& t.len() == 8
    &&& t[2] == ':' && t[5] == ':'
    &&& forall|k: int| 0 <= k < 8 && k != 2 && k != 5 ==> '0' <= #[trigger] t[k] <= '9'
}

/// Relies on chrono's `Local::now` and `DateTime::format` with `%H:%M:%S`,
/// which chrono documents as hour, minute and second, each zero-padded to two
/// digits.
#[verifier::external_body]
fn local_clock() -> (r: String)
    ensures
        is_clock_text(r@),
{
    chrono::Local::now().format("%H:%M:%S").to_string()
}

/// The clock prompt for time of day `t`.
pub open spec fn clock_prompt(t: Seq<char>) -> Seq<char> {
    "\x1b[36m\u{256d}\u{2500}[\x1b[1;37m\x1b[94m"@ + t + "\x1b[0m\x1b[36m]\x1b[0m\n\x1b[36m\u{2570}\u{2500}\u{bb} \x1b[0m"@
}

/// The clock prompt for the time of day `time`.
pub fn prompt_at(time: &str) -> (r: String)
    ensures
        r@ == clock_prompt(time@),
{
    let mut r = String::from_str("\x1b[36m\u{256d}\u{2500}[\x1b[1;37m\x1b[94m");
    r.append(time);
    r.append("\x1b[0m\x1b[36m]\x1b[0m\n\x1b[36m\u{2570}\u{2500}\u{bb} \x1b[0m");
    r
}

/// The clock prompt at the current local time.
pub fn display_prompt() -> (r: String)
    ensures
        exists|t: Seq<char>| is_clock_text(t) && r@ == clock_prompt(t),
{
    let t = local_clock();
    prompt_at(t.as_str())
}

/// `s` without the slashes it ends with.
pub open spec fn trim_slashes(s: Seq<char>) -> Seq<char>
    decreases s.len(),
{
    if s.len() > 0 && s.last() == '/' {
        trim_slashes(s.drop_last())
    } else {
        s
    }
}

/// What follows the last slash of `s` (all of `s` when it has none).
pub open spec fn after_last_slash(s: Seq<char>) -> Seq<char>
    decreases s.len(),
{
    if s.len() == 0 {
        s
    } else if s.last() == '/' {
        Seq::empty()
    } else {
        after_last_slash(s.drop_last()).push(s.last())
    }
}

/// The last component of a path; empty for the root.
pub open spec fn base_name(path: Seq<char>) -> Seq<char> {
    after_last_slash(trim_slashes(path))
}

/// The start of what follows the last slash of `v[from..end]`.
fn last_slash_end(v: &Vec<char>, from: usize, end: usize) -> (j: usize)
    requires
        from <= end <= v@.len(),
    ensures
        from <= j <= end,
        after_last_slash(v@.subrange(from as int, end as int)) == v@.subrange(j as int, end as int),
{
    let mut j = end;
    assert(v@.subrange(end as int, end as int) =~= Seq::<char>::empty());
    while j > from && v[j - 1] != '/'
        invariant
            from <= j <= end <= v@.len(),
            after_last_slash(v@.subrange(from as int, end as int)) == after_last_slash(
                v@.subrange(from as int, j as int),
            ) + v@.subrange(j as int, end as int),
        decreases j,
    {
        assert(v@.subrange(from as int, j as int).drop_last() =~= v@.subrange(from as int, j - 1));
        assert(v@.subrange(from as int, j as int).last() == v@[j - 1]);
        assert(v@.subrange(j - 1, end as int) =~= seq![v@[j - 1]] + v@.subrange(j as int, end as int));
        assert(after_last_slash(v@.subrange(from as int, j - 1)).push(v@[j - 1]) + v@.subrange(j as int, end as int)
            =~= after_last_slash(v@.subrange(from as int, j - 1)) + v@.subrange(j - 1, end as int));
        j = j - 1;
    }
    if j > from {
        assert(v@.subrange(from as int, j as int).last() == v@[j - 1]);
    }
    assert(after_last_slash(v@.subrange(from as int, j as int)) + v@.subrange(j as int, end as int)
        =~= v@.subrange(j as int, end as int));
    j
}

/// The last component of `path`.
pub fn base_name_of(path: &str) -> (r: String)
    ensures
        r@ == base_name(path@),
{
    let v = chars_of(path);
    let mut end = v.len();
    assert(v@.take(end as int) =~= v@);
    while end > 0 && v[end - 1] == '/'
        invariant
            end <= v@.len(),
            trim_slashes(v@) == trim_slashes(v@.take(end as int)),
        decreases end,
    {
        assert(v@.take(end as int).drop_last() =~= v@.take(end - 1));
        end = end - 1;
    }
    if end > 0 {
        assert(v@.take(end as int).last() == v@[end - 1]);
    }
    assert(v@.take(end as int) =~= v@.subrange(0, end as int));
    let j = last_slash_end(&v, 0, end);
    string_of(&v, j, end)
}

/// The prompt part naming git branch `b`.
pub open spec fn branch_part(b: Option<Seq<char>>) -> Seq<char> {
    match b {
        Some(name) => " \x1b[31mgit:(\x1b[36m"@ + name + "\x1b[31m)"@,
        None => Seq::empty(),
    }
}

/// The directory prompt for working directory `cwd` and git branch `b`.
pub open spec fn dir_prompt(cwd: Seq<char>, b: Option<Seq<char>>) -> Seq<char> {
    "\x1b[1m \x1b[32m"@ + base_name(cwd) + branch_part(b) + " \x1b[32m\u{279c}\x1b[0m "@
}

/// The characters of an optional string.
pub open spec fn opt_view(b: Option<String>) -> Option<Seq<char>> {
    match b {
        Some(s) => Some(s@),
        None => None,
    }
}

impl Shell {
    /// Sets the standard prompt from the working directory's last component
    /// and the git branch checked out there, if any.
    pub fn update_prompt(&mut self, git_branch: Option<String>)
        ensures
            final(self).prompt@ == dir_prompt(old(self).cwd@, opt_view(git_branch)),
            final(self).cwd == old(self).cwd,
            final(self).builtins == old(self).builtins,
            final(self).state == old(self).state,
            final(self).input == old(self).input,
            final(self).history == old(self).history,
            final(self).last_status == old(self).last_status,
    {
        let base = base_name_of(self.cwd.as_str());
        let mut p = String::from_str("\x1b[1m \x1b[32m");
        p.append(base.as_str());
        match git_branch {
            Some(b) => {
                p.append(" \x1b[31mgit:(\x1b[36m");
                p.append(b.as_str());
                p.append("\x1b[31m)");
            },
            None => {},
        }
        p.append(" \x1b[32m\u{279c}\x1b[0m ");
        self.prompt = p;
    }
}

/// `s` without leading blanks.
pub open spec fn trim_start(s: Seq<char>) -> Seq<char>
    decreases s.len(),
{
    if s.len() > 0 && is_blank(s[0]) {
        trim_start(s.drop_first())
    } else {
        s
    }
}

/// `s` without trailing blanks.
pub open spec fn trim_end(s: Seq<char>) -> Seq<char>
    decreases s.len(),
{
    if s.len() > 0 && is_blank(s.last()) {
        trim_end(s.drop_last())
    } else {
        s
    }
}

/// `s` without leading and trailing blanks.
pub open spec fn trim(s: Seq<char>) -> Seq<char> {
    trim_end(trim_start(s))
}

/// `s` starts with the symbolic-reference marker `ref: `.
pub open spec fn is_ref(s: Seq<char>) -> bool {
    s.len() >= 5 && s.take(5) == "ref: "@
}

/// `s` without its leading `ref: ` markers.
pub open spec fn strip_ref(s: Seq<char>) -> Seq<char>
    decreases s.len(),
{
    if is_ref(s) {
        strip_ref(s.skip(5))
    } else {
        s
    }
}

/// The branch named by the content of a git `HEAD` file: the last path
/// component of a symbolic reference, or else the first seven characters of
/// the commit id.
pub open spec fn head_branch(s: Seq<char>) -> Seq<char> {
    if is_ref(s) {
        after_last_slash(trim(strip_ref(s)))
    } else if trim(s).len() > 7 {
        trim(s).take(7)
    } else {
        trim(s)
    }
}

fn starts_with_ref(v: &Vec<char>, k: usize) -> (r: bool)
    requires
        k <= v@.len(),
    ensures
        r == is_ref(v@.skip(k as int)),
{
    if v.len() - k < 5 {
        return false;
    }
    let head = string_of(v, k, k + 5);
    assert(head@ =~= v@.skip(k as int).take(5));
    same_text(head.as_str(), "ref: ")
}

/// The bounds of `v[from..to]` without its leading and trailing blanks.
fn trim_bounds(v: &Vec<char>, from: usize, to: usize) -> (r: (usize, usize))
    requires
        from <= to <= v@.len(),
    ensures
        from <= r.0 <= r.1 <= to,
        trim(v@.subrange(from as int, to as int)) == v@.subrange(r.0 as int, r.1 as int),
{
    let mut a = from;
    assert(v@.subrange(from as int, to as int) =~= v@.subrange(a as int, to as int));
    while a < to && blank(v[a])
        invariant
            from <= a <= to <= v@.len(),
            trim_start(v@.subrange(from as int, to as int)) == trim_start(v@.subrange(a as int, to as int)),
        decreases to - a,
    {
        assert(v@.subrange(a as int, to as int).drop_first() =~= v@.subrange(a + 1, to as int));
        a = a + 1;
    }
    if a < to {
        assert(v@.subrange(a as int, to as int)[0] == v@[a as int]);
    }
    let mut b = to;
    while b > a && blank(v[b - 1])
        invariant
            a <= b <= to,
            to <= v@.len(),
            trim_end(v@.subrange(a as int, to as int)) == trim_end(v@.subrange(a as int, b as int)),
        decreases b,
    {
        assert(v@.subrange(a as int, b as int).drop_last() =~= v@.subrange(a as int, b - 1));
        b = b - 1;
    }
    if b > a {
        assert(v@.subrange(a as int, b as int).last() == v@[b - 1]);
    }
    (a, b)
}

/// The branch named by `content`, the text of a git `HEAD` file.
pub fn branch_from_head(content: &str) -> (r: String)
    ensures
        r@ == head_branch(content@),
{
    let v = chars_of(content);
    let n = v.len();
    assert(v@.skip(0) =~= v@);
    if starts_with_ref(&v, 0) {
        let mut k: usize = 0;
        while starts_with_ref(&v, k)
            invariant
                k <= n == v@.len(),
                strip_ref(v@) == strip_ref(v@.skip(k as int)),
            decreases n - k,
        {
            assert(v@.skip(k as int).skip(5) =~= v@.skip(k + 5));
            k = k + 5;
        }
        assert(v@.skip(k as int) =~= v@.subrange(k as int, n as int));
        let (a, b) = trim_bounds(&v, k, n);
        let j = last_slash_end(&v, a, b);
        string_of(&v, j, b)
    } else {
        let (a, b) = trim_bounds(&v, 0, n);
        assert(v@.subrange(0, n as int) =~= v@);
        if b - a > 7 {
            let r = string_of(&v, a, a + 7);
            assert(r@ =~= v@.subrange(a as int, b as int).take(7));
            r
        } else {
            string_of(&v, a, b)
        }
    }
}

/// `s` without trailing blanks.
pub fn trim_end_of(s: &str) -> (r: String)
    ensures
        r@ == trim_end(s@),
{
    let v = chars_of(s);
    let (a, b) = trim_bounds_end(&v);
    string_of(&v, a, b)
}

fn trim_bounds_end(v: &Vec<char>) -> (r: (usize, usize))
    ensures
        r.0 == 0,
        r.1 <= v@.len(),
        trim_end(v@) == v@.subrange(0, r.1 as int),
{
    let mut b = v.len();
    assert(v@.subrange(0, b as int) =~= v@);
    while b > 0 && blank(v[b - 1])
        invariant
            b <= v@.len(),
            trim_end(v@) == trim_end(v@.subrange(0, b as int)),
        decreases b,
    {
        assert(v@.subrange(0, b as int).drop_last() =~= v@.subrange(0, b - 1));
        b = b - 1;
    }
    if b > 0 {
        assert(v@.subrange(0, b as int).last() == v@[b - 1]);
    }
    (0, b)
}

} // verus!
