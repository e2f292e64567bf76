//! The builtin registry and the decisions of the dispatcher: which builtin a
//! command names, whether it runs inside the interpreter or in a child
//! process, and the status that `exit` ends the interpreter with.
use vstd::prelude::*;
use crate::text::{chars_of, same_text, push_char};
use crate::lexer::views;
use crate::parse::Cmd;

verus! {

/// The builtin commands.
#[derive(Clone, Copy, Debug, PartialEq, Eq, Structural)]
pub enum Builtin {
    Help,
    Exit,
    Clear,
    Echo,
    Pwd,
    Touch,
    Ls,
    Cd,
    Mv,
    Cat,
    Mkdir,
    Rm,
    Cp,
}

/// The name under which a builtin is registered.
pub open spec fn builtin_name(b: Builtin) -> Seq<char> {
    match b {
        Builtin::Help => "help"@,
        Builtin::Exit => "exit"@,
        Builtin::Clear => "clear"@,
        Builtin::Echo => "echo"@,
        Builtin::Pwd => "pwd"@,
        Builtin::Touch => "touch"@,
        Builtin::Ls => "ls"@,
        Builtin::Cd => "cd"@,
        Builtin::Mv => "mv"@,
        Builtin::Cat => "cat"@,
        Builtin::Mkdir => "mkdir"@,
        Builtin::Rm => "rm"@,
        Builtin::Cp => "cp"@,
    }
}

impl Builtin {
    /// The name under which this builtin is registered.
    pub fn name(&self) -> (r: &'static str)
        ensures
            r@ == builtin_name(*self),
    {
        match self {
            Builtin::Help => "help",
            Builtin::Exit => "exit",
            Builtin::Clear => "clear",
            Builtin::Echo => "echo",
            Builtin::Pwd => "pwd",
            Builtin::Touch => "touch",
            Builtin::Ls => "ls",
            Builtin::Cd => "cd",
            Builtin::Mv => "mv",
            Builtin::Cat => "cat",
            Builtin::Mkdir => "mkdir",
            Builtin::Rm => "rm",
            Builtin::Cp => "cp",
        }
    }
}

/// Every builtin, in registration order.
pub open spec fn all_builtins() -> Seq<Builtin> {
    seq![
        Builtin::Help,
        Builtin::Exit,
        Builtin::Clear,
        Builtin::Echo,
        Builtin::Pwd,
        Builtin::Touch,
        Builtin::Ls,
        Builtin::Cd,
        Builtin::Mv,
        Builtin::Cat,
        Builtin::Mkdir,
        Builtin::Rm,
        Builtin::Cp,
    ]
}

/// The registry, built once when the interpreter starts.
pub fn get_builtins() -> (r: Vec<Builtin>)
    ensures
        r@ == all_builtins(),
{
    let r = vec![
        Builtin::Help,
        Builtin::Exit,
        Builtin::Clear,
        Builtin::Echo,
        Builtin::Pwd,
        Builtin::Touch,
        Builtin::Ls,
        Builtin::Cd,
        Builtin::Mv,
        Builtin::Cat,
        Builtin::Mkdir,
        Builtin::Rm,
        Builtin::Cp,
    ];
    assert(r@ =~= all_builtins());
    r
}

/// No two builtins share a name.
proof fn lemma_builtin_name_injective(a: Builtin, b: Builtin)
    requires
        builtin_name(a) == builtin_name(b),
    ensures
        a == b,
{
    reveal_strlit("help");
    reveal_strlit("exit");
    reveal_strlit("clear");
    reveal_strlit("echo");
    reveal_strlit("pwd");
    reveal_strlit("touch");
    reveal_strlit("ls");
    reveal_strlit("cd");
    reveal_strlit("mv");
    reveal_strlit("cat");
    reveal_strlit("mkdir");
    reveal_strlit("rm");
    reveal_strlit("cp");
    let n = builtin_name(a);
    assert(n.len() == builtin_name(b).len());
    assert(n[0] == builtin_name(b)[0]);
    assert(n[1] == builtin_name(b)[1]);
}

/// The registry's names are its unique keys: no two entries share a name.
pub proof fn lemma_registry_names_distinct()
    ensures
        forall|i: int, j: int|
            0 <= i < all_builtins().len() && 0 <= j < all_builtins().len() && i != j
                ==> builtin_name(#[trigger] all_builtins()[i]) != builtin_name(#[trigger] all_builtins()[j]),
{
    assert forall|i: int, j: int|
        0 <= i < all_builtins().len() && 0 <= j < all_builtins().len() && i != j
            implies builtin_name(#[trigger] all_builtins()[i]) != builtin_name(#[trigger] all_builtins()[j]) by {
        if builtin_name(all_builtins()[i]) == builtin_name(all_builtins()[j]) {
            lemma_builtin_name_injective(all_builtins()[i], all_builtins()[j]);
        }
    }
}

/// The first builtin of `reg` registered under `name`.
pub open spec fn registered(reg: Seq<Builtin>, name: Seq<char>) -> Option<Builtin>
    decreases reg.len(),
{
    if reg.len() == 0 {
        None
    } else {
        match registered(reg.drop_last(), name) {
            Some(b) => Some(b),
            None => if builtin_name(reg.last()) == name {
                Some(reg.last())
            } else {
                None
            },
        }
    }
}

/// Looks `name` up in the registry.
pub fn find_builtin(reg: &Vec<Builtin>, name: &str) -> (r: Option<Builtin>)
    ensures
        r == registered(reg@, name@),
{
    let mut i: usize = 0;
    assert(reg@.take(0) =~= Seq::<Builtin>::empty());
    while i < reg.len()
        invariant
            i <= reg@.len(),
            registered(reg@.take(i as int), name@) is None,
        decreases reg@.len() - i,
    {
        assert(reg@.take(i + 1).drop_last() =~= reg@.take(i as int));
        if same_text(reg[i].name(), name) {
            proof {
                lemma_registered_prefix(reg@, name@, i + 1);
            }
            return Some(reg[i]);
        }
        i = i + 1;
    }
    assert(reg@.take(reg@.len() as int) =~= reg@);
    None
}

/// A builtin found in a prefix of the registry is the one found in all of it.
proof fn lemma_registered_prefix(reg: Seq<Builtin>, name: Seq<char>, n: int)
    requires
        0 <= n <= reg.len(),
        registered(reg.take(n), name) is Some,
    ensures
        registered(reg, name) == registered(reg.take(n), name),
    decreases reg.len() - n,
{
    if n < reg.len() {
        assert(reg.take(n + 1).drop_last() =~= reg.take(n));
        lemma_registered_prefix(reg, name, n + 1);
    } else {
        assert(reg.take(n) =~= reg);
    }
}

/// Builtins that change the interpreter's own state, and so run inside it.
pub open spec fn runs_in_process(b: Builtin) -> bool {
    b == Builtin::Cd || b == Builtin::Exit
}

/// How a parsed command is to be run.
#[derive(Clone, Copy, Debug, PartialEq, Eq, Structural)]
pub enum Route {
    /// Run the builtin inside the interpreter, with access to its state.
    InProcess(Builtin),
    /// Run the builtin in a child process and wait for it.
    Forked(Builtin),
    /// No builtin has this name.
    Unknown,
}

/// The route that a command named `name` takes with registry `reg`.
pub open spec fn route_of(reg: Seq<Builtin>, name: Seq<char>) -> Route {
    match registered(reg, name) {
        Some(b) => if runs_in_process(b) {
            Route::InProcess(b)
        } else {
            Route::Forked(b)
        },
        None => Route::Unknown,
    }
}

/// Decides how `cmd` runs: `cd` and `exit` inside the interpreter, every other
/// builtin in a child process, and anything else is unknown.
pub fn route(reg: &Vec<Builtin>, cmd: &Cmd) -> (r: Route)
    ensures
        r == route_of(reg@, cmd.name@),
{
    match find_builtin(reg, cmd.name.as_str()) {
        Some(b) => {
            if b == Builtin::Cd || b == Builtin::Exit {
                Route::InProcess(b)
            } else {
                Route::Forked(b)
            }
        },
        None => Route::Unknown,
    }
}

/// The pieces of `s` between colons, as `str::split(':')` gives them: an
/// empty string gives one empty piece, and two adjacent colons an empty one.
pub open spec fn colon_pieces(s: Seq<char>) -> Seq<Seq<char>>
    decreases s.len(),
{
    if s.len() == 0 {
        seq![Seq::empty()]
    } else {
        let p = colon_pieces(s.drop_last());
        if s.last() == ':' {
            p.push(Seq::empty())
        } else {
            p.update(p.len() - 1, p.last().push(s.last()))
        }
    }
}

proof fn lemma_colon_pieces_nonempty(s: Seq<char>)
    ensures
        colon_pieces(s).len() > 0,
    decreases s.len(),
{
    if s.len() > 0 {
        lemma_colon_pieces_nonempty(s.drop_last());
    }
}

/// The directories of a `PATH`-style list.
pub fn path_dirs(path: &str) -> (r: Vec<String>)
    ensures
        views(r@) == colon_pieces(path@),
{
    let v = chars_of(path);
    let mut parts: Vec<String> = Vec::new();
    let mut cur = String::new();
    let mut i: usize = 0;
    assert(v@.take(0) =~= Seq::<char>::empty());
    assert(views(parts@).push(cur@) =~= seq![Seq::<char>::empty()]);
    while i < v.len()
        invariant
            v@ == path@,
            i <= v@.len(),
            colon_pieces(v@.take(i as int)) == views(parts@).push(cur@),
        decreases v@.len() - i,
    {
        let c = v[i];
        assert(v@.take(i + 1).drop_last() =~= v@.take(i as int));
        let ghost before = views(parts@).push(cur@);
        if c == ':' {
            let done = cur;
            let ghost old_parts = parts@;
            parts.push(done);
            cur = String::new();
            assert(views(parts@) =~= views(old_parts).push(done@));
            assert(views(parts@).push(cur@) =~= before.push(Seq::empty()));
        } else {
            push_char(&mut cur, c);
            assert(views(parts@).push(cur@) =~= before.update(before.len() - 1, before.last().push(c)));
        }
        i = i + 1;
    }
    assert(v@.take(v@.len() as int) =~= v@);
    let ghost old_parts = parts@;
    parts.push(cur);
    assert(views(parts@) =~= views(old_parts).push(cur@));
    parts
}

/// `path` names a file called `name`: it ends with a slash and then `name`.
pub open spec fn names_file(path: Seq<char>, name: Seq<char>) -> bool {
    path.len() >= name.len() + 1 && path.skip(path.len() - name.len() - 1) == seq!['/'] + name
}

/// Whether `path` names a file called `name`.
pub fn names_command(path: &str, name: &str) -> (r: bool)
    ensures
        r == names_file(path@, name@),
{
    let p = chars_of(path);
    let m = chars_of(name);
    if p.len() < m.len() || p.len() - m.len() < 1 {
        return false;
    }
    let off = p.len() - m.len() - 1;
    let ghost want = seq!['/'] + m@;
    if p[off] != '/' {
        assert(p@.skip(off as int)[0] != want[0]);
        return false;
    }
    let mut k: usize = 0;
    while k < m.len()
        invariant
            p@ == path@,
            m@ == name@,
            off + m.len() + 1 == p.len(),
            want == seq!['/'] + m@,
            p@[off as int] == '/',
            k <= m@.len(),
            forall|q: int| 0 <= q < k ==> p@[off + 1 + q] == m@[q],
        decreases m@.len() - k,
    {
        if p[off + 1 + k] != m[k] {
            assert(p@.skip(off as int)[k + 1] != want[k + 1]);
            return false;
        }
        k = k + 1;
    }
    assert(p@.skip(off as int) =~= want);
    true
}

/// What the interpreter prints for a command that is no builtin, given where
/// a search of `PATH` found a file of that name, if anywhere.
pub open spec fn unknown_message(name: Seq<char>, found: Option<Seq<char>>) -> Seq<char> {
    match found {
        Some(p) => name + ": found at "@ + p + ", but only builtin commands are run\n"@,
        None => "Command not found: "@ + name + "\n"@,
    }
}

/// The message for command `name`, which is no builtin.
pub fn not_found_message(name: &str, found: Option<String>) -> (r: String)
    ensures
        r@ == unknown_message(
            name@,
            match found {
                Some(p) => Some(p@),
                None => None,
            },
        ),
{
    match found {
        Some(p) => {
            let mut r = String::from_str(name);
            r.append(": found at ");
            r.append(p.as_str());
            r.append(", but only builtin commands are run\n");
            r
        },
        None => {
            let mut r = String::from_str("Command not found: ");
            r.append(name);
            r.append("\n");
            r
        },
    }
}

} // verus!
