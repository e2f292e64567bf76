//! The interpreter's long-lived state and the state machine that the read
//! loop drives: each line read is handed to `accept_line`, which joins it to
//! pending input, rescans, and says what to do next.
use vstd::prelude::*;
use crate::text::{chars_of, string_of};
use crate::scan::{State, scan_command, scan_result_ok, is_complete, open_quote, ends_with_line_escape};
use crate::parse::{Cmd, parse_command, parse_result_ok, has_command};
use crate::exec::{Builtin, get_builtins, all_builtins};

verus! {

/// The interpreter's state, owned by the read loop.
pub struct Shell {
    /// The current working directory, as an absolute path.
    pub cwd: String,
    /// The builtin registry.
    pub builtins: Vec<Builtin>,
    /// What the last line left pending.
    pub state: State,
    /// The input accumulated since the last complete command.
    pub input: String,
    /// The prompt shown when no input is pending.
    pub prompt: String,
    /// The exit status of the last command run.
    pub last_status: i32,
    /// The complete commands entered so far, oldest first.
    pub history: Vec<String>,
}

/// What the read loop does after a line.
#[derive(Debug)]
pub enum Step {
    /// The input is incomplete: read another line.
    More,
    /// The input holds no command: prompt again.
    Empty,
    /// The input is a command to dispatch.
    Run(Cmd),
    /// The input could not be parsed: print the message and prompt again.
    Invalid(String),
}

/// `s` without the line breaks it ends with.
pub open spec fn without_newlines(s: Seq<char>) -> Seq<char>
    decreases s.len(),
{
    if s.len() > 0 && s.last() == '\n' {
        without_newlines(s.drop_last())
    } else {
        s
    }
}

/// The input after reading `line` with `pending` input in state `state`: a
/// line read when nothing is pending starts anew; a continuation line is
/// appended to what is pending. The line breaks that end `line` are dropped.
pub open spec fn joined_input(state: State, pending: Seq<char>, line: Seq<char>) -> Seq<char> {
    if state is Ready {
        without_newlines(line)
    } else {
        pending + without_newlines(line)
    }
}

/// What the loop does with complete-or-not input `s`.
pub open spec fn step_ok(s: Seq<char>, step: Step) -> bool {
    if !is_complete(s) {
        step is More
    } else if !has_command(s) {
        step is Empty
    } else {
        match step {
            Step::Run(cmd) => parse_result_ok(s, Ok(cmd)),
            Step::Invalid(e) => parse_result_ok(s, Err(e)),
            _ => false,
        }
    }
}

impl Shell {
    /// The state agrees with the pending input: a continuation state is what
    /// scanning that input yields.
    pub open spec fn wf(&self) -> bool {
        self.state is Ready || scan_result_ok(self.input@, Some(self.state))
    }

    /// A new interpreter in directory `cwd`, with the full registry and nothing pending.
    pub fn new(cwd: String) -> (r: Shell)
        ensures
            r.wf(),
            r.cwd == cwd,
            r.builtins@ == all_builtins(),
            r.state is Ready,
            r.input@.len() == 0,
            r.history@.len() == 0,
            r.last_status == 0,
            r.prompt@ == "$ "@,
    {
        Shell {
            cwd,
            builtins: get_builtins(),
            state: State::Ready,
            input: String::new(),
            prompt: String::from_str("$ "),
            last_status: 0,
            history: Vec::new(),
        }
    }

    /// Takes one line read from standard input: joins it to the pending input
    /// (or starts anew when nothing is pending), rescans all of it, and either
    /// waits for more or hands back the parsed command. A complete input that
    /// holds a command is added to the history.
    pub fn accept_line(&mut self, line: &str) -> (step: Step)
        requires
            old(self).wf(),
        ensures
            final(self).wf(),
            final(self).input@ == joined_input(old(self).state, old(self).input@, line@),
            step_ok(final(self).input@, step),
            is_complete(final(self).input@) ==> final(self).state is Ready,
            !is_complete(final(self).input@) ==> scan_result_ok(final(self).input@, Some(final(self).state)),
            final(self).history@ == if is_complete(final(self).input@) && has_command(final(self).input@) {
                old(self).history@.push(final(self).input)
            } else {
                old(self).history@
            },
            final(self).cwd == old(self).cwd,
            final(self).builtins == old(self).builtins,
            final(self).prompt == old(self).prompt,
            final(self).last_status == old(self).last_status,
    {
        let v = chars_of(line);
        let mut end = v.len();
        assert(v@.take(v@.len() as int) =~= v@);
        while end > 0 && v[end - 1] == '\n'
            invariant
                end <= v@.len(),
                without_newlines(v@) == without_newlines(v@.take(end as int)),
            decreases end,
        {
            assert(v@.take(end as int).drop_last() =~= v@.take(end - 1));
            end = end - 1;
        }
        if end > 0 {
            assert(v@.take(end as int).last() == v@[end - 1]);
        }
        assert(v@.take(end as int) =~= v@.subrange(0, end as int));
        let text = string_of(&v, 0, end);
        let joined = match self.state {
            State::Ready => text,
            _ => {
                let mut j = self.input.clone();
                j.append(text.as_str());
                j
            },
        };
        self.input = joined;
        match scan_command(self.input.as_str()) {
            Some(st) => {
                self.state = st;
                Step::More
            },
            None => {
                self.state = State::Ready;
                match parse_command(self.input.as_str()) {
                    Ok(cmd) => {
                        self.history.push(self.input.clone());
                        Step::Run(cmd)
                    },
                    Err(e) => {
                        proof {
                            if has_command(self.input@) {
                                crate::parse::lemma_name_nonempty(self.input@, Err(e));
                            }
                        }
                        if e.unicode_len() == 0 {
                            Step::Empty
                        } else {
                            self.history.push(self.input.clone());
                            Step::Invalid(e)
                        }
                    },
                }
            },
        }
    }

    /// An interrupt: whatever was pending is dropped and the next prompt is
    /// the standard one.
    pub fn interrupt(&mut self)
        ensures
            final(self).wf(),
            final(self).state is Ready,
            final(self).input@.len() == 0,
            final(self).cwd == old(self).cwd,
            final(self).builtins == old(self).builtins,
            final(self).prompt == old(self).prompt,
            final(self).history == old(self).history,
            final(self).last_status == old(self).last_status,
    {
        self.state = State::Ready;
        self.input = String::new();
    }

    /// The prompt for the next line: the standard prompt when nothing is
    /// pending, `"<kind>> "` inside an open quote, `"> "` after a line escape.
    pub fn prompt_text(&self) -> (r: String)
        ensures
            match self.state {
                State::Ready => r@ == self.prompt@,
                State::Quote(k) => r@ == k@ + "> "@,
                State::BackNewLine => r@ == "> "@,
            },
    {
        match &self.state {
            State::Ready => self.prompt.clone(),
            State::Quote(k) => {
                let mut r = k.clone();
                r.append("> ");
                r
            },
            State::BackNewLine => String::from_str("> "),
        }
    }
}

impl Shell {
    /// Records the end of a builtin run in a child process: the status it
    /// exited with, or the message to print when waiting for it failed. The
    /// child ran on its own copy of the state, so nothing else changes here.
    pub fn child_finished(&mut self, waited: Option<i32>) -> (msg: Option<String>)
        requires
            old(self).wf(),
        ensures
            final(self).wf(),
            match waited {
                Some(status) => final(self).last_status == status && msg is None,
                None => final(self).last_status == old(self).last_status && (msg matches Some(m) && m@ == "error wait\n"@),
            },
            final(self).cwd == old(self).cwd,
            final(self).builtins == old(self).builtins,
            final(self).state == old(self).state,
            final(self).input == old(self).input,
            final(self).prompt == old(self).prompt,
            final(self).history == old(self).history,
    {
        match waited {
            Some(status) => {
                self.last_status = status;
                None
            },
            None => Some(String::from_str("error wait\n")),
        }
    }
}

/// Pending input is never empty while the interpreter waits for a
/// continuation line.
pub proof fn lemma_pending_input_nonempty(sh: Shell)
    requires
        sh.wf(),
        !(sh.state is Ready),
    ensures
        sh.input@.len() > 0,
{
    if sh.input@.len() == 0 {
        assert(open_quote(sh.input@) is None);
        assert(!ends_with_line_escape(sh.input@));
    }
}

} // verus!
