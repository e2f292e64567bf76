//! Classifying accumulated input as complete or in need of a continuation line.
use vstd::prelude::*;

verus! {

/// The interpreter's state between two lines of input.
#[derive(Clone, Debug)]
pub enum State {
    /// No partial input is pending.
    Ready,
    /// A quote was left open; the payload names its kind (`"quote"` or `"dquote"`).
    Quote(String),
    /// The input ended in an unescaped backslash.
    BackNewLine,
}

/// One step of the quote tracker: the open quote (if any) and whether the
/// previous character was an escaping backslash, after reading `c`. An
/// unescaped backslash makes the next character literal, inside quotes or
/// not; an unescaped quote opens when none is open, closes an open quote of
/// its kind, and is literal inside a quote of the other kind.
pub open spec fn quote_step(open: Option<char>, escaped: bool, c: char) -> (Option<char>, bool) {
    if escaped {
        (open, false)
    } else if c == '\\' {
        (open, true)
    } else if c == '"' || c == '\'' {
        match open {
            None => (Some(c), false),
            Some(q) => if q == c {
                (None, false)
            } else {
                (open, false)
            },
        }
    } else {
        (open, false)
    }
}

/// The quote tracker after reading all of `s` from the left.
pub open spec fn quote_state(s: Seq<char>) -> (Option<char>, bool)
    decreases s.len(),
{
    if s.len() == 0 {
        (None, false)
    } else {
        let prev = quote_state(s.drop_last());
        quote_step(prev.0, prev.1, s.last())
    }
}

/// The quote left open at the end of `s`, if any.
pub open spec fn open_quote(s: Seq<char>) -> Option<char> {
    quote_state(s).0
}

/// The number of backslashes that `s` ends with.
pub open spec fn trailing_backslashes(s: Seq<char>) -> nat
    decreases s.len(),
{
    if s.len() > 0 && s.last() == '\\' {
        1 + trailing_backslashes(s.drop_last())
    } else {
        0
    }
}

/// `s` ends in a backslash that is not itself escaped.
pub open spec fn ends_with_line_escape(s: Seq<char>) -> bool {
    trailing_backslashes(s) % 2 == 1
}

/// The name shown in the continuation prompt for an open quote `q`.
pub open spec fn quote_name(q: char) -> Seq<char> {
    if q == '"' {
        "dquote"@
    } else {
        "quote"@
    }
}

/// `s` forms a complete command: no quote is open and no line escape is pending.
pub open spec fn is_complete(s: Seq<char>) -> bool {
    open_quote(s) is None && !ends_with_line_escape(s)
}

/// What scanning `s` yields: `None` for a complete input, else the
/// continuation state.
pub open spec fn scan_result_ok(s: Seq<char>, r: Option<State>) -> bool {
    match open_quote(s) {
        Some(q) => r matches Some(State::Quote(k)) && k@ == quote_name(q),
        None => if ends_with_line_escape(s) {
            r matches Some(State::BackNewLine)
        } else {
            r is None
        },
    }
}

fn count_trailing_backslashes(v: &Vec<char>) -> (n: usize)
    ensures
        n == trailing_backslashes(v@),
{
    let mut j: usize = v.len();
    let mut count: usize = 0;
    assert(v@.take(j as int) =~= v@);
    while j > 0 && v[j - 1] == '\\'
        invariant
            j <= v.len(),
            count == v.len() - j,
            trailing_backslashes(v@) == count + trailing_backslashes(v@.take(j as int)),
        decreases j,
    {
        assert(v@.take(j as int).drop_last() =~= v@.take(j - 1));
        count = count + 1;
        j = j - 1;
    }
    if j > 0 {
        assert(v@.take(j as int).last() == v@[j - 1]);
    }
    count
}

/// Classifies `input`: `None` when it is a complete command, `Quote` when a
/// quote is left open, `BackNewLine` when it ends in an unescaped backslash.
pub fn scan_command(input: &str) -> (r: Option<State>)
    ensures
        scan_result_ok(input@, r),
        r is None <==> is_complete(input@),
{
    let v = crate::text::chars_of(input);
    let mut open: Option<char> = None;
    let mut escaped = false;
    let mut i: usize = 0;
    while i < v.len()
        invariant
            v@ == input@,
            i <= v@.len(),
            (open, escaped) == quote_state(v@.take(i as int)),
        decreases v@.len() - i,
    {
        let c = v[i];
        assert(v@.take(i + 1).drop_last() =~= v@.take(i as int));
        if escaped {
            escaped = false;
        } else if c == '\\' {
            escaped = true;
        } else if c == '"' || c == '\'' {
            match open {
                None => open = Some(c),
                Some(q) => if q == c {
                    open = None;
                },
            }
        }
        i = i + 1;
    }
    assert(v@.take(v@.len() as int) =~= v@);
    match open {
        Some(q) => {
            if q == '"' {
                Some(State::Quote(String::from_str("dquote")))
            } else {
                Some(State::Quote(String::from_str("quote")))
            }
        },
        None => {
            if count_trailing_backslashes(&v) % 2 == 1 {
                Some(State::BackNewLine)
            } else {
                None
            }
        },
    }
}

/// The number of quote characters `q` in `s` that are not escaped by a
/// backslash.
pub open spec fn unescaped_quotes(s: Seq<char>, q: char) -> nat
    decreases s.len(),
{
    if s.len() == 0 {
        0
    } else {
        let prev = s.drop_last();
        unescaped_quotes(prev, q) + if s.last() == q && !quote_state(prev).1 {
            1nat
        } else {
            0nat
        }
    }
}

/// With no quote open, the tracker is escaping exactly when `s` ends in an
/// odd number of backslashes.
pub proof fn lemma_escape_parity(s: Seq<char>)
    requires
        open_quote(s) is None,
    ensures
        quote_state(s).1 == ends_with_line_escape(s),
    decreases s.len(),
{
    if s.len() > 0 {
        let p = s.drop_last();
        if s.last() == '\\' {
            if quote_state(p).0 is None {
                lemma_escape_parity(p);
            }
        }
    }
}

/// A line that ends in an unescaped backslash, with no quote open, is
/// scanned as `BackNewLine`; once that backslash is itself escaped by one
/// more backslash, the line is complete.
pub proof fn lemma_line_escape(s: Seq<char>, r: Option<State>, r2: Option<State>)
    requires
        open_quote(s) is None,
        ends_with_line_escape(s),
        scan_result_ok(s, r),
        scan_result_ok(s.push('\\'), r2),
    ensures
        r matches Some(State::BackNewLine),
        r2 is None,
{
    lemma_escape_parity(s);
    assert(s.push('\\').drop_last() =~= s);
}

/// The quote character other than `q`.
pub open spec fn other_quote(q: char) -> char {
    if q == '"' {
        '\''
    } else {
        '"'
    }
}

proof fn lemma_quote_count(s: Seq<char>, q: char)
    requires
        q == '"' || q == '\'',
        !s.contains(other_quote(q)),
    ensures
        open_quote(s) == if unescaped_quotes(s, q) % 2 == 1 {
            Some(q)
        } else {
            None::<char>
        },
    decreases s.len(),
{
    if s.len() > 0 {
        let p = s.drop_last();
        assert(!p.contains(other_quote(q))) by {
            if p.contains(other_quote(q)) {
                let k = choose|k: int| 0 <= k < p.len() && p[k] == other_quote(q);
                assert(s[k] == other_quote(q));
            }
        }
        assert(s.last() != other_quote(q)) by {
            assert(s[s.len() - 1] == s.last());
        }
        lemma_quote_count(p, q);
    }
}

/// When the input holds quotes of one kind `q` only, the scanner reports that
/// kind of quote open exactly when the number of unescaped `q` is odd; with an
/// even number, and no pending line escape, the input is complete.
pub proof fn lemma_quote_parity(s: Seq<char>, q: char, r: Option<State>)
    requires
        q == '"' || q == '\'',
        !s.contains(other_quote(q)),
        scan_result_ok(s, r),
    ensures
        unescaped_quotes(s, q) % 2 == 1 ==> (r matches Some(State::Quote(k)) && k@ == quote_name(q)),
        unescaped_quotes(s, q) % 2 == 0 && !ends_with_line_escape(s) ==> r is None,
{
    lemma_quote_count(s, q);
}

} // verus!
