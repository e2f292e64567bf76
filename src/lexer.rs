//! Splitting a complete command line into words, honouring quotes and escapes.
use vstd::prelude::*;
use crate::text::{is_blank, blank, chars_of, push_char};

verus! {

/// The tokenizer's state after reading a prefix of its input.
pub struct LexState {
    /// Words emitted so far.
    pub words: Seq<Seq<char>>,
    /// The word being built.
    pub cur: Seq<char>,
    /// Inside single quotes.
    pub single: bool,
    /// Inside double quotes.
    pub double: bool,
    /// The previous character was an escaping backslash.
    pub escaped: bool,
}

/// The state before any character is read.
pub open spec fn lex_start() -> LexState {
    LexState { words: Seq::empty(), cur: Seq::empty(), single: false, double: false, escaped: false }
}

/// Reading one character `c` in state `st`.
/// - after an escaping backslash, `c` is taken literally;
/// - inside single quotes every character but the closing quote is literal;
/// - elsewhere a backslash escapes the next character;
/// - inside double quotes the other kind of quote is literal;
/// - outside quotes a blank ends the current word, and runs of blanks give no
///   empty words.
pub open spec fn lex_step(st: LexState, c: char) -> LexState {
    if st.escaped {
        LexState { cur: st.cur.push(c), escaped: false, ..st }
    } else if st.single {
        if c == '\'' {
            LexState { single: false, ..st }
        } else {
            LexState { cur: st.cur.push(c), ..st }
        }
    } else if c == '\\' {
        LexState { escaped: true, ..st }
    } else if st.double {
        if c == '"' {
            LexState { double: false, ..st }
        } else {
            LexState { cur: st.cur.push(c), ..st }
        }
    } else if c == '\'' {
        LexState { single: true, ..st }
    } else if c == '"' {
        LexState { double: true, ..st }
    } else if is_blank(c) {
        if st.cur.len() > 0 {
            LexState { words: st.words.push(st.cur), cur: Seq::empty(), ..st }
        } else {
            st
        }
    } else {
        LexState { cur: st.cur.push(c), ..st }
    }
}

/// The state after reading all of `s`.
pub open spec fn lex(s: Seq<char>) -> LexState
    decreases s.len(),
{
    if s.len() == 0 {
        lex_start()
    } else {
        lex_step(lex(s.drop_last()), s.last())
    }
}

/// The words of `s`: those emitted, and the last one if it is not empty.
pub open spec fn words_of(s: Seq<char>) -> Seq<Seq<char>> {
    let st = lex(s);
    if st.cur.len() > 0 {
        st.words.push(st.cur)
    } else {
        st.words
    }
}

/// The character sequences held by a vector of strings.
pub open spec fn views(v: Seq<String>) -> Seq<Seq<char>> {
    v.map_values(|w: String| w@)
}

/// Splits `input` into words (see `lex_step` for the rules).
pub fn tokenize(input: &str) -> (r: Vec<String>)
    ensures
        views(r@) == words_of(input@),
{
    let v = chars_of(input);
    let mut words: Vec<String> = Vec::new();
    let mut cur = String::new();
    let mut single = false;
    let mut double = false;
    let mut escaped = false;
    let mut i: usize = 0;
    assert(views(words@) =~= Seq::<Seq<char>>::empty());
    assert(v@.take(0) =~= Seq::<char>::empty());
    while i < v.len()
        invariant
            v@ == input@,
            i <= v@.len(),
            lex(v@.take(i as int)) == (LexState {
                words: views(words@),
                cur: cur@,
                single,
                double,
                escaped,
            }),
        decreases v@.len() - i,
    {
        let c = v[i];
        assert(v@.take(i + 1).drop_last() =~= v@.take(i as int));
        if escaped {
            push_char(&mut cur, c);
            escaped = false;
        } else if single {
            if c == '\'' {
                single = false;
            } else {
                push_char(&mut cur, c);
            }
        } else if c == '\\' {
            escaped = true;
        } else if double {
            if c == '"' {
                double = false;
            } else {
                push_char(&mut cur, c);
            }
        } else if c == '\'' {
            single = true;
        } else if c == '"' {
            double = true;
        } else if blank(c) {
            if cur.unicode_len() > 0 {
                let ghost old_words = words@;
                let done = cur;
                words.push(done);
                cur = String::new();
                assert(views(words@) =~= views(old_words).push(done@));
            }
        } else {
            push_char(&mut cur, c);
        }
        i = i + 1;
    }
    assert(v@.take(v@.len() as int) =~= v@);
    if cur.unicode_len() > 0 {
        let ghost old_words = words@;
        let done = cur;
        words.push(done);
        assert(views(words@) =~= views(old_words).push(done@));
    }
    words
}

} // verus!
