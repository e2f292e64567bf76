//! A simpler word splitter that classifies words by position and leading dash.
use vstd::prelude::*;
use crate::text::{is_blank, blank, chars_of, push_char};
use crate::lexer::views;

verus! {

/// A classified word.
#[derive(Debug, Clone)]
pub enum Token {
    /// A word that does not start with a dash.
    Command(String),
    /// A word after the first that starts with a dash.
    Arg(String),
    /// A first word that starts with a dash.
    Invalid(String),
}

/// The splitter's state after reading a prefix of its input.
pub struct SplitState {
    /// Words emitted so far.
    pub words: Seq<Seq<char>>,
    /// The word being built.
    pub cur: Seq<char>,
    /// Inside double quotes.
    pub quoted: bool,
}

/// Reading one character: a double quote toggles quoting and is dropped; a
/// blank outside quotes ends the current word; anything else is kept.
pub open spec fn split_step(st: SplitState, c: char) -> SplitState {
    if c == '"' {
        SplitState { quoted: !st.quoted, ..st }
    } else if is_blank(c) && !st.quoted {
        if st.cur.len() > 0 {
            SplitState { words: st.words.push(st.cur), cur: Seq::empty(), ..st }
        } else {
            st
        }
    } else {
        SplitState { cur: st.cur.push(c), ..st }
    }
}

/// The splitter's state after reading all of `s`.
pub open spec fn split_state(s: Seq<char>) -> SplitState
    decreases s.len(),
{
    if s.len() == 0 {
        SplitState { words: Seq::empty(), cur: Seq::empty(), quoted: false }
    } else {
        split_step(split_state(s.drop_last()), s.last())
    }
}

/// The words of `s` under double-quote grouping.
pub open spec fn split_words(s: Seq<char>) -> Seq<Seq<char>> {
    let st = split_state(s);
    if st.cur.len() > 0 {
        st.words.push(st.cur)
    } else {
        st.words
    }
}

/// Whether `t` starts with a dash.
pub open spec fn dashed(t: Seq<char>) -> bool {
    t.len() > 0 && t[0] == '-'
}

/// `tok` is the classification of word `t` found at position `i`.
pub open spec fn classified(i: int, t: Seq<char>, tok: Token) -> bool {
    if dashed(t) && i == 0 {
        tok matches Token::Invalid(w) && w@ == t
    } else if dashed(t) {
        tok matches Token::Arg(w) && w@ == t
    } else {
        tok matches Token::Command(w) && w@ == t
    }
}

/// `toks` classifies `words` one for one.
pub open spec fn classifies(words: Seq<Seq<char>>, toks: Seq<Token>) -> bool {
    toks.len() == words.len() && forall|i: int| 0 <= i < words.len() ==> classified(i, words[i], #[trigger] toks[i])
}

/// Splits `command` into words and classifies them.
pub fn tokens(command: &String) -> (r: Vec<Token>)
    ensures
        classifies(split_words(command@), r@),
{
    let v = chars_of(command.as_str());
    let mut words: Vec<String> = Vec::new();
    let mut cur = String::new();
    let mut quoted = false;
    let mut i: usize = 0;
    assert(views(words@) =~= Seq::<Seq<char>>::empty());
    assert(v@.take(0) =~= Seq::<char>::empty());
    while i < v.len()
        invariant
            v@ == command@,
            i <= v@.len(),
            split_state(v@.take(i as int)) == (SplitState { words: views(words@), cur: cur@, quoted }),
        decreases v@.len() - i,
    {
        let c = v[i];
        assert(v@.take(i + 1).drop_last() =~= v@.take(i as int));
        if c == '"' {
            quoted = !quoted;
        } else if blank(c) && !quoted {
            if cur.unicode_len() > 0 {
                let ghost old_words = words@;
                let done = cur;
                words.push(done);
                cur = String::new();
                assert(views(words@) =~= views(old_words).push(done@));
            }
        } else {
            push_char(&mut cur, c);
        }
        i = i + 1;
    }
    assert(v@.take(v@.len() as int) =~= v@);
    if cur.unicode_len() > 0 {
        let ghost old_words = words@;
        let done = cur;
        words.push(done);
        assert(views(words@) =~= views(old_words).push(done@));
    }
    token_parsing(&words)
}

/// Classifies each word: a first word with a leading dash is `Invalid`, a later
/// one is an `Arg`, and a word without a leading dash is a `Command`.
pub fn token_parsing(tokens: &Vec<String>) -> (r: Vec<Token>)
    ensures
        classifies(views(tokens@), r@),
{
    let mut out: Vec<Token> = Vec::new();
    let mut i: usize = 0;
    while i < tokens.len()
        invariant
            i <= tokens@.len(),
            out@.len() == i,
            forall|k: int| 0 <= k < i ==> classified(k, tokens@[k]@, #[trigger] out@[k]),
        decreases tokens@.len() - i,
    {
        let t = &tokens[i];
        let tv = t.as_str();
        let is_dashed = tv.unicode_len() > 0 && tv.get_char(0) == '-';
        let w = t.clone();
        if is_dashed && i == 0 {
            out.push(Token::Invalid(w));
        } else if is_dashed {
            out.push(Token::Arg(w));
        } else {
            out.push(Token::Command(w));
        }
        i = i + 1;
    }
    out
}

} // verus!
