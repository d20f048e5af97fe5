use vstd::prelude::*;

use crate::chars::{is_sep, lemma_char_in_seq, specifiers_of};
use crate::token::Token;

verus! {

broadcast use lemma_char_in_seq;

pub const ERROR_WILDCARDS: &'static str = "wildcards are either regular `*` or recursive `**`";

pub const ERROR_RECURSIVE_WILDCARDS: &'static str = "recursive wildcards must form a single path component";

pub const ERROR_INVALID_RANGE: &'static str = "invalid range pattern";

/// A pattern parsing error.
#[derive(Clone, Copy, Debug)]
pub struct PatternError {
    /// The approximate character index of where the error occurred.
    pub pos: usize,
    /// A message describing the error.
    pub msg: &'static str,
}

/// The end of the run of `*` that starts at `i`.
pub open spec fn star_run_end(s: Seq<char>, i: int) -> int
    decreases s.len() - i,
{
    if 0 <= i < s.len() && s[i] == '*' {
        star_run_end(s, i + 1)
    } else {
        i
    }
}

/// The first `]` at or after `i`.
pub open spec fn find_close(s: Seq<char>, i: int) -> Option<int>
    decreases s.len() - i,
{
    if i < 0 || i >= s.len() {
        None
    } else if s[i] == ']' {
        Some(i)
    } else {
        find_close(s, i + 1)
    }
}

/// A run of `*` ends at the first other character, or at the end.
pub proof fn lemma_star_run(s: Seq<char>, i: int)
    requires
        0 <= i <= s.len(),
    ensures
        i <= star_run_end(s, i) <= s.len(),
        forall|j: int| i <= j < star_run_end(s, i) ==> s[j] == '*',
        star_run_end(s, i) == s.len() || s[star_run_end(s, i)] != '*',
    decreases s.len() - i,
{
    if i < s.len() && s[i] == '*' {
        lemma_star_run(s, i + 1);
    }
}

/// `find_close` finds the first `]`, or says that there is none.
pub proof fn lemma_find_close(s: Seq<char>, i: int)
    requires
        0 <= i,
    ensures
        match find_close(s, i) {
            Some(k) => i <= k < s.len() && s[k] == ']' && forall|j: int| i <= j < k ==> s[j] != ']',
            None => forall|j: int| i <= j < s.len() ==> s[j] != ']',
        },
    decreases s.len() - i,
{
    if i < s.len() && s[i] != ']' {
        lemma_find_close(s, i + 1);
    }
}

/// Appends a recursive wildcard, unless the tokens already end with one:
/// consecutive recursive wildcards collapse into one.
pub open spec fn push_recursive(toks: Seq<Token>) -> Seq<Token> {
    if toks.len() > 0 && toks.last() is AnyRecursiveSequence {
        toks
    } else {
        toks.push(Token::AnyRecursiveSequence)
    }
}

/// Scans `s` from `i` on, with `toks` compiled so far.
pub open spec fn parse_from(s: Seq<char>, i: int, toks: Seq<Token>) -> Result<
    Seq<Token>,
    PatternError,
>
    decreases s.len() - i,
{
    if i < 0 || i >= s.len() {
        Ok(toks)
    } else if s[i] == '?' {
        parse_from(s, i + 1, toks.push(Token::AnyChar))
    } else if s[i] == '*' {
        let e = star_run_end(s, i);
        proof {
            lemma_star_run(s, i);
        }
        if e - i > 2 {
            Err(PatternError { pos: (i + 2) as usize, msg: ERROR_WILDCARDS })
        } else if e - i == 2 {
            if i == 0 || is_sep(s[i - 1]) {
                if e < s.len() && is_sep(s[e]) {
                    parse_from(s, e + 1, push_recursive(toks))
                } else if e == s.len() {
                    Ok(push_recursive(toks))
                } else {
                    Err(PatternError { pos: e as usize, msg: ERROR_RECURSIVE_WILDCARDS })
                }
            } else {
                Err(PatternError { pos: (i - 1) as usize, msg: ERROR_RECURSIVE_WILDCARDS })
            }
        } else {
            parse_from(s, e, toks.push(Token::AnySequence))
        }
    } else if s[i] == '[' {
        if i + 4 <= s.len() && s[i + 1] == '!' {
            match find_close(s, i + 3) {
                Some(k) => {
                    proof {
                        lemma_find_close(s, i + 3);
                    }
                    parse_from(s, k + 1, toks.push(Token::AnyExcept(specifiers_of(s, i + 2, k))))
                },
                None => Err(PatternError { pos: i as usize, msg: ERROR_INVALID_RANGE }),
            }
        } else if i + 3 <= s.len() && s[i + 1] != '!' {
            match find_close(s, i + 2) {
                Some(k) => {
                    proof {
                        lemma_find_close(s, i + 2);
                    }
                    parse_from(s, k + 1, toks.push(Token::AnyWithin(specifiers_of(s, i + 1, k))))
                },
                None => Err(PatternError { pos: i as usize, msg: ERROR_INVALID_RANGE }),
            }
        } else {
            Err(PatternError { pos: i as usize, msg: ERROR_INVALID_RANGE })
        }
    } else {
        parse_from(s, i + 1, toks.push(Token::Char(s[i])))
    }
}

/// The tokens that the pattern text `s` compiles to, or the error that
/// rejects it.
///
/// `?` is any character; a run of one `*` is any sequence; a run of two is a
/// recursive wildcard, which must be bounded by separators or the ends of the
/// pattern (it then takes the separator after it), and collapses into a
/// recursive wildcard just before it; a longer run is an error. `[...]` and
/// `[!...]` are classes whose body runs to the next `]`, where a `]` right
/// after the opening is part of the body; an unclosed class is an error.
/// Anything else is a literal character.
pub open spec fn parse_pattern(s: Seq<char>) -> Result<Seq<Token>, PatternError> {
    parse_from(s, 0, Seq::empty())
}

/// The first `]` in `s` at or after `from`.
pub fn find_closing_bracket(s: &Vec<char>, from: usize) -> (r: Option<usize>)
    ensures
        match find_close(s@, from as int) {
            Some(k) => r == Some(k as usize),
            None => r is None,
        },
{
    let mut j: usize = from;
    while j < s.len()
        invariant
            from <= j,
            find_close(s@, from as int) == find_close(s@, j as int),
        decreases s.len() - j,
    {
        if s[j] == ']' {
            return Some(j);
        }
        j = j + 1;
    }
    None
}

} // verus!
