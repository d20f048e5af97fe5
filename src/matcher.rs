use vstd::prelude::*;

use crate::chars::{chars_match, class_accepts, is_sep};
use crate::options::MatchOptions;
use crate::token::{MatchResult, Token};

verus! {

/// Whether a wildcard token (`?` or a class) must refuse `c`: a separator
/// where separators must be literal, or a leading dot where leading dots must
/// be literal.
pub open spec fn guarded(c: char, follows_separator: bool, o: MatchOptions) -> bool {
    (o.require_literal_separator && is_sep(c)) || (follows_separator
        && o.require_literal_leading_dot && c == '.')
}

/// Whether a token that stands for exactly one character accepts `c`.
pub open spec fn single_accepts(t: Token, c: char, follows_separator: bool, o: MatchOptions) -> bool {
    match t {
        Token::Char(x) => chars_match(c, x, o.case_sensitive),
        Token::AnyChar => !guarded(c, follows_separator, o),
        Token::AnyWithin(v) => !guarded(c, follows_separator, o) && class_accepts(
            v,
            c,
            o.case_sensitive,
        ),
        Token::AnyExcept(v) => !guarded(c, follows_separator, o) && !class_accepts(
            v,
            c,
            o.case_sensitive,
        ),
        _ => false,
    }
}

/// `*` or `**`: a token that stands for any number of characters.
pub open spec fn is_wildcard(t: Token) -> bool {
    t is AnySequence || t is AnyRecursiveSequence
}

/// The outcome of matching the tokens `t[ti..]` against the candidate
/// `s[si..]`, where `follows_separator` tells whether `s[si]` starts a path
/// component.
///
/// A token that stands for one character consumes one, and the candidate
/// running out there ends the whole match. A wildcard first tries to match
/// nothing, then ever longer prefixes of the rest (see `match_star`).
pub open spec fn match_tokens(
    t: Seq<Token>,
    ti: int,
    s: Seq<char>,
    si: int,
    follows_separator: bool,
    o: MatchOptions,
) -> MatchResult
    decreases t.len() - ti, s.len() - si + 1,
    when 0 <= si <= s.len()
{
    if ti >= t.len() {
        if si >= s.len() {
            MatchResult::Match
        } else {
            MatchResult::SubPatternDoesntMatch
        }
    } else if is_wildcard(t[ti]) {
        let r = match_tokens(t, ti + 1, s, si, follows_separator, o);
        if r != MatchResult::SubPatternDoesntMatch {
            r
        } else {
            match_star(t, ti, s, si, follows_separator, o)
        }
    } else if si >= s.len() {
        MatchResult::EntirePatternDoesntMatch
    } else if single_accepts(t[ti], s[si], follows_separator, o) {
        match_tokens(t, ti + 1, s, si + 1, is_sep(s[si]), o)
    } else {
        MatchResult::SubPatternDoesntMatch
    }
}

/// The outcome of the wildcard `t[ti]` once it has consumed the candidate up
/// to `s[k]`, with the empty and the shorter prefixes already refused.
///
/// The next character is consumed and the tokens after the wildcard are
/// tried on the rest. A leading dot where it must be literal stops the
/// wildcard; a recursive wildcard resumes only right after a separator; a
/// plain wildcard stops at a separator where separators must be literal.
/// Once the candidate is used up, the tokens after the wildcard are matched
/// against nothing.
pub open spec fn match_star(
    t: Seq<Token>,
    ti: int,
    s: Seq<char>,
    k: int,
    follows_separator: bool,
    o: MatchOptions,
) -> MatchResult
    decreases t.len() - ti, s.len() - k,
    when 0 <= ti < t.len() && 0 <= k <= s.len()
{
    if k >= s.len() {
        match_tokens(t, ti + 1, s, k, follows_separator, o)
    } else if follows_separator && o.require_literal_leading_dot && s[k] == '.' {
        MatchResult::SubPatternDoesntMatch
    } else if t[ti] is AnyRecursiveSequence && !is_sep(s[k]) {
        match_star(t, ti, s, k + 1, false, o)
    } else if t[ti] is AnySequence && o.require_literal_separator && is_sep(s[k]) {
        MatchResult::SubPatternDoesntMatch
    } else {
        let r = match_tokens(t, ti + 1, s, k + 1, is_sep(s[k]), o);
        if r != MatchResult::SubPatternDoesntMatch {
            r
        } else {
            match_star(t, ti, s, k + 1, is_sep(s[k]), o)
        }
    }
}

/// Whether the tokens match the whole candidate.
pub open spec fn tokens_match(t: Seq<Token>, s: Seq<char>, o: MatchOptions) -> bool {
    match_tokens(t, 0, s, 0, true, o) == MatchResult::Match
}

} // verus!
