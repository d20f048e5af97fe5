use vstd::prelude::*;

use crate::chars::CharSpecifier;

verus! {

/// A compiled pattern element, as the contracts see it.
pub enum Token {
    /// A character that must match literally.
    Char(char),
    /// `?`: any single character.
    AnyChar,
    /// `*`: any sequence of characters.
    AnySequence,
    /// `**`: any sequence of whole path components.
    AnyRecursiveSequence,
    /// `[...]`: any character that the class accepts.
    AnyWithin(Seq<CharSpecifier>),
    /// `[!...]`: any character that the class rejects.
    AnyExcept(Seq<CharSpecifier>),
}

/// A compiled pattern element.
#[derive(Clone, PartialEq, Eq, PartialOrd, Ord, Hash, Debug)]
pub enum PatternToken {
    Char(char),
    AnyChar,
    AnySequence,
    AnyRecursiveSequence,
    AnyWithin(Vec<CharSpecifier>),
    AnyExcept(Vec<CharSpecifier>),
}

impl View for PatternToken {
    type V = Token;

    open spec fn view(&self) -> Token {
        match self {
            PatternToken::Char(c) => Token::Char(*c),
            PatternToken::AnyChar => Token::AnyChar,
            PatternToken::AnySequence => Token::AnySequence,
            PatternToken::AnyRecursiveSequence => Token::AnyRecursiveSequence,
            PatternToken::AnyWithin(v) => Token::AnyWithin(v@),
            PatternToken::AnyExcept(v) => Token::AnyExcept(v@),
        }
    }
}

/// The tokens as the contracts see them.
pub open spec fn tokens_view(v: Seq<PatternToken>) -> Seq<Token> {
    v.map_values(|t: PatternToken| t@)
}

/// Whether some token is a recursive wildcard.
pub open spec fn has_recursive(t: Seq<Token>) -> bool {
    exists|j: int| 0 <= j < t.len() && t[j] is AnyRecursiveSequence
}

/// The outcome of matching a suffix of the tokens against a suffix of the
/// candidate.
#[derive(Clone, Copy, PartialEq, Eq, Structural, Debug)]
pub enum MatchResult {
    /// The tokens match the rest of the candidate.
    Match,
    /// This branch failed; another split may still succeed.
    SubPatternDoesntMatch,
    /// The candidate ran out: no longer split can succeed either.
    EntirePatternDoesntMatch,
}

} // verus!
