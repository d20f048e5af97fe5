use vstd::prelude::*;

use crate::chars::{chars_eq, in_char_specifiers, is_separator, lemma_char_in_seq, parse_char_specifiers};
use crate::matcher::{match_star, match_tokens, tokens_match};
use crate::options::{default_options, MatchOptions};
use crate::compile::{
    find_closing_bracket, lemma_find_close, lemma_star_run, parse_from, parse_pattern,
    star_run_end, PatternError, ERROR_INVALID_RANGE, ERROR_RECURSIVE_WILDCARDS, ERROR_WILDCARDS,
};
use crate::text::{chars_of, push_char};
use crate::token::{has_recursive, tokens_view, MatchResult, PatternToken, Token};

verus! {

broadcast use lemma_char_in_seq;

/// What a compiled pattern is: its text, its tokens, and whether a token is
/// a recursive wildcard.
pub struct PatternView {
    pub text: Seq<char>,
    pub tokens: Seq<Token>,
    pub is_recursive: bool,
}

/// A compiled Unix shell style pattern.
///
/// - `?` matches any single character.
/// - `*` matches any (possibly empty) sequence of characters.
/// - `**` matches the current directory and arbitrary subdirectories. It
///   must form a single path component: `**a` and `b**` are invalid, and so
///   is a run of more than two `*`.
/// - `[...]` matches any character inside the brackets; `X-Y` is the range
///   of characters from `X` to `Y`. An unclosed bracket is invalid.
/// - `[!...]` matches any character not inside the brackets.
/// - A `]` right after `[` or `[!` belongs to the class, so `[]]` matches
///   `]`; a `-` at either end of a class stands for itself.
#[derive(Clone, PartialEq, Eq, PartialOrd, Ord, Hash, Default, Debug)]
pub struct Pattern {
    text: String,
    tokens: Vec<PatternToken>,
    is_recursive: bool,
}

impl View for Pattern {
    type V = PatternView;

    closed spec fn view(&self) -> PatternView {
        PatternView {
            text: self.text@,
            tokens: tokens_view(self.tokens@),
            is_recursive: self.is_recursive,
        }
    }
}

/// Exactly what compiling the text `s` returns.
pub open spec fn compile_outcome(s: Seq<char>, r: Result<Pattern, PatternError>) -> bool {
    match parse_pattern(s) {
        Ok(t) => r is Ok && r->Ok_0@ == (PatternView {
            text: s,
            tokens: t,
            is_recursive: has_recursive(t),
        }),
        Err(e) => r is Err && r->Err_0 == e,
    }
}

/// The text of a pattern made of literal characters only.
pub open spec fn literal_text(t: Seq<Token>) -> Option<Seq<char>> {
    if forall|j: int| 0 <= j < t.len() ==> t[j] is Char {
        Some(Seq::new(t.len(), |j: int| t[j]->Char_0))
    } else {
        None
    }
}

/// One character of the escaped form of a text.
pub open spec fn escape_char(c: char) -> Seq<char> {
    if c == '?' || c == '*' || c == '[' || c == ']' {
        seq!['[', c, ']']
    } else {
        seq![c]
    }
}

/// The text with each of `?`, `*`, `[`, `]` wrapped in brackets.
pub open spec fn escaped(s: Seq<char>) -> Seq<char>
    decreases s.len(),
{
    if s.len() == 0 {
        Seq::empty()
    } else {
        escaped(s.drop_last()) + escape_char(s.last())
    }
}

proof fn lemma_push_token(v: Seq<PatternToken>, t: PatternToken)
    ensures
        tokens_view(v.push(t)) == tokens_view(v).push(t@),
        has_recursive(tokens_view(v.push(t))) == (has_recursive(tokens_view(v))
            || t@ is AnyRecursiveSequence),
{
    let a = tokens_view(v.push(t));
    let b = tokens_view(v).push(t@);
    assert(a =~= b);
    if t@ is AnyRecursiveSequence {
        assert(b[b.len() - 1] is AnyRecursiveSequence);
    }
    if has_recursive(b) {
        let j = choose|j: int| 0 <= j < b.len() && b[j] is AnyRecursiveSequence;
        if j < b.len() - 1 {
            assert(tokens_view(v)[j] is AnyRecursiveSequence);
        }
    }
    if has_recursive(tokens_view(v)) {
        let j = choose|j: int|
            0 <= j < tokens_view(v).len() && tokens_view(v)[j] is AnyRecursiveSequence;
        assert(b[j] is AnyRecursiveSequence);
    }
}

impl std::str::FromStr for Pattern {
    type Err = PatternError;

    fn from_str(s: &str) -> Result<Self, PatternError> {
        Self::new(s)
    }
}

/// Declares `std::path::Path`, whose text patterns can be matched against.
#[verifier::external_type_specification]
#[verifier::external_body]
pub struct ExPath(std::path::Path);

/// The text of a path, when it is valid Unicode.
pub uninterp spec fn path_text(p: &std::path::Path) -> Option<Seq<char>>;

/// Relies on `Path::to_str`: the path's text, or nothing when it is not
/// valid Unicode.
#[verifier::external_body]
fn path_to_str(p: &std::path::Path) -> (r: Option<&str>)
    ensures
        match path_text(p) {
            Some(t) => r is Some && r->0@ == t,
            None => r is None,
        },
{
    p.to_str()
}

impl Pattern {
    /// Compiles a Unix shell style pattern; an invalid pattern yields a
    /// `PatternError`.
    pub fn new(pattern: &str) -> (r: Result<Self, PatternError>)
        ensures
            compile_outcome(pattern@, r),
    {
        let chars = chars_of(pattern);
        let text = pattern.to_owned();
        Self::compile(&chars, text)
    }

    /// Compiles the pattern whose characters are `chars` and whose text is
    /// `text`.
    pub(crate) fn compile(chars: &Vec<char>, text: String) -> (r: Result<Self, PatternError>)
        requires
            text@ == chars@,
        ensures
            compile_outcome(chars@, r),
    {
        let n = chars.len();
        let mut tokens: Vec<PatternToken> = Vec::new();
        let mut is_recursive = false;
        let mut i: usize = 0;
        assert(tokens_view(tokens@) =~= Seq::empty());
        while i < n
            invariant
                i <= n,
                n == chars.len(),
                parse_pattern(chars@) == parse_from(chars@, i as int, tokens_view(tokens@)),
                is_recursive == has_recursive(tokens_view(tokens@)),
            decreases n - i,
        {
            let c = chars[i];
            let ghost before = tokens@;
            if c == '?' {
                tokens.push(PatternToken::AnyChar);
                proof {
                    lemma_push_token(before, PatternToken::AnyChar);
                }
                i = i + 1;
            } else if c == '*' {
                let old = i;
                proof {
                    lemma_star_run(chars@, old as int);
                }
                while i < n && chars[i] == '*'
                    invariant
                        old <= i <= n,
                        n == chars.len(),
                        star_run_end(chars@, old as int) == star_run_end(chars@, i as int),
                    decreases n - i,
                {
                    i = i + 1;
                }
                let count = i - old;
                if count > 2 {
                    return Err(PatternError { pos: old + 2, msg: ERROR_WILDCARDS });
                } else if count == 2 {
                    // `**` must form a whole path component
                    if old == 0 || is_separator(chars[old - 1]) {
                        if i < n && is_separator(chars[i]) {
                            i = i + 1;
                        } else if i != n {
                            return Err(PatternError { pos: i, msg: ERROR_RECURSIVE_WILDCARDS });
                        }
                    } else {
                        return Err(PatternError { pos: old - 1, msg: ERROR_RECURSIVE_WILDCARDS });
                    }
                    // consecutive recursive wildcards collapse into one
                    let len = tokens.len();
                    if !(len > 0 && matches!(tokens[len - 1], PatternToken::AnyRecursiveSequence)) {
                        is_recursive = true;
                        tokens.push(PatternToken::AnyRecursiveSequence);
                        proof {
                            lemma_push_token(before, PatternToken::AnyRecursiveSequence);
                        }
                    }
                } else {
                    tokens.push(PatternToken::AnySequence);
                    proof {
                        lemma_push_token(before, PatternToken::AnySequence);
                    }
                }
            } else if c == '[' {
                if n - i >= 4 && chars[i + 1] == '!' {
                    proof {
                        lemma_find_close(chars@, i + 3);
                    }
                    match find_closing_bracket(chars, i + 3) {
                        Some(k) => {
                            let cs = parse_char_specifiers(chars, i + 2, k);
                            let t = PatternToken::AnyExcept(cs);
                            tokens.push(t);
                            proof {
                                lemma_push_token(before, t);
                            }
                            i = k + 1;
                            continue ;
                        },
                        None => {},
                    }
                } else if n - i >= 3 && chars[i + 1] != '!' {
                    proof {
                        lemma_find_close(chars@, i + 2);
                    }
                    match find_closing_bracket(chars, i + 2) {
                        Some(k) => {
                            let cs = parse_char_specifiers(chars, i + 1, k);
                            let t = PatternToken::AnyWithin(cs);
                            tokens.push(t);
                            proof {
                                lemma_push_token(before, t);
                            }
                            i = k + 1;
                            continue ;
                        },
                        None => {},
                    }
                }
                return Err(PatternError { pos: i, msg: ERROR_INVALID_RANGE });
            } else {
                tokens.push(PatternToken::Char(c));
                proof {
                    lemma_push_token(before, PatternToken::Char(c));
                }
                i = i + 1;
            }
        }
        Ok(Pattern { text, tokens, is_recursive })
    }

    /// The pattern with no tokens, whose text is empty.
    pub(crate) fn default_empty() -> (r: Self)
        ensures
            r@ == (PatternView { text: Seq::empty(), tokens: Seq::empty(), is_recursive: false }),
    {
        let r = Pattern { text: String::new(), tokens: Vec::new(), is_recursive: false };
        assert(tokens_view(r.tokens@) =~= Seq::empty());
        r
    }

    /// Escapes the metacharacters of `s` by surrounding each in brackets. The
    /// result, compiled into a `Pattern`, matches `s` and nothing else.
    pub fn escape(s: &str) -> (r: String)
        ensures
            r@ == escaped(s@),
    {
        let v = chars_of(s);
        let mut escaped_text = String::new();
        let mut k: usize = 0;
        while k < v.len()
            invariant
                k <= v.len(),
                escaped_text@ == escaped(v@.take(k as int)),
            decreases v.len() - k,
        {
            let c = v[k];
            proof {
                assert(v@.take(k + 1).drop_last() =~= v@.take(k as int));
            }
            // `!` needs no escaping: it is special only right after `[`
            if c == '?' || c == '*' || c == '[' || c == ']' {
                push_char(&mut escaped_text, '[');
                push_char(&mut escaped_text, c);
                push_char(&mut escaped_text, ']');
            } else {
                push_char(&mut escaped_text, c);
            }
            k = k + 1;
            assert(escaped_text@ =~= escaped(v@.take(k as int)));
        }
        assert(v@.take(v.len() as int) =~= v@);
        escaped_text
    }

    /// Whether `str` matches this pattern under the default options.
    pub fn matches(&self, str: &str) -> (r: bool)
        ensures
            r == tokens_match(self@.tokens, str@, default_options()),
    {
        self.matches_with(str, MatchOptions::new())
    }

    /// Whether `str` matches this pattern under `options`.
    pub fn matches_with(&self, str: &str, options: MatchOptions) -> (r: bool)
        ensures
            r == tokens_match(self@.tokens, str@, options),
    {
        let file = chars_of(str);
        self.matches_from(true, &file, 0, 0, options) == MatchResult::Match
    }

    /// Whether the text of `path` matches this pattern under the default
    /// options; a path that is not valid Unicode matches nothing.
    pub fn matches_path(&self, path: &std::path::Path) -> (r: bool)
        ensures
            r == match path_text(path) {
                Some(t) => tokens_match(self@.tokens, t, default_options()),
                None => false,
            },
    {
        self.matches_path_with(path, MatchOptions::new())
    }

    /// Whether the text of `path` matches this pattern under `options`; a
    /// path that is not valid Unicode matches nothing.
    pub fn matches_path_with(&self, path: &std::path::Path, options: MatchOptions) -> (r: bool)
        ensures
            r == match path_text(path) {
                Some(t) => tokens_match(self@.tokens, t, options),
                None => false,
            },
    {
        match path_to_str(path) {
            Some(s) => self.matches_with(s, options),
            None => false,
        }
    }

    /// Matches the tokens from `i` on against `file[start..]`.
    fn matches_from(
        &self,
        follows_separator: bool,
        file: &Vec<char>,
        start: usize,
        i: usize,
        options: MatchOptions,
    ) -> (r: MatchResult)
        requires
            i <= self@.tokens.len(),
            start <= file.len(),
        ensures
            r == match_tokens(self@.tokens, i as int, file@, start as int, follows_separator, options),
        decreases self@.tokens.len() - i,
    {
        let ghost t = self@.tokens;
        let ghost f = file@;
        let n = self.tokens.len();
        let mut fs = follows_separator;
        let mut k: usize = start;
        let mut ti: usize = i;
        while ti < n
            invariant
                i <= ti <= n,
                n == t.len(),
                t == self@.tokens,
                f == file@,
                k <= file.len(),
                match_tokens(t, i as int, f, start as int, follows_separator, options)
                    == match_tokens(t, ti as int, f, k as int, fs, options),
            decreases n - ti,
        {
            let recursive = matches!(self.tokens[ti], PatternToken::AnyRecursiveSequence);
            let sequence = matches!(self.tokens[ti], PatternToken::AnySequence);
            if recursive || sequence {
                // the empty match first
                let m = self.matches_from(fs, file, k, ti + 1, options);
                if m != MatchResult::SubPatternDoesntMatch {
                    return m;
                }
                while k < file.len()
                    invariant
                        i <= ti < n,
                        n == t.len(),
                        t == self@.tokens,
                        f == file@,
                        k <= file.len(),
                        recursive == (t[ti as int] is AnyRecursiveSequence),
                        sequence == (t[ti as int] is AnySequence),
                        recursive || sequence,
                        match_tokens(t, i as int, f, start as int, follows_separator, options)
                            == match_star(t, ti as int, f, k as int, fs, options),
                    decreases file.len() - k,
                {
                    let c = file[k];
                    k = k + 1;
                    if fs && options.require_literal_leading_dot && c == '.' {
                        return MatchResult::SubPatternDoesntMatch;
                    }
                    fs = is_separator(c);
                    if recursive && !fs {
                        continue ;
                    }
                    if sequence && options.require_literal_separator && fs {
                        return MatchResult::SubPatternDoesntMatch;
                    }
                    let m = self.matches_from(fs, file, k, ti + 1, options);
                    if m != MatchResult::SubPatternDoesntMatch {
                        return m;
                    }
                }
            } else {
                if k >= file.len() {
                    return MatchResult::EntirePatternDoesntMatch;
                }
                let c = file[k];
                let is_sep = is_separator(c);
                let guarded = (options.require_literal_separator && is_sep) || (fs
                    && options.require_literal_leading_dot && c == '.');
                let accepted = match &self.tokens[ti] {
                    PatternToken::Char(c2) => chars_eq(c, *c2, options.case_sensitive),
                    PatternToken::AnyChar => !guarded,
                    PatternToken::AnyWithin(specifiers) => !guarded && in_char_specifiers(
                        specifiers,
                        c,
                        options,
                    ),
                    PatternToken::AnyExcept(specifiers) => !guarded && !in_char_specifiers(
                        specifiers,
                        c,
                        options,
                    ),
                    _ => false,
                };
                if !accepted {
                    return MatchResult::SubPatternDoesntMatch;
                }
                fs = is_sep;
                k = k + 1;
            }
            ti = ti + 1;
        }
        if k >= file.len() {
            MatchResult::Match
        } else {
            MatchResult::SubPatternDoesntMatch
        }
    }

    /// The text that the pattern stands for when it holds literal
    /// characters only.
    pub(crate) fn literal(&self) -> (r: Option<String>)
        ensures
            match literal_text(self@.tokens) {
                Some(text) => r is Some && r->0@ == text,
                None => r is None,
            },
    {
        let ghost t = self@.tokens;
        let mut text = String::new();
        let mut k: usize = 0;
        while k < self.tokens.len()
            invariant
                k <= self.tokens.len(),
                t == self@.tokens,
                t.len() == self.tokens.len(),
                forall|j: int| 0 <= j < k ==> t[j] is Char,
                text@ == Seq::new(k as nat, |j: int| t[j]->Char_0),
            decreases self.tokens.len() - k,
        {
            match &self.tokens[k] {
                PatternToken::Char(c) => {
                    push_char(&mut text, *c);
                },
                _ => {
                    assert(t[k as int] == self.tokens@[k as int]@);
                    assert(!(t[k as int] is Char));
                    return None;
                },
            }
            assert(t[k as int] == self.tokens@[k as int]@);
            k = k + 1;
            assert(text@ =~= Seq::new(k as nat, |j: int| t[j]->Char_0));
        }
        Some(text)
    }

    /// Whether the first token is a literal `.`.
    pub(crate) fn starts_with_dot(&self) -> (r: bool)
        ensures
            r == (self@.tokens.len() > 0 && self@.tokens[0] == Token::Char('.')),
    {
        self.tokens.len() > 0 && matches!(self.tokens[0], PatternToken::Char('.'))
    }

    /// The glob pattern as it was written.
    pub fn as_str(&self) -> (r: &str)
        ensures
            r@ == self@.text,
    {
        self.text.as_str()
    }

    /// Whether the pattern holds a recursive wildcard.
    pub fn is_recursive(&self) -> (r: bool)
        ensures
            r == self@.is_recursive,
    {
        self.is_recursive
    }
}

} // verus!
