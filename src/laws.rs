//! Properties of compiling and matching patterns, proved over the models
//! that the contracts speak of.

use vstd::prelude::*;

use crate::chars::{
    chars_match, class_accepts, is_sep, lemma_char_in_seq, specifier_accepts, specifiers_of,
    CharSpecifier,
};
use crate::compile::{
    find_close, lemma_find_close, lemma_star_run, parse_from, parse_pattern, star_run_end,
    PatternError, ERROR_INVALID_RANGE,
};
use crate::matcher::{guarded, match_tokens, single_accepts, tokens_match};
use crate::options::MatchOptions;
use crate::pattern::{escape_char, escaped};
use crate::token::{MatchResult, Token};

verus! {

broadcast use lemma_char_in_seq;

/// The characters that escaping wraps in brackets.
pub open spec fn is_meta(c: char) -> bool {
    c == '?' || c == '*' || c == '[' || c == ']'
}

/// The token that the escaped form of `c` compiles to.
pub open spec fn escape_token(c: char) -> Token {
    if is_meta(c) {
        Token::AnyWithin(seq![CharSpecifier::SingleChar(c)])
    } else {
        Token::Char(c)
    }
}

/// The tokens that the escaped form of `s` compiles to.
pub open spec fn escape_tokens(s: Seq<char>) -> Seq<Token>
    decreases s.len(),
{
    if s.len() == 0 {
        Seq::empty()
    } else {
        escape_tokens(s.drop_last()).push(escape_token(s.last()))
    }
}

proof fn lemma_escape_tokens_index(s: Seq<char>)
    ensures
        escape_tokens(s).len() == s.len(),
        forall|j: int| 0 <= j < s.len() ==> #[trigger] escape_tokens(s)[j] == escape_token(s[j]),
    decreases s.len(),
{
    if s.len() > 0 {
        lemma_escape_tokens_index(s.drop_last());
    }
}

proof fn lemma_escaped_concat(a: Seq<char>, b: Seq<char>)
    ensures
        escaped(a + b) == escaped(a) + escaped(b),
    decreases b.len(),
{
    if b.len() == 0 {
        assert(a + b =~= a);
        assert(escaped(a) + escaped(b) =~= escaped(a));
    } else {
        lemma_escaped_concat(a, b.drop_last());
        assert((a + b).drop_last() =~= a + b.drop_last());
        assert((a + b).last() == b.last());
        assert(escaped(a) + (escaped(b.drop_last()) + escape_char(b.last())) =~= (escaped(a)
            + escaped(b.drop_last())) + escape_char(b.last()));
    }
}

proof fn lemma_parse_escaped(s: Seq<char>, k: int)
    requires
        0 <= k <= s.len(),
    ensures
        parse_from(escaped(s), escaped(s.take(k)).len() as int, escape_tokens(s.take(k))) == Ok::<
            Seq<Token>,
            crate::compile::PatternError,
        >(escape_tokens(s)),
    decreases s.len() - k,
{
    let e = escaped(s);
    if k == s.len() {
        assert(s.take(k) =~= s);
    } else {
        lemma_parse_escaped(s, k + 1);
        let c = s[k];
        let pre = s.take(k);
        let i = escaped(pre).len() as int;
        let toks = escape_tokens(pre);
        assert(s.take(k + 1).drop_last() =~= pre);
        assert(s.take(k + 1).last() == c);
        assert(escaped(s.take(k + 1)) == escaped(pre) + escape_char(c));
        assert(escape_tokens(s.take(k + 1)) == toks.push(escape_token(c)));
        lemma_escaped_concat(s.take(k + 1), s.skip(k + 1));
        assert(s.take(k + 1) + s.skip(k + 1) =~= s);
        let ec = escape_char(c);
        assert(e == escaped(pre) + ec + escaped(s.skip(k + 1)));
        assert forall|j: int| 0 <= j < ec.len() implies e[i + j] == ec[j] by {
            assert((escaped(pre) + ec + escaped(s.skip(k + 1)))[i + j] == ec[j]);
        }
        assert(e.len() >= i + ec.len());
        if is_meta(c) {
            assert(e[i] == '[' && e[i + 1] == c && e[i + 2] == ']');
            assert(find_close(e, i + 2) == Some(i + 2));
            let sp = specifiers_of(e, i + 1, i + 2);
            assert(specifiers_of(e, i + 2, i + 2) =~= Seq::<CharSpecifier>::empty());
            assert(sp =~= seq![CharSpecifier::SingleChar(c)]);
            assert(escaped(s.take(k + 1)).len() == i + 3);
        } else {
            assert(e[i] == c);
            assert(escaped(s.take(k + 1)).len() == i + 1);
        }
    }
}

proof fn lemma_escape_accepts(c: char, fs: bool, o: MatchOptions)
    ensures
        single_accepts(escape_token(c), c, fs, o),
        o.case_sensitive ==> forall|x: char| #[trigger]
            single_accepts(escape_token(c), x, fs, o) ==> x == c,
{
    if is_meta(c) {
        let sp = seq![CharSpecifier::SingleChar(c)];
        assert(specifier_accepts(sp[0], c, o.case_sensitive));
        assert(class_accepts(sp, c, o.case_sensitive));
        if o.case_sensitive {
            assert forall|x: char| #[trigger] single_accepts(escape_token(c), x, fs, o) implies x
                == c by {
                let j = choose|j: int| 0 <= j < sp.len() && specifier_accepts(sp[j], x, true);
                assert(j == 0);
            }
        }
    }
}

proof fn lemma_escape_matches_self(s: Seq<char>, k: int, fs: bool, o: MatchOptions)
    requires
        0 <= k <= s.len(),
    ensures
        match_tokens(escape_tokens(s), k, s, k, fs, o) == MatchResult::Match,
    decreases s.len() - k,
{
    lemma_escape_tokens_index(s);
    if k < s.len() {
        lemma_escape_accepts(s[k], fs, o);
        lemma_escape_matches_self(s, k + 1, is_sep(s[k]), o);
    }
}

proof fn lemma_escape_matches_only(
    s: Seq<char>,
    k: int,
    u: Seq<char>,
    j: int,
    fs: bool,
    o: MatchOptions,
)
    requires
        0 <= k <= s.len(),
        0 <= j <= u.len(),
        o.case_sensitive,
        match_tokens(escape_tokens(s), k, u, j, fs, o) == MatchResult::Match,
    ensures
        u.subrange(j, u.len() as int) == s.subrange(k, s.len() as int),
    decreases s.len() - k,
{
    lemma_escape_tokens_index(s);
    if k == s.len() {
        assert(u.subrange(j, u.len() as int) =~= s.subrange(k, s.len() as int));
    } else {
        lemma_escape_accepts(s[k], fs, o);
        assert(j < u.len());
        assert(single_accepts(escape_token(s[k]), u[j], fs, o));
        lemma_escape_matches_only(s, k + 1, u, j + 1, is_sep(u[j]), o);
        assert(u.subrange(j, u.len() as int) =~= seq![u[j]] + u.subrange(j + 1, u.len() as int));
        assert(s.subrange(k, s.len() as int) =~= seq![s[k]] + s.subrange(k + 1, s.len() as int));
    }
}

/// Escaping a text gives a valid pattern that matches the text under any
/// options, and, where case counts, no other text.
pub proof fn law_escape_round_trip(s: Seq<char>, other: Seq<char>, o: MatchOptions)
    ensures
        parse_pattern(escaped(s)) == Ok::<Seq<Token>, crate::compile::PatternError>(escape_tokens(s)),
        tokens_match(escape_tokens(s), s, o),
        o.case_sensitive && tokens_match(escape_tokens(s), other, o) ==> other == s,
{
    lemma_parse_escaped(s, 0);
    assert(s.take(0) =~= Seq::<char>::empty());
    assert(escape_tokens(s.take(0)) =~= Seq::<Token>::empty());
    lemma_escape_matches_self(s, 0, true, o);
    if o.case_sensitive && tokens_match(escape_tokens(s), other, o) {
        lemma_escape_matches_only(s, 0, other, 0, true, o);
        assert(other.subrange(0, other.len() as int) =~= other);
        assert(s.subrange(0, s.len() as int) =~= s);
    }
}

/// The tokens of a pattern made of literal characters.
pub open spec fn literal_tokens(p: Seq<char>) -> Seq<Token>
    decreases p.len(),
{
    if p.len() == 0 {
        Seq::empty()
    } else {
        literal_tokens(p.drop_last()).push(Token::Char(p.last()))
    }
}

proof fn lemma_literal_tokens_index(p: Seq<char>)
    ensures
        literal_tokens(p).len() == p.len(),
        forall|j: int| 0 <= j < p.len() ==> #[trigger] literal_tokens(p)[j] == Token::Char(p[j]),
    decreases p.len(),
{
    if p.len() > 0 {
        lemma_literal_tokens_index(p.drop_last());
    }
}

/// `t` and `p` have the same length and agree character by character.
pub open spec fn agree(t: Seq<char>, p: Seq<char>, case_sensitive: bool) -> bool {
    t.len() == p.len() && forall|j: int| 0 <= j < p.len() ==> chars_match(t[j], p[j], case_sensitive)
}

proof fn lemma_parse_literal(p: Seq<char>, k: int)
    requires
        0 <= k <= p.len(),
        forall|j: int| 0 <= j < p.len() ==> !(p[j] == '?' || p[j] == '*' || p[j] == '['),
    ensures
        parse_from(p, k, literal_tokens(p.take(k))) == Ok::<Seq<Token>, PatternError>(
            literal_tokens(p),
        ),
    decreases p.len() - k,
{
    if k == p.len() {
        assert(p.take(k) =~= p);
    } else {
        lemma_parse_literal(p, k + 1);
        assert(p.take(k + 1).drop_last() =~= p.take(k));
        assert(literal_tokens(p.take(k)).push(Token::Char(p[k])) == literal_tokens(p.take(k + 1)));
    }
}

proof fn lemma_match_literal(p: Seq<char>, k: int, t: Seq<char>, j: int, fs: bool, o: MatchOptions)
    requires
        0 <= k <= p.len(),
        0 <= j <= t.len(),
    ensures
        (match_tokens(literal_tokens(p), k, t, j, fs, o) == MatchResult::Match) == agree(
            t.subrange(j, t.len() as int),
            p.subrange(k, p.len() as int),
            o.case_sensitive,
        ),
    decreases p.len() - k,
{
    let tl = t.subrange(j, t.len() as int);
    let pl = p.subrange(k, p.len() as int);
    let cs = o.case_sensitive;
    lemma_literal_tokens_index(p);
    if k < p.len() {
        if j < t.len() {
            lemma_match_literal(p, k + 1, t, j + 1, is_sep(t[j]), o);
            let tr = t.subrange(j + 1, t.len() as int);
            let pr = p.subrange(k + 1, p.len() as int);
            if agree(tl, pl, cs) {
                assert(chars_match(tl[0], pl[0], cs));
                assert forall|i: int| 0 <= i < pr.len() implies chars_match(tr[i], pr[i], cs) by {
                    assert(chars_match(tl[i + 1], pl[i + 1], cs));
                }
            }
            if chars_match(t[j], p[k], cs) && agree(tr, pr, cs) {
                assert forall|i: int| 0 <= i < pl.len() implies chars_match(tl[i], pl[i], cs) by {
                    if i > 0 {
                        assert(chars_match(tr[i - 1], pr[i - 1], cs));
                    }
                }
            }
            if !chars_match(t[j], p[k], cs) {
                assert(!chars_match(tl[0], pl[0], cs));
            }
        }
    }
}

/// A pattern without metacharacters compiles to its characters, and
/// matches exactly the texts that agree with it character by character:
/// where case counts, only itself; otherwise any text that differs from it
/// in the case of ASCII letters alone.
pub proof fn law_literal_pattern(p: Seq<char>, t: Seq<char>, o: MatchOptions)
    requires
        forall|j: int| 0 <= j < p.len() ==> !(p[j] == '?' || p[j] == '*' || p[j] == '['),
    ensures
        parse_pattern(p) == Ok::<Seq<Token>, PatternError>(literal_tokens(p)),
        tokens_match(literal_tokens(p), t, o) == agree(t, p, o.case_sensitive),
        o.case_sensitive ==> (tokens_match(literal_tokens(p), t, o) == (t == p)),
{
    lemma_parse_literal(p, 0);
    assert(p.take(0) =~= Seq::<char>::empty());
    lemma_match_literal(p, 0, t, 0, true, o);
    assert(t.subrange(0, t.len() as int) =~= t);
    assert(p.subrange(0, p.len() as int) =~= p);
    if o.case_sensitive && agree(t, p, true) {
        assert(t =~= p);
    }
}

/// The class `[0-9]` matches exactly the single digits, and `[!0-9]`
/// exactly the other single characters, save for a separator or a leading
/// dot that the options require to be literal.
pub proof fn law_digit_class(c: char, o: MatchOptions)
    ensures
        parse_pattern(seq!['[', '0', '-', '9', ']']) is Ok,
        parse_pattern(seq!['[', '!', '0', '-', '9', ']']) is Ok,
        tokens_match(parse_pattern(seq!['[', '0', '-', '9', ']'])->Ok_0, seq![c], o) == ('0' <= c
            && c <= '9'),
        !guarded(c, true, o) ==> tokens_match(
            parse_pattern(seq!['[', '!', '0', '-', '9', ']'])->Ok_0,
            seq![c],
            o,
        ) == !('0' <= c && c <= '9'),
{
    let d = seq!['[', '0', '-', '9', ']'];
    let n = seq!['[', '!', '0', '-', '9', ']'];
    let range = seq![CharSpecifier::CharRange('0', '9')];
    assert(find_close(d, 4) == Some(4int));
    assert(find_close(d, 3) == Some(4int));
    assert(find_close(d, 2) == Some(4int));
    assert(specifiers_of(d, 4, 4) =~= Seq::<CharSpecifier>::empty());
    assert(specifiers_of(d, 1, 4) =~= range);
    let td = seq![Token::AnyWithin(range)];
    assert(parse_from(d, 5, td) == Ok::<Seq<Token>, PatternError>(td));
    assert(Seq::<Token>::empty().push(Token::AnyWithin(range)) =~= td);
    assert(parse_pattern(d) == Ok::<Seq<Token>, PatternError>(td));
    assert(find_close(n, 5) == Some(5int));
    assert(find_close(n, 4) == Some(5int));
    assert(find_close(n, 3) == Some(5int));
    assert(specifiers_of(n, 5, 5) =~= Seq::<CharSpecifier>::empty());
    assert(specifiers_of(n, 2, 5) =~= range);
    let tn = seq![Token::AnyExcept(range)];
    assert(parse_from(n, 6, tn) == Ok::<Seq<Token>, PatternError>(tn));
    assert(Seq::<Token>::empty().push(Token::AnyExcept(range)) =~= tn);
    assert(parse_pattern(n) == Ok::<Seq<Token>, PatternError>(tn));
    let one = seq![c];
    let inside = class_accepts(range, c, o.case_sensitive);
    if inside {
        let j = choose|j: int| 0 <= j < range.len() && specifier_accepts(range[j], c, o.case_sensitive);
        assert(j == 0);
    }
    if '0' <= c && c <= '9' {
        assert(specifier_accepts(range[0], c, o.case_sensitive));
    }
    assert(inside == ('0' <= c && c <= '9'));
    assert(match_tokens(td, 1, one, 1, is_sep(c), o) == MatchResult::Match);
    assert(match_tokens(tn, 1, one, 1, is_sep(c), o) == MatchResult::Match);
}

/// Matching depends on nothing but the tokens, the text and the options:
/// equal inputs give equal results.
pub proof fn law_matching_deterministic(
    t1: Seq<Token>,
    t2: Seq<Token>,
    s1: Seq<char>,
    s2: Seq<char>,
    o1: MatchOptions,
    o2: MatchOptions,
)
    requires
        t1 == t2,
        s1 == s2,
        o1 == o2,
    ensures
        tokens_match(t1, s1, o1) == tokens_match(t2, s2, o2),
{
}

/// `p` is a prefix of `s`.
pub open spec fn prefix_of(p: Seq<char>, s: Seq<char>) -> bool {
    p.len() <= s.len() && forall|j: int| 0 <= j < p.len() ==> s[j] == p[j]
}

/// Scanning `p` from `i` on ends inside a character class that `p` leaves
/// open.
pub open spec fn open_class_error(p: Seq<char>, i: int, toks: Seq<Token>) -> bool {
    parse_from(p, i, toks) matches Err(e) && e.msg == ERROR_INVALID_RANGE
}

proof fn lemma_star_run_exact(s: Seq<char>, i: int, e: int)
    requires
        0 <= i <= e <= s.len(),
        forall|j: int| i <= j < e ==> s[j] == '*',
        e == s.len() || s[e] != '*',
    ensures
        star_run_end(s, i) == e,
    decreases e - i,
{
    if i < e {
        lemma_star_run_exact(s, i + 1, e);
    }
}

proof fn lemma_find_close_prefix(p: Seq<char>, s: Seq<char>, j: int)
    requires
        prefix_of(p, s),
        0 <= j,
        find_close(p, j) is Some,
    ensures
        find_close(s, j) == find_close(p, j),
    decreases p.len() - j,
{
    lemma_find_close(p, j);
    if p[j] != ']' {
        lemma_find_close_prefix(p, s, j + 1);
    }
}

proof fn lemma_specifiers_prefix(p: Seq<char>, s: Seq<char>, lo: int, hi: int)
    requires
        prefix_of(p, s),
        0 <= lo,
        hi <= p.len(),
    ensures
        specifiers_of(s, lo, hi) == specifiers_of(p, lo, hi),
    decreases hi - lo,
{
    if lo < hi {
        if lo + 3 <= hi && p[lo + 1] == '-' {
            lemma_specifiers_prefix(p, s, lo + 3, hi);
        } else {
            lemma_specifiers_prefix(p, s, lo + 1, hi);
        }
    }
}

/// No `]` stands in `s` at or after `j`.
pub open spec fn no_close_from(s: Seq<char>, j: int) -> bool {
    forall|k: int| j <= k < s.len() ==> s[k] != ']'
}

proof fn lemma_no_close(s: Seq<char>, j: int)
    requires
        0 <= j,
        no_close_from(s, j),
    ensures
        find_close(s, j) is None,
{
    lemma_find_close(s, j);
}

/// Scanning a text that extends `p` fails whenever scanning it from the end
/// of `p` always fails, unless the scan of `p` ends in an open class. A run
/// of `*` that ends `p` is taken to go on for at least three more.
proof fn lemma_scan_prefix(p: Seq<char>, s: Seq<char>, i: int, toks: Seq<Token>)
    requires
        prefix_of(p, s),
        0 <= i <= p.len(),
        !open_class_error(p, i, toks) || no_close_from(s, p.len() as int),
        forall|t: Seq<Token>| #[trigger] parse_from(s, p.len() as int, t) is Err,
        p.len() > 0 && p.last() == '*' ==> p.len() + 3 <= s.len() && s[p.len() as int] == '*'
            && s[p.len() as int + 1] == '*' && s[p.len() as int + 2] == '*',
    ensures
        parse_from(s, i, toks) is Err,
    decreases p.len() - i,
{
    let l = p.len() as int;
    if i < l {
        let c = p[i];
        assert(s[i] == c);
        if c == '?' {
            lemma_scan_prefix(p, s, i + 1, toks.push(Token::AnyChar));
        } else if c == '*' {
            lemma_star_run(p, i);
            lemma_star_run(s, i);
            let ep = star_run_end(p, i);
            let es = star_run_end(s, i);
            if ep == l {
                assert(p.last() == '*');
                assert forall|j: int| i <= j < l + 3 implies s[j] == '*' by {
                    if j < l {
                        assert(s[j] == p[j]);
                    }
                }
                assert(es >= l + 3);
            } else {
                assert forall|j: int| i <= j < ep implies s[j] == '*' by {
                    assert(s[j] == p[j]);
                }
                assert(s[ep] == p[ep]);
                lemma_star_run_exact(s, i, ep);
                if ep - i == 2 {
                    if i == 0 || is_sep(p[i - 1]) {
                        if is_sep(p[ep]) {
                            lemma_scan_prefix(p, s, ep + 1, crate::compile::push_recursive(toks));
                        }
                    } else {
                        assert(s[i - 1] == p[i - 1]);
                    }
                } else if ep - i < 2 {
                    lemma_scan_prefix(p, s, ep, toks.push(Token::AnySequence));
                }
            }
        } else if c == '[' {
            lemma_find_close(p, i + 3);
            lemma_find_close(p, i + 2);
            if i + 4 <= l && p[i + 1] == '!' && find_close(p, i + 3) is Some {
                assert(s[i + 1] == p[i + 1]);
                let k = find_close(p, i + 3)->0;
                lemma_find_close_prefix(p, s, i + 3);
                lemma_specifiers_prefix(p, s, i + 2, k);
                lemma_scan_prefix(
                    p,
                    s,
                    k + 1,
                    toks.push(Token::AnyExcept(specifiers_of(p, i + 2, k))),
                );
            } else if i + 3 <= l && p[i + 1] != '!' && find_close(p, i + 2) is Some {
                assert(s[i + 1] == p[i + 1]);
                let k = find_close(p, i + 2)->0;
                lemma_find_close_prefix(p, s, i + 2);
                lemma_specifiers_prefix(p, s, i + 1, k);
                lemma_scan_prefix(
                    p,
                    s,
                    k + 1,
                    toks.push(Token::AnyWithin(specifiers_of(p, i + 1, k))),
                );
            } else {
                // the class that opens here is left open by `p`
                assert(open_class_error(p, i, toks));
                if i + 1 < l {
                    assert(s[i + 1] == p[i + 1]);
                }
                let from = if i + 1 < l && p[i + 1] == '!' {
                    i + 3
                } else {
                    i + 2
                };
                assert forall|k: int| from <= k < s.len() implies s[k] != ']' by {
                    if k < l {
                        assert(s[k] == p[k]);
                    }
                }
                lemma_no_close(s, i + 3);
                lemma_no_close(s, from);
            }
        } else {
            lemma_scan_prefix(p, s, i + 1, toks.push(Token::Char(c)));
        }
    }
}

/// A run of more than two `*` outside a character class makes a pattern
/// invalid, whatever comes before and after it. The run stands outside a
/// class unless what comes before leaves a class open and what comes after
/// closes it (the run then belongs to the class).
pub proof fn law_triple_star_invalid(p: Seq<char>, q: Seq<char>)
    requires
        !open_class_error(p, 0, Seq::empty()) || forall|j: int| 0 <= j < q.len() ==> q[j] != ']',
    ensures
        parse_pattern(p + seq!['*', '*', '*'] + q) is Err,
{
    let s = p + seq!['*', '*', '*'] + q;
    let l = p.len() as int;
    assert(s[l] == '*' && s[l + 1] == '*' && s[l + 2] == '*');
    assert forall|t: Seq<Token>| #[trigger] parse_from(s, l, t) is Err by {
        lemma_star_run(s, l);
        assert(star_run_end(s, l) >= l + 3);
    }
    if open_class_error(p, 0, Seq::empty()) {
        assert forall|k: int| l <= k < s.len() implies s[k] != ']' by {
            if k >= l + 3 {
                assert(s[k] == q[k - l - 3]);
            }
        }
    }
    lemma_scan_prefix(p, s, 0, Seq::empty());
}

/// A `**` preceded by something other than a separator (or the start of
/// the pattern) makes the pattern invalid, unless what comes before leaves a
/// character class open.
pub proof fn law_recursive_wildcard_open_before(p: Seq<char>, q: Seq<char>)
    requires
        p.len() > 0,
        !is_sep(p.last()),
        p.last() != '*',
        q.len() == 0 || q[0] != '*',
        !open_class_error(p, 0, Seq::empty()),
    ensures
        parse_pattern(p + seq!['*', '*'] + q) is Err,
{
    let s = p + seq!['*', '*'] + q;
    let l = p.len() as int;
    assert(s[l] == '*' && s[l + 1] == '*');
    assert(s[l - 1] == p.last());
    if q.len() > 0 {
        assert(s[l + 2] == q[0]);
    }
    assert forall|j: int| l <= j < l + 2 implies s[j] == '*' by {}
    lemma_star_run_exact(s, l, l + 2);
    lemma_scan_prefix(p, s, 0, Seq::empty());
}

/// A `**` followed by something other than a separator (or the end of the
/// pattern) makes the pattern invalid, unless what comes before leaves a
/// character class open.
pub proof fn law_recursive_wildcard_open_after(p: Seq<char>, q: Seq<char>)
    requires
        p.len() == 0 || is_sep(p.last()),
        q.len() > 0,
        !is_sep(q[0]),
        q[0] != '*',
        !open_class_error(p, 0, Seq::empty()),
    ensures
        parse_pattern(p + seq!['*', '*'] + q) is Err,
{
    let s = p + seq!['*', '*'] + q;
    let l = p.len() as int;
    assert(s[l] == '*' && s[l + 1] == '*');
    assert(s[l + 2] == q[0]);
    if l > 0 {
        assert(s[l - 1] == p.last());
    }
    assert forall|j: int| l <= j < l + 2 implies s[j] == '*' by {}
    lemma_star_run_exact(s, l, l + 2);
    lemma_scan_prefix(p, s, 0, Seq::empty());
}

} // verus!
