use vstd::prelude::*;

use crate::options::MatchOptions;

verus! {

/// The path separator.
pub open spec fn is_sep(c: char) -> bool {
    c == '/'
}

/// Whether `c` separates path components.
pub fn is_separator(c: char) -> (r: bool)
    ensures
        r == is_sep(c),
{
    c == '/'
}

/// Whether `c` is an ASCII character.
pub open spec fn is_ascii_char(c: char) -> bool {
    (c as u32) < 128
}

/// Whether `c` is an ASCII letter.
pub open spec fn is_ascii_letter(c: char) -> bool {
    ('a' <= c && c <= 'z') || ('A' <= c && c <= 'Z')
}

/// The code point of `c` after ASCII lower-casing.
pub open spec fn ascii_lower(c: char) -> int {
    if 'A' <= c && c <= 'Z' {
        (c as int) + 32
    } else {
        c as int
    }
}

fn to_ascii_lower(c: char) -> (r: u32)
    ensures
        r as int == ascii_lower(c),
{
    if 'A' <= c && c <= 'Z' {
        (c as u32) + 32
    } else {
        c as u32
    }
}

/// Character equality, ignoring ASCII case unless `case_sensitive`.
pub open spec fn chars_match(a: char, b: char, case_sensitive: bool) -> bool {
    if !case_sensitive && is_ascii_char(a) && is_ascii_char(b) {
        ascii_lower(a) == ascii_lower(b)
    } else {
        a == b
    }
}

/// Determines if two chars are (possibly case-insensitively) equal.
pub fn chars_eq(a: char, b: char, case_sensitive: bool) -> (r: bool)
    ensures
        r == chars_match(a, b, case_sensitive),
{
    if !case_sensitive && (a as u32) < 128 && (b as u32) < 128 {
        to_ascii_lower(a) == to_ascii_lower(b)
    } else {
        a == b
    }
}

/// One member of a character class: a single character or an inclusive range.
#[derive(Clone, Copy, PartialEq, Eq, Structural, PartialOrd, Ord, Hash, Debug)]
pub enum CharSpecifier {
    SingleChar(char),
    CharRange(char, char),
}

/// Whether `c` lies in the range `lo..=hi`; an inverted range (`lo > hi`)
/// holds nothing. Under case-insensitive matching, a range whose both ends
/// are ASCII letters is also compared after lower-casing; any other range is
/// always compared as it stands.
pub open spec fn in_range(c: char, lo: char, hi: char, case_sensitive: bool) -> bool {
    (lo <= c && c <= hi) || (!case_sensitive && lo <= hi && is_ascii_char(c) && is_ascii_letter(lo)
        && is_ascii_letter(hi) && ascii_lower(lo) <= ascii_lower(c) && ascii_lower(c)
        <= ascii_lower(hi))
}

/// Whether one class member accepts `c`.
pub open spec fn specifier_accepts(s: CharSpecifier, c: char, case_sensitive: bool) -> bool {
    match s {
        CharSpecifier::SingleChar(x) => chars_match(c, x, case_sensitive),
        CharSpecifier::CharRange(lo, hi) => in_range(c, lo, hi, case_sensitive),
    }
}

/// Whether some member of the class accepts `c`.
pub open spec fn class_accepts(
    specs: Seq<CharSpecifier>,
    c: char,
    case_sensitive: bool,
) -> bool {
    exists|i: int| 0 <= i < specs.len() && specifier_accepts(specs[i], c, case_sensitive)
}

/// The members of the class body `s[lo..hi]`: `X-Y` is a range, any other
/// character (a lone `-` included) stands for itself.
pub open spec fn specifiers_of(s: Seq<char>, lo: int, hi: int) -> Seq<CharSpecifier>
    decreases hi - lo,
{
    if lo >= hi {
        seq![]
    } else if lo + 3 <= hi && s[lo + 1] == '-' {
        Seq::empty().push(CharSpecifier::CharRange(s[lo], s[lo + 2])) + specifiers_of(s, lo + 3, hi)
    } else {
        Seq::empty().push(CharSpecifier::SingleChar(s[lo])) + specifiers_of(s, lo + 1, hi)
    }
}

/// A character read out of a sequence of characters.
proof fn char_at(s: Seq<char>, i: int) -> (c: char)
    requires
        0 <= i < s.len(),
    ensures
        c == s[i],
{
    s[i]
}

/// The character itself; names a character in a quantifier.
pub open spec fn char_id(c: char) -> char {
    c
}

/// Every element of a sequence of characters is a character.
pub broadcast proof fn lemma_char_in_seq(s: Seq<char>, i: int)
    requires
        0 <= i < s.len(),
    ensures
        #![trigger s[i]]
        exists|c: char| #[trigger] char_id(c) == s[i],
{
    let c = char_at(s, i);
    assert(char_id(c) == s[i]);
}

/// Parses the body `s[lo..hi]` of a character class.
pub fn parse_char_specifiers(s: &Vec<char>, lo: usize, hi: usize) -> (r: Vec<CharSpecifier>)
    requires
        lo <= hi <= s.len(),
    ensures
        r@ == specifiers_of(s@, lo as int, hi as int),
{
    let mut cs: Vec<CharSpecifier> = Vec::new();
    let mut i: usize = lo;
    while i < hi
        invariant
            lo <= i <= hi,
            hi <= s.len(),
            cs@ + specifiers_of(s@, i as int, hi as int) == specifiers_of(s@, lo as int, hi as int),
        decreases hi - i,
    {
        let ghost before = cs@;
        if hi - i >= 3 && s[i + 1] == '-' {
            cs.push(CharSpecifier::CharRange(s[i], s[i + 2]));
            proof {
                broadcast use lemma_char_in_seq;
                let rest = specifiers_of(s@, i + 3, hi as int);
                let head = Seq::empty().push(CharSpecifier::CharRange(s@[i as int], s@[i + 2]));
                assert(specifiers_of(s@, i as int, hi as int) == (head + rest));
                assert((before + (head + rest)) =~= (cs@ + rest));
            }
            i = i + 3;
        } else {
            cs.push(CharSpecifier::SingleChar(s[i]));
            proof {
                broadcast use lemma_char_in_seq;
                let rest = specifiers_of(s@, i + 1, hi as int);
                let head = Seq::empty().push(CharSpecifier::SingleChar(s@[i as int]));
                assert(specifiers_of(s@, i as int, hi as int) == (head + rest));
                assert((before + (head + rest)) =~= (cs@ + rest));
            }
            i = i + 1;
        }
    }
    cs
}

/// Whether some member of `specifiers` accepts `c`.
pub fn in_char_specifiers(specifiers: &Vec<CharSpecifier>, c: char, options: MatchOptions) -> (r:
    bool)
    ensures
        r == class_accepts(specifiers@, c, options.case_sensitive),
{
    let mut k: usize = 0;
    while k < specifiers.len()
        invariant
            k <= specifiers.len(),
            forall|j: int|
                0 <= j < k ==> !specifier_accepts(specifiers@[j], c, options.case_sensitive),
        decreases specifiers.len() - k,
    {
        match specifiers[k] {
            CharSpecifier::SingleChar(sc) => {
                if chars_eq(c, sc, options.case_sensitive) {
                    return true;
                }
            },
            CharSpecifier::CharRange(start, end) => {
                if !options.case_sensitive && start <= end && (c as u32) < 128 && (start as u32) < 128
                    && (end as u32) < 128 {
                    let lo = to_ascii_lower(start);
                    let hi = to_ascii_lower(end);
                    // case-insensitive only when both ends are letters
                    if 97 <= lo && lo <= 122 && 97 <= hi && hi <= 122 {
                        let lc = to_ascii_lower(c);
                        if lo <= lc && lc <= hi {
                            return true;
                        }
                    }
                }
                if start <= c && c <= end {
                    return true;
                }
            },
        }
        k = k + 1;
    }
    false
}

} // verus!
