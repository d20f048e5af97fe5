use vstd::prelude::*;

verus! {

/// Configuration options to modify the behaviour of pattern matching.
#[derive(Clone, Copy, PartialEq, Eq, Structural, PartialOrd, Ord, Hash, Default, Debug)]
pub struct MatchOptions {
    /// Whether or not patterns should be matched in a case-sensitive manner.
    /// Only upper/lower case relationships between ASCII characters count.
    pub case_sensitive: bool,
    /// Whether or not path-component separator characters must be matched by
    /// a literal `/`, rather than by `*` or `?` or `[...]`.
    pub require_literal_separator: bool,
    /// Whether or not a `.` that starts a path component must appear
    /// literally in the pattern; `*`, `?`, `**` or `[...]` will not match it.
    pub require_literal_leading_dot: bool,
}

/// The options used when none are given: case-sensitive, with neither
/// separators nor leading dots required to be literal.
pub open spec fn default_options() -> MatchOptions {
    MatchOptions {
        case_sensitive: true,
        require_literal_separator: false,
        require_literal_leading_dot: false,
    }
}

impl MatchOptions {
    /// The options used when none are given: case-sensitive, with neither
    /// separators nor leading dots required to be literal.
    pub fn new() -> (r: Self)
        ensures
            r == default_options(),
    {
        MatchOptions {
            case_sensitive: true,
            require_literal_separator: false,
            require_literal_leading_dot: false,
        }
    }
}

} // verus!
