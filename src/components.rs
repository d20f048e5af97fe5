use vstd::prelude::*;

use crate::chars::is_sep;
use crate::compile::{parse_pattern, PatternError};
use crate::options::{default_options, MatchOptions};
use crate::pattern::{Pattern, PatternView};
use crate::text::{chars_of, string_of};
use crate::token::has_recursive;
use crate::state::{PathsView, PendingView};
use crate::walk::Paths;

verus! {

/// The pieces of `s[start..]` between separators, scanning from `i`; a
/// trailing separator leaves no empty piece after it.
pub open spec fn pieces(s: Seq<char>, start: int, i: int) -> Seq<Seq<char>>
    decreases s.len() - i,
{
    if i >= s.len() {
        if start < s.len() {
            seq![s.subrange(start, s.len() as int)]
        } else {
            Seq::empty()
        }
    } else if is_sep(s[i]) {
        seq![s.subrange(start, i)] + pieces(s, i + 1, i + 1)
    } else {
        pieces(s, start, i + 1)
    }
}

/// The length of the root of the pattern: its leading separator, if any.
pub open spec fn root_len(p: Seq<char>) -> int {
    if p.len() > 0 && is_sep(p[0]) {
        1
    } else {
        0
    }
}

/// The components of a pattern after its root.
pub open spec fn components(p: Seq<char>) -> Seq<Seq<char>> {
    pieces(p.subrange(root_len(p), p.len() as int), 0, 0)
}

/// The compiled components, or the error of the first that fails.
pub open spec fn compile_all(texts: Seq<Seq<char>>) -> Result<Seq<PatternView>, PatternError>
    decreases texts.len(),
{
    if texts.len() == 0 {
        Ok(Seq::empty())
    } else {
        match compile_all(texts.drop_last()) {
            Err(e) => Err(e),
            Ok(ps) => match parse_pattern(texts.last()) {
                Err(e) => Err(e),
                Ok(t) => Ok(
                    ps.push(PatternView { text: texts.last(), tokens: t, is_recursive: has_recursive(t) }),
                ),
            },
        }
    }
}

/// The walk that a valid pattern starts with: it is rooted at `/` for an
/// absolute pattern and at `.` otherwise; a pattern that is nothing but its
/// root gets one empty component; matches must be directories when the
/// pattern ends with a separator.
pub open spec fn initial_walk(p: Seq<char>, ps: Seq<PatternView>, options: MatchOptions) -> PathsView {
    PathsView {
        patterns: if root_len(p) == p.len() {
            ps.push(PatternView { text: Seq::empty(), tokens: Seq::empty(), is_recursive: false })
        } else {
            ps
        },
        require_dir: p.len() > 0 && is_sep(p.last()),
        options,
        todo: seq![PendingView::Root { path: if root_len(p) > 0 { seq!['/'] } else { seq!['.'] } }],
        failed: Seq::empty(),
    }
}

/// Exactly what starting a walk over the pattern `p` returns: the pattern is
/// checked whole first, then component by component.
pub open spec fn glob_outcome(p: Seq<char>, options: MatchOptions, r: Result<Paths, PatternError>) -> bool {
    match parse_pattern(p) {
        Err(e) => r is Err && r->Err_0 == e,
        Ok(_) => match compile_all(components(p)) {
            Err(e) => r is Err && r->Err_0 == e,
            Ok(ps) => r is Ok && r->Ok_0@ == initial_walk(p, ps, options),
        },
    }
}

proof fn lemma_compile_all_err(a: Seq<Seq<char>>, b: Seq<Seq<char>>)
    requires
        compile_all(a) is Err,
    ensures
        compile_all(a + b) == compile_all(a),
    decreases b.len(),
{
    if b.len() == 0 {
        assert(a + b =~= a);
    } else {
        lemma_compile_all_err(a, b.drop_last());
        assert((a + b).drop_last() =~= a + b.drop_last());
    }
}

proof fn lemma_compile_all_len(texts: Seq<Seq<char>>)
    requires
        compile_all(texts) is Ok,
    ensures
        compile_all(texts)->Ok_0.len() == texts.len(),
    decreases texts.len(),
{
    if texts.len() > 0 {
        lemma_compile_all_len(texts.drop_last());
    }
}

proof fn lemma_pieces_nonempty(s: Seq<char>, start: int, i: int)
    requires
        0 <= start <= i <= s.len(),
        start < s.len(),
    ensures
        pieces(s, start, i).len() > 0,
    decreases s.len() - i,
{
    if i < s.len() && !is_sep(s[i]) {
        lemma_pieces_nonempty(s, start, i + 1);
    }
}

fn sub_chars(v: &Vec<char>, lo: usize, hi: usize) -> (r: Vec<char>)
    requires
        lo <= hi <= v.len(),
    ensures
        r@ == v@.subrange(lo as int, hi as int),
{
    let mut r: Vec<char> = Vec::new();
    let mut k: usize = lo;
    while k < hi
        invariant
            lo <= k <= hi <= v.len(),
            r@ == v@.subrange(lo as int, k as int),
        decreases hi - k,
    {
        r.push(v[k]);
        k = k + 1;
        assert(r@ =~= v@.subrange(lo as int, k as int));
    }
    r
}

/// Compiles `chars[lo..hi]` and appends it to `patterns`.
fn push_component(
    patterns: &mut Vec<Pattern>,
    chars: &Vec<char>,
    lo: usize,
    hi: usize,
    done: Ghost<Seq<Seq<char>>>,
) -> (r: Result<(), PatternError>)
    requires
        lo <= hi <= chars.len(),
        compile_all(done@) == Ok::<Seq<PatternView>, PatternError>(old(patterns)@.map_values(|p: Pattern| p@)),
    ensures
        match compile_all(done@.push(chars@.subrange(lo as int, hi as int))) {
            Ok(ps) => r is Ok && ps == final(patterns)@.map_values(|p: Pattern| p@),
            Err(e) => r is Err && r->Err_0 == e,
        },
{
    let piece = sub_chars(chars, lo, hi);
    let text = string_of(chars, lo, hi);
    let ghost texts = done@.push(chars@.subrange(lo as int, hi as int));
    assert(texts.drop_last() =~= done@);
    match Pattern::compile(&piece, text) {
        Ok(p) => {
            let ghost before = patterns@;
            patterns.push(p);
            assert(patterns@.map_values(|p: Pattern| p@) =~= before.map_values(|p: Pattern| p@).push(p@));
            Ok(())
        },
        Err(e) => Err(e),
    }
}

/// Starts a walk over the paths that match `pattern` under `options`. The
/// pattern is checked before anything else, so that an invalid one never
/// leads to a filesystem access.
pub fn glob_with(pattern: &str, options: MatchOptions) -> (r: Result<Paths, PatternError>)
    ensures
        glob_outcome(pattern@, options, r),
{
    let chars = chars_of(pattern);
    match Pattern::compile(&chars, pattern.to_owned()) {
        Err(e) => {
            return Err(e);
        },
        Ok(_) => {},
    }
    let n = chars.len();
    let root: usize = if n > 0 && chars[0] == '/' {
        1
    } else {
        0
    };
    let ghost rest = chars@.subrange(root as int, n as int);
    let mut dir_patterns: Vec<Pattern> = Vec::new();
    let ghost mut done: Seq<Seq<char>> = Seq::empty();
    let mut start: usize = root;
    let mut i: usize = root;
    proof {
        assert(dir_patterns@.map_values(|p: Pattern| p@) =~= Seq::<PatternView>::empty());
    }
    while i < n
        invariant
            root <= start <= i <= n,
            n == chars.len(),
            chars@ == pattern@,
            root as int == root_len(pattern@),
            parse_pattern(pattern@) is Ok,
            rest == chars@.subrange(root as int, n as int),
            pieces(rest, 0, 0) == done + pieces(rest, start - root, i - root),
            compile_all(done) == Ok::<Seq<PatternView>, PatternError>(
                dir_patterns@.map_values(|p: Pattern| p@),
            ),
        decreases n - i,
    {
        if chars[i] == '/' {
            assert(chars@.subrange(start as int, i as int) =~= rest.subrange(start - root, i - root));
            match push_component(&mut dir_patterns, &chars, start, i, Ghost(done)) {
                Err(e) => {
                    proof {
                        let piece = rest.subrange(start - root, i - root);
                        let later = pieces(rest, i + 1 - root, i + 1 - root);
                        assert(pieces(rest, start - root, i - root) == seq![piece] + later);
                        assert(done + (seq![piece] + later) =~= done.push(piece) + later);
                        lemma_compile_all_err(done.push(piece), later);
                    }
                    return Err(e);
                },
                Ok(()) => {},
            }
            proof {
                let piece = rest.subrange(start - root, i - root);
                let later = pieces(rest, i + 1 - root, i + 1 - root);
                assert(pieces(rest, start - root, i - root) == seq![piece] + later);
                assert(done + (seq![piece] + later) =~= done.push(piece) + later);
                done = done.push(piece);
            }
            start = i + 1;
        }
        i = i + 1;
    }
    if start < n {
        assert(chars@.subrange(start as int, n as int) =~= rest.subrange(start - root, n - root));
        match push_component(&mut dir_patterns, &chars, start, n, Ghost(done)) {
            Err(e) => {
                assert(done.push(rest.subrange(start - root, n - root)) =~= pieces(rest, 0, 0));
                return Err(e);
            },
            Ok(()) => {},
        }
        proof {
            done = done.push(rest.subrange(start - root, n - root));
        }
    }
    assert(done =~= pieces(rest, 0, 0));
    if root == n {
        let ghost before = dir_patterns@;
        let empty = Pattern::default_empty();
        dir_patterns.push(empty);
        assert(dir_patterns@.map_values(|p: Pattern| p@) =~= before.map_values(|p: Pattern| p@).push(
            empty@,
        ));
    } else {
        proof {
            lemma_pieces_nonempty(rest, 0, 0);
            lemma_compile_all_len(done);
        }
    }
    let scope = if root > 0 {
        string_of(&chars, 0, 1)
    } else {
        let dot: Vec<char> = vec!['.'];
        string_of(&dot, 0, 1)
    };
    let require_dir = n > 0 && chars[n - 1] == '/';
    assert(scope@ =~= (if root > 0 { seq!['/'] } else { seq!['.'] }));
    let paths = Paths::start(dir_patterns, require_dir, options, scope);
    Ok(paths)
}

/// Starts a walk over the paths that match `pattern` under the default
/// options.
pub fn glob(pattern: &str) -> (r: Result<Paths, PatternError>)
    ensures
        glob_outcome(pattern@, default_options(), r),
{
    glob_with(pattern, MatchOptions::new())
}

} // verus!
