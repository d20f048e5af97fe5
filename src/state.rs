use vstd::prelude::*;

use crate::error::GlobError;
use crate::listing::DirEntryView;
use crate::matcher::tokens_match;
use crate::options::MatchOptions;
use crate::path::{child_path, join_path};
use crate::pattern::{literal_text, PatternView};
use crate::token::Token;

verus! {

/// A pending path as the contracts see it.
pub enum PendingView {
    Root { path: Seq<char> },
    Explore { path: Seq<char>, is_dir: bool, idx: int },
    Entry { path: Seq<char>, name: Seq<char>, is_dir: bool, idx: int },
    Found { path: Seq<char>, is_dir: bool },
}

/// An action as the contracts see it.
pub enum ActionView {
    Yield(Seq<char>),
    ReadDir(Seq<char>),
    Stat(Seq<char>),
    Done,
}

/// The state of a walk: one pattern per path component, whether matches
/// must be directories, the options, and the work stack (its top last).
pub struct PathsView {
    pub patterns: Seq<PatternView>,
    pub require_dir: bool,
    pub options: MatchOptions,
    pub todo: Seq<PendingView>,
    /// The directories whose listing has failed and been reported.
    pub failed: Seq<Seq<char>>,
}

/// Whether the component index that `p` carries, if any, is below `n`.
pub open spec fn pending_idx_ok(p: PendingView, n: int) -> bool {
    match p {
        PendingView::Root { .. } => 0 < n,
        PendingView::Explore { idx, .. } => 0 <= idx < n,
        PendingView::Entry { idx, .. } => 0 <= idx < n,
        _ => true,
    }
}

/// A walk state in which every pending index names a pattern component
/// (the root's being the first).
pub open spec fn walk_wf(m: PathsView) -> bool {
    forall|j: int| 0 <= j < m.todo.len() ==> pending_idx_ok(#[trigger] m.todo[j], m.patterns.len() as int)
}

/// The work that `p` can still cause before the walk needs its caller: an
/// entry turns into at most three pending paths.
pub open spec fn pending_weight(p: PendingView) -> nat {
    match p {
        PendingView::Entry { .. } => 4,
        _ => 1,
    }
}

/// The work that the whole stack can cause before the walk needs its
/// caller.
pub open spec fn todo_weight(todo: Seq<PendingView>) -> nat
    decreases todo.len(),
{
    if todo.len() == 0 {
        0
    } else {
        todo_weight(todo.drop_last()) + pending_weight(todo.last())
    }
}

/// The text of component `idx` when the walk may look its path up directly:
/// the component holds literal characters only and case counts, so that no
/// other name can match it.
pub open spec fn shortcut_text(m: PathsView, idx: int) -> Option<Seq<char>> {
    if m.options.case_sensitive {
        literal_text(m.patterns[idx].tokens)
    } else {
        None
    }
}

/// The work that finding what lies below `path` for pattern `idx` asks
/// for: a component that can be looked up directly needs only a status of
/// the path it names, any other one the listing of `path`, if it is a
/// directory.
pub open spec fn explore_request(
    m: PathsView,
    path: Seq<char>,
    is_dir: bool,
    idx: int,
) -> Option<ActionView> {
    match shortcut_text(m, idx) {
        Some(s) => Some(ActionView::Stat(child_path(path, s))),
        None => if is_dir {
            Some(ActionView::ReadDir(path))
        } else {
            None
        },
    }
}

/// The last index of the run of recursive components that starts at `idx`.
pub open spec fn recursive_run_end(patterns: Seq<PatternView>, idx: int) -> int
    decreases patterns.len() - idx,
{
    if 0 <= idx && idx + 1 < patterns.len() && patterns[idx + 1].is_recursive {
        recursive_run_end(patterns, idx + 1)
    } else {
        idx
    }
}

/// Testing an entry's name against the non-recursive component `idx`: on a
/// match it is found (the last component) or goes on to the next one.
pub open spec fn plain_outcome(
    m: PathsView,
    path: Seq<char>,
    name: Seq<char>,
    is_dir: bool,
    idx: int,
    rest: Seq<PendingView>,
) -> (Seq<PendingView>, Option<ActionView>) {
    if tokens_match(m.patterns[idx].tokens, name, m.options) {
        if idx == m.patterns.len() - 1 {
            if !m.require_dir || is_dir {
                (rest, Some(ActionView::Yield(path)))
            } else {
                (rest, None)
            }
        } else {
            (add_next(m, rest, path, is_dir, idx), None)
        }
    } else {
        (rest, None)
    }
}

/// Testing an entry against component `idx`. A run of recursive components
/// counts as one: a directory there is explored under the same run, and is
/// itself a match when the run ends the pattern; otherwise the entry goes on
/// to the component after the run.
pub open spec fn entry_outcome(
    m: PathsView,
    path: Seq<char>,
    name: Seq<char>,
    is_dir: bool,
    idx: int,
    rest: Seq<PendingView>,
) -> (Seq<PendingView>, Option<ActionView>) {
    let n = m.patterns.len();
    if m.patterns[idx].is_recursive {
        let next = recursive_run_end(m.patterns, idx);
        if is_dir {
            let rest1 = rest.push(PendingView::Explore { path, is_dir: true, idx: next });
            if next == n - 1 {
                (rest1, Some(ActionView::Yield(path)))
            } else {
                plain_outcome(m, path, name, is_dir, next + 1, rest1)
            }
        } else if next == n - 1 {
            (rest, None)
        } else {
            plain_outcome(m, path, name, is_dir, next + 1, rest)
        }
    } else {
        plain_outcome(m, path, name, is_dir, idx, rest)
    }
}

/// Whether a run of recursive components starts at `j` and ends the
/// pattern.
pub open spec fn starts_trailing_run(m: PathsView, j: int) -> bool {
    0 <= j < m.patterns.len() && m.patterns[j].is_recursive && recursive_run_end(m.patterns, j)
        == m.patterns.len() - 1
}

/// Records the path that component `idx` led to: found, if `idx` is the
/// last component; else to be explored for the next one, and, when that
/// one starts a run of recursive components that ends the pattern and the
/// path is a directory, found as well (on top, so that it comes first).
pub open spec fn add_next(
    m: PathsView,
    todo: Seq<PendingView>,
    path: Seq<char>,
    is_dir: bool,
    idx: int,
) -> Seq<PendingView> {
    if idx + 1 == m.patterns.len() {
        todo.push(PendingView::Found { path, is_dir })
    } else {
        let explored = todo.push(PendingView::Explore { path, is_dir, idx: idx + 1 });
        if is_dir && starts_trailing_run(m, idx + 1) {
            explored.push(PendingView::Found { path, is_dir })
        } else {
            explored
        }
    }
}

/// `.` or `..`.
pub open spec fn is_dot_or_dot_dot(s: Seq<char>) -> bool {
    s == seq!['.'] || s == seq!['.', '.']
}

/// The stack once the filesystem has said whether the path asked about
/// exists and is a directory. For the root this settles its kind; for a
/// component looked up directly, the path it names is taken if it exists
/// (`.` and `..` exist in any directory).
pub open spec fn status_outcome(m: PathsView, exists: bool, is_dir: bool) -> Seq<PendingView> {
    let todo = m.todo;
    if todo.len() == 0 {
        todo
    } else {
        let rest = todo.drop_last();
        match todo.last() {
            PendingView::Root { path } => rest.push(PendingView::Explore { path, is_dir, idx: 0 }),
            PendingView::Explore { path, is_dir: parent_is_dir, idx } => match shortcut_text(
                m,
                idx,
            ) {
                Some(text) => {
                    let special = is_dot_or_dot_dot(text);
                    if (special && parent_is_dir) || (!special && exists) {
                        add_next(m, rest, child_path(path, text), is_dir, idx)
                    } else {
                        rest
                    }
                },
                None => todo,
            },
            _ => todo,
        }
    }
}

/// The pending entry for `e`, found in the directory `dir`.
pub open spec fn entry_pending(dir: Seq<char>, idx: int, e: DirEntryView) -> PendingView {
    PendingView::Entry { path: child_path(dir, e.name), name: e.name, is_dir: e.is_dir, idx }
}

/// Pushes the entries, the last first, so that the first ends on top.
pub open spec fn push_entries(
    todo: Seq<PendingView>,
    dir: Seq<char>,
    idx: int,
    sorted: Seq<DirEntryView>,
) -> Seq<PendingView>
    decreases sorted.len(),
{
    if sorted.len() == 0 {
        todo
    } else {
        let e = sorted.last();
        push_entries(todo.push(entry_pending(dir, idx, e)), dir, idx, sorted.drop_last())
    }
}

/// `.` and `..`, which no listing holds, for a component that starts with a
/// literal `.` and matches them.
pub open spec fn push_specials(
    m: PathsView,
    todo: Seq<PendingView>,
    dir: Seq<char>,
    idx: int,
) -> Seq<PendingView> {
    let t = m.patterns[idx].tokens;
    if t.len() > 0 && t[0] == Token::Char('.') {
        let t1 = if tokens_match(t, seq!['.'], m.options) {
            add_next(m, todo, join_path(dir, seq!['.']), true, idx)
        } else {
            todo
        };
        if tokens_match(t, seq!['.', '.'], m.options) {
            add_next(m, t1, join_path(dir, seq!['.', '.']), true, idx)
        } else {
            t1
        }
    } else {
        todo
    }
}

/// Whether a listing for component `idx` leaves out the names that start
/// with a `.`: where leading dots must be literal and the component does not
/// start with one, no such name can match.
pub open spec fn hides_dot_entries(m: PathsView, idx: int) -> bool {
    let t = m.patterns[idx].tokens;
    m.options.require_literal_leading_dot && !(t.len() > 0 && t[0] == Token::Char('.'))
}

/// What a failed listing of the awaited directory leaves, from `m` to `f`,
/// and returns: the directory is given up; it is reported, and remembered,
/// unless it was reported before.
pub open spec fn failure_outcome(
    m: PathsView,
    f: PathsView,
    r: Option<GlobError>,
    error: std::io::Error,
) -> bool {
    let dir = m.todo.last()->Explore_path;
    if m.failed.contains(dir) {
        r is None && f == (PathsView { todo: m.todo.drop_last(), ..m })
    } else {
        r is Some && r->0.path_view() == dir && r->0.error_view() == error && f == (PathsView {
            todo: m.todo.drop_last(),
            failed: m.failed.push(dir),
            ..m
        })
    }
}

/// Whether the top of the stack waits for a directory listing.
pub open spec fn awaits_listing(m: PathsView) -> bool {
    &&& m.todo.len() > 0
    &&& m.todo.last() matches PendingView::Explore { is_dir, idx, .. }
    &&& is_dir
    &&& shortcut_text(m, idx) is None
}

/// The stack once the listing of the awaited directory has come, with its
/// visible entries in the order `sorted`.
pub open spec fn listing_outcome(m: PathsView, sorted: Seq<DirEntryView>) -> Seq<PendingView> {
    let top = m.todo.last();
    let dir = top->Explore_path;
    let idx = top->Explore_idx;
    push_specials(m, push_entries(m.todo.drop_last(), dir, idx, sorted), dir, idx)
}

/// Pushing adds the weight of what is pushed.
pub proof fn lemma_weight_push(todo: Seq<PendingView>, p: PendingView)
    ensures
        todo_weight(todo.push(p)) == todo_weight(todo) + pending_weight(p),
{
    assert(todo.push(p).drop_last() =~= todo);
}

/// Testing an entry leaves at most three pending paths in its place.
pub proof fn lemma_entry_outcome_weight(
    m: PathsView,
    path: Seq<char>,
    name: Seq<char>,
    is_dir: bool,
    idx: int,
    rest: Seq<PendingView>,
)
    ensures
        todo_weight(entry_outcome(m, path, name, is_dir, idx, rest).0) <= todo_weight(rest) + 3,
{
    if m.patterns[idx].is_recursive {
        let next = recursive_run_end(m.patterns, idx);
        let rest1 = rest.push(PendingView::Explore { path, is_dir: true, idx: next });
        lemma_weight_push(rest, PendingView::Explore { path, is_dir: true, idx: next });
        lemma_add_next_weight(m, rest1, path, is_dir, next + 1);
        lemma_add_next_weight(m, rest, path, is_dir, next + 1);
    } else {
        lemma_add_next_weight(m, rest, path, is_dir, idx);
    }
}

/// Recording a path adds at most two pending paths.
pub proof fn lemma_add_next_weight(
    m: PathsView,
    todo: Seq<PendingView>,
    path: Seq<char>,
    is_dir: bool,
    idx: int,
)
    ensures
        todo_weight(add_next(m, todo, path, is_dir, idx)) <= todo_weight(todo) + 2,
{
    let explored = todo.push(PendingView::Explore { path, is_dir, idx: idx + 1 });
    lemma_weight_push(todo, PendingView::Found { path, is_dir });
    lemma_weight_push(todo, PendingView::Explore { path, is_dir, idx: idx + 1 });
    lemma_weight_push(explored, PendingView::Found { path, is_dir });
}

/// What the walk does before it needs the caller: it pops work off the
/// stack until it finds a match to report, a filesystem question to ask, or
/// an empty stack. A pending exploration that needs an answer stays on top
/// until the answer comes.
pub open spec fn resolve(m: PathsView) -> (Seq<PendingView>, ActionView)
    decreases todo_weight(m.todo),
{
    let todo = m.todo;
    if todo.len() == 0 {
        (todo, ActionView::Done)
    } else {
        let rest = todo.drop_last();
        let next_m = PathsView { todo: rest, ..m };
        proof {
            assert(todo.drop_last().push(todo.last()) =~= todo);
            lemma_weight_push(rest, todo.last());
        }
        match todo.last() {
            PendingView::Root { path } => (todo, ActionView::Stat(path)),
            PendingView::Explore { path, is_dir, idx } => match explore_request(
                m,
                path,
                is_dir,
                idx,
            ) {
                Some(a) => (todo, a),
                None => resolve(next_m),
            },
            PendingView::Found { path, is_dir } => if m.require_dir && !is_dir {
                resolve(next_m)
            } else {
                (rest, ActionView::Yield(path))
            },
            PendingView::Entry { path, name, is_dir, idx } => {
                let out = entry_outcome(m, path, name, is_dir, idx, rest);
                proof {
                    lemma_entry_outcome_weight(m, path, name, is_dir, idx, rest);
                }
                match out.1 {
                    Some(a) => (out.0, a),
                    None => resolve(PathsView { todo: out.0, ..m }),
                }
            },
        }
    }
}

/// Under a run of recursive components that ends the pattern, every
/// directory the walk meets is itself a match and is explored further under
/// the same run, while anything else is dropped.
pub proof fn law_trailing_recursive_run(
    m: PathsView,
    path: Seq<char>,
    name: Seq<char>,
    is_dir: bool,
    idx: int,
    rest: Seq<PendingView>,
)
    requires
        0 <= idx < m.patterns.len(),
        m.patterns[idx].is_recursive,
        recursive_run_end(m.patterns, idx) == m.patterns.len() - 1,
    ensures
        is_dir ==> entry_outcome(m, path, name, is_dir, idx, rest) == (
            rest.push(PendingView::Explore { path, is_dir: true, idx: m.patterns.len() - 1 }),
            Some(ActionView::Yield(path)),
        ),
        !is_dir ==> entry_outcome(m, path, name, is_dir, idx, rest) == (
            rest,
            None::<ActionView>,
        ),
{
}

/// A listing's entries go onto the stack last first, so that they come off
/// it in their sorted order: the top of the stack holds the first entry.
pub proof fn law_entries_come_off_in_order(
    todo: Seq<PendingView>,
    dir: Seq<char>,
    idx: int,
    sorted: Seq<DirEntryView>,
)
    ensures
        push_entries(todo, dir, idx, sorted) == todo + Seq::new(
            sorted.len(),
            |k: int| entry_pending(dir, idx, sorted[sorted.len() - 1 - k]),
        ),
    decreases sorted.len(),
{
    let n = sorted.len() as int;
    if n == 0 {
        assert(todo + Seq::new(0, |k: int| entry_pending(dir, idx, sorted[n - 1 - k])) =~= todo);
    } else {
        let e = sorted.last();
        let shorter = sorted.drop_last();
        law_entries_come_off_in_order(todo.push(entry_pending(dir, idx, e)), dir, idx, shorter);
        assert(todo.push(entry_pending(dir, idx, e)) + Seq::new(
            shorter.len(),
            |k: int| entry_pending(dir, idx, shorter[shorter.len() - 1 - k]),
        ) =~= todo + Seq::new(sorted.len(), |k: int| entry_pending(dir, idx, sorted[n - 1 - k])));
    }
}

/// A directory that a component leads to, when a run of recursive
/// components follows it to the end of the pattern, is itself a match (on
/// top, so that it comes before what lies below it) and is explored under
/// that run.
pub proof fn law_directory_before_trailing_run(
    m: PathsView,
    todo: Seq<PendingView>,
    path: Seq<char>,
    idx: int,
)
    requires
        0 <= idx,
        idx + 1 < m.patterns.len(),
        starts_trailing_run(m, idx + 1),
    ensures
        add_next(m, todo, path, true, idx) == todo.push(
            PendingView::Explore { path, is_dir: true, idx: idx + 1 },
        ).push(PendingView::Found { path, is_dir: true }),
{
}

} // verus!
