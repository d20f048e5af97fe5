use vstd::prelude::*;

use crate::error::GlobError;
use crate::listing::{sort_by_name, sorted_by_name, visible_entries, DirEntry, DirEntryView};
use crate::options::MatchOptions;
use crate::path::{child, is_hidden, join};
use crate::pattern::Pattern;
use crate::state::{
    add_next, awaits_listing, entry_outcome, is_dot_or_dot_dot, lemma_entry_outcome_weight,
    lemma_weight_push, listing_outcome, failure_outcome, hides_dot_entries, shortcut_text, pending_idx_ok, plain_outcome, push_entries,
    recursive_run_end, resolve,
    status_outcome, todo_weight, walk_wf, ActionView, PathsView, PendingView,
};
use crate::text::{chars_of, same_text};

verus! {

/// A path still to be looked at, with what is left to do with it.
pub enum Pending {
    /// The directory the walk starts from; whether it is a directory is
    /// not known yet.
    Root { path: String },
    /// Look below `path` for entries that match pattern component `idx`.
    Explore { path: String, is_dir: bool, idx: usize },
    /// A directory entry named `name`, to be tested against component `idx`.
    Entry { path: String, name: String, is_dir: bool, idx: usize },
    /// A path known to match every component.
    Found { path: String, is_dir: bool },
}

impl View for Pending {
    type V = PendingView;

    open spec fn view(&self) -> PendingView {
        match self {
            Pending::Root { path } => PendingView::Root { path: path@ },
            Pending::Explore { path, is_dir, idx } => PendingView::Explore {
                path: path@,
                is_dir: *is_dir,
                idx: *idx as int,
            },
            Pending::Entry { path, name, is_dir, idx } => PendingView::Entry {
                path: path@,
                name: name@,
                is_dir: *is_dir,
                idx: *idx as int,
            },
            Pending::Found { path, is_dir } => PendingView::Found { path: path@, is_dir: *is_dir },
        }
    }
}

/// What the walk needs next from its caller.
pub enum Action {
    /// A path that matches the pattern.
    Yield(String),
    /// List this directory and hand the entries to `push_listing`, or the
    /// failure to `listing_failed`.
    ReadDir(String),
    /// Find whether this path exists and whether it is a directory (following
    /// symbolic links), and hand both to `push_status`.
    Stat(String),
    /// The walk is over.
    Done,
}

impl View for Action {
    type V = ActionView;

    open spec fn view(&self) -> ActionView {
        match self {
            Action::Yield(p) => ActionView::Yield(p@),
            Action::ReadDir(p) => ActionView::ReadDir(p@),
            Action::Stat(p) => ActionView::Stat(p@),
            Action::Done => ActionView::Done,
        }
    }
}

/// The state of a walk, with the steps that change it.
pub(crate) struct Walk {
    dir_patterns: Vec<Pattern>,
    require_dir: bool,
    options: MatchOptions,
    todo: Vec<Pending>,
    failed: Vec<String>,
}

impl View for Walk {
    type V = PathsView;

    closed spec fn view(&self) -> PathsView {
        PathsView {
            patterns: self.dir_patterns@.map_values(|p: Pattern| p@),
            require_dir: self.require_dir,
            options: self.options,
            todo: self.todo@.map_values(|p: Pending| p@),
            failed: self.failed@.map_values(|s: String| s@),
        }
    }
}

proof fn lemma_todo_push(v: Seq<Pending>, p: Pending)
    ensures
        v.push(p).map_values(|q: Pending| q@) == v.map_values(|q: Pending| q@).push(p@),
{
    assert(v.push(p).map_values(|q: Pending| q@) =~= v.map_values(|q: Pending| q@).push(p@));
}

proof fn lemma_todo_pop(v: Seq<Pending>)
    requires
        v.len() > 0,
    ensures
        v.drop_last().map_values(|q: Pending| q@) == v.map_values(|q: Pending| q@).drop_last(),
        v.map_values(|q: Pending| q@).last() == v.last()@,
{
    assert(v.drop_last().map_values(|q: Pending| q@) =~= v.map_values(|q: Pending| q@).drop_last());
}

/// Whether `s` is `.` or `..`.
fn is_special(s: &str) -> (r: bool)
    ensures
        r == is_dot_or_dot_dot(s@),
{
    let v = chars_of(s);
    let r = (v.len() == 1 && v[0] == '.') || (v.len() == 2 && v[0] == '.' && v[1] == '.');
    proof {
        if v.len() == 1 && v[0] == '.' {
            assert(v@ =~= seq!['.']);
        }
        if v.len() == 2 && v[0] == '.' && v[1] == '.' {
            assert(v@ =~= seq!['.', '.']);
        }
    }
    r
}

impl Walk {
    /// The walk over nothing, with nothing to do.
    fn empty() -> (r: Self)
        ensures
            r.wf(),
    {
        let r = Walk {
            dir_patterns: Vec::new(),
            require_dir: false,
            options: MatchOptions::new(),
            todo: Vec::new(),
            failed: Vec::new(),
        };
        assert(r@.todo =~= Seq::<PendingView>::empty());
        r
    }

    /// A walk over `dir_patterns`, rooted at `scope`, that has not started.
    pub(crate) fn start(
        dir_patterns: Vec<Pattern>,
        require_dir: bool,
        options: MatchOptions,
        scope: String,
    ) -> (r: Self)
        requires
            dir_patterns.len() > 0,
        ensures
            r.wf(),
            r@ == (PathsView {
                patterns: dir_patterns@.map_values(|p: Pattern| p@),
                require_dir,
                options,
                todo: seq![PendingView::Root { path: scope@ }],
                failed: Seq::empty(),
            }),
    {
        let mut todo: Vec<Pending> = Vec::new();
        todo.push(Pending::Root { path: scope });
        let paths = Walk { dir_patterns, require_dir, options, todo, failed: Vec::new() };
        assert(paths@.failed =~= Seq::<Seq<char>>::empty());
        assert(paths@.todo =~= seq![PendingView::Root { path: paths.todo@[0]->Root_path@ }]);
        paths
    }

    /// Every pending index names a pattern component.
    pub closed spec fn wf(&self) -> bool {
        walk_wf(self@)
    }

    /// Pushes `p`, whose index (if any) names a pattern component.
    fn push_pending(&mut self, p: Pending)
        requires
            old(self).wf(),
            pending_idx_ok(p@, old(self)@.patterns.len() as int),
        ensures
            final(self).wf(),
            final(self)@ == (PathsView { todo: old(self)@.todo.push(p@), ..old(self)@ }),
    {
        proof {
            lemma_todo_push(self.todo@, p);
        }
        self.todo.push(p);
        proof {
            let t = self@.todo;
            assert forall|j: int| 0 <= j < t.len() implies pending_idx_ok(
                #[trigger] t[j],
                self@.patterns.len() as int,
            ) by {
                if j < t.len() - 1 {
                    assert(t[j] == old(self)@.todo[j]);
                }
            }
        }
    }

    /// Tests the entry against the non-recursive component `idx`.
    fn plain_step(&mut self, path: String, name: String, is_dir: bool, idx: usize) -> (r: Option<
        Action,
    >)
        requires
            old(self).wf(),
            idx < old(self)@.patterns.len(),
        ensures
            final(self).wf(),
            final(self)@.todo == plain_outcome(old(self)@, path@, name@, is_dir, idx as int, old(self)@.todo).0,
            final(self)@ == (PathsView { todo: final(self)@.todo, ..old(self)@ }),
            match r {
                Some(a) => plain_outcome(old(self)@, path@, name@, is_dir, idx as int, old(self)@.todo).1 == Some(a@),
                None => plain_outcome(old(self)@, path@, name@, is_dir, idx as int, old(self)@.todo).1 is None,
            },
    {
        let n = self.dir_patterns.len();
        assert(self.dir_patterns@[idx as int]@ == self@.patterns[idx as int]);
        if self.dir_patterns[idx].matches_with(name.as_str(), self.options) {
            if idx == n - 1 {
                if !self.require_dir || is_dir {
                    Some(Action::Yield(path))
                } else {
                    None
                }
            } else {
                self.add_next_path(path, is_dir, idx);
                None
            }
        } else {
            None
        }
    }

    /// Tests the entry against component `idx`, a run of recursive
    /// components counting as one.
    fn entry_step(&mut self, path: String, name: String, is_dir: bool, idx: usize) -> (r: Option<
        Action,
    >)
        requires
            old(self).wf(),
            idx < old(self)@.patterns.len(),
        ensures
            final(self).wf(),
            final(self)@.todo == entry_outcome(old(self)@, path@, name@, is_dir, idx as int, old(self)@.todo).0,
            final(self)@ == (PathsView { todo: final(self)@.todo, ..old(self)@ }),
            match r {
                Some(a) => entry_outcome(old(self)@, path@, name@, is_dir, idx as int, old(self)@.todo).1 == Some(a@),
                None => entry_outcome(old(self)@, path@, name@, is_dir, idx as int, old(self)@.todo).1 is None,
            },
    {
        let ghost m = self@;
        let n = self.dir_patterns.len();
        assert(self.dir_patterns@[idx as int]@ == m.patterns[idx as int]);
        if self.dir_patterns[idx].is_recursive() {
            let next = self.run_end(idx);
            if is_dir {
                self.push_pending(Pending::Explore { path: path.clone(), is_dir: true, idx: next });
                if next == n - 1 {
                    return Some(Action::Yield(path));
                }
                self.plain_step(path, name, is_dir, next + 1)
            } else if next == n - 1 {
                None
            } else {
                self.plain_step(path, name, is_dir, next + 1)
            }
        } else {
            self.plain_step(path, name, is_dir, idx)
        }
    }

    /// Takes in the failure to list the directory of the last `ReadDir`
    /// action: the directory is given up, and the failure is returned as its
    /// error unless that directory was reported before, so that each one is
    /// reported once. Returns nothing unless the walk waits for that listing.
    pub(crate) fn listing_failed(&mut self, error: std::io::Error) -> (r: Option<GlobError>)
        requires
            old(self).wf(),
        ensures
            final(self).wf(),
            awaits_listing(old(self)@) ==> failure_outcome(old(self)@, final(self)@, r, error),
            !awaits_listing(old(self)@) ==> r is None && final(self)@ == old(self)@,
    {
        let ghost m = self@;
        let len = self.todo.len();
        if len == 0 {
            return None;
        }
        proof {
            lemma_todo_pop(self.todo@);
            assert(pending_idx_ok(m.todo[len - 1], m.patterns.len() as int));
        }
        match &self.todo[len - 1] {
            Pending::Explore { is_dir, idx, .. } => {
                assert(self.dir_patterns@[*idx as int]@ == m.patterns[*idx as int]);
                if !*is_dir {
                    return None;
                }
                match self.shortcut(*idx) {
                    Some(_) => {
                        return None;
                    },
                    None => {},
                }
            },
            _ => {
                return None;
            },
        }
        match self.todo.pop() {
            Some(Pending::Explore { path, .. }) => {
                let mut k: usize = 0;
                while k < self.failed.len()
                    invariant
                        k <= self.failed.len(),
                        m == old(self)@,
                        m.todo.len() > 0,
                        awaits_listing(m),
                        path@ == m.todo.last()->Explore_path,
                        self@ == (PathsView { todo: m.todo.drop_last(), ..m }),
                        self.wf(),
                        forall|j: int| 0 <= j < k ==> m.failed[j] != path@,
                    decreases self.failed.len() - k,
                {
                    if same_text(self.failed[k].as_str(), path.as_str()) {
                        assert(m.failed[k as int] == path@);
                        return None;
                    }
                    k = k + 1;
                }
                assert(!m.failed.contains(path@));
                self.failed.push(path.clone());
                assert(self@.failed =~= m.failed.push(path@));
                Some(GlobError::new(path, error))
            },
            _ => None,
        }
    }

    /// Takes in whether the path of the last `Stat` action exists and whether
    /// it is a directory. Does nothing unless the walk waits for that answer.
    pub(crate) fn push_status(&mut self, exists: bool, is_dir: bool)
        requires
            old(self).wf(),
        ensures
            final(self).wf(),
            final(self)@ == (PathsView { todo: status_outcome(old(self)@, exists, is_dir), ..old(self)@ }),
    {
        let ghost m = self@;
        let len = self.todo.len();
        if len == 0 {
            return ;
        }
        proof {
            lemma_todo_pop(self.todo@);
            assert(pending_idx_ok(m.todo[len - 1], m.patterns.len() as int));
        }
        let (text, parent_is_dir, idx) = match &self.todo[len - 1] {
            Pending::Root { .. } => {
                match self.todo.pop() {
                    Some(Pending::Root { path }) => {
                        self.push_pending(Pending::Explore { path, is_dir, idx: 0 });
                    },
                    _ => {},
                }
                return ;
            },
            Pending::Explore { is_dir: d, idx, .. } => {
                assert(self.dir_patterns@[*idx as int]@ == m.patterns[*idx as int]);
                assert(*idx < self.dir_patterns.len());
                match self.shortcut(*idx) {
                    Some(text) => (text, *d, *idx),
                    None => {
                        return ;
                    },
                }
            },
            _ => {
                return ;
            },
        };
        assert(self@.patterns.len() == self.dir_patterns@.len());
        match self.todo.pop() {
            Some(Pending::Explore { path, .. }) => {
                let special = is_special(text.as_str());
                if (special && parent_is_dir) || (!special && exists) {
                    let next = child(path.as_str(), text.as_str());
                    self.add_next_path(next, is_dir, idx);
                }
            },
            _ => {},
        }
    }

    /// Takes in the entries of the directory of the last `ReadDir` action.
    /// Does nothing unless the walk waits for that listing.
    pub(crate) fn push_listing(&mut self, entries: Vec<DirEntry>)
        requires
            old(self).wf(),
        ensures
            final(self).wf(),
            final(self)@.patterns == old(self)@.patterns,
            final(self)@.require_dir == old(self)@.require_dir,
            final(self)@.options == old(self)@.options,
            final(self)@.failed == old(self)@.failed,
            awaits_listing(old(self)@) ==> exists|sorted: Seq<DirEntryView>|
                #![trigger listing_outcome(old(self)@, sorted)]
                sorted.to_multiset() == visible_entries(
                    entries@.map_values(|e: DirEntry| e@),
                    hides_dot_entries(old(self)@, old(self)@.todo.last()->Explore_idx),
                ).to_multiset() && sorted_by_name(sorted) && final(self)@.todo == listing_outcome(
                    old(self)@,
                    sorted,
                ),
            !awaits_listing(old(self)@) ==> final(self)@ == old(self)@,
    {
        let ghost m = self@;
        let len = self.todo.len();
        if len == 0 {
            return ;
        }
        proof {
            lemma_todo_pop(self.todo@);
            assert(pending_idx_ok(m.todo[len - 1], m.patterns.len() as int));
        }
        let idx = match &self.todo[len - 1] {
            Pending::Explore { is_dir, idx, .. } => {
                assert(self.dir_patterns@[*idx as int]@ == m.patterns[*idx as int]);
                if !*is_dir {
                    return ;
                }
                match self.shortcut(*idx) {
                    Some(_) => {
                        return ;
                    },
                    None => *idx,
                }
            },
            _ => {
                return ;
            },
        };
        let dir = match self.todo.pop() {
            Some(Pending::Explore { path, .. }) => path,
            _ => {
                return ;
            },
        };
        let ghost rest = self@.todo;
        // the visible entries
        assert(self.dir_patterns@[idx as int]@ == m.patterns[idx as int]);
        let hide = self.options.require_literal_leading_dot && !self.dir_patterns[idx].starts_with_dot();
        assert(hide == hides_dot_entries(m, idx as int));
        let ghost all = entries@.map_values(|e: DirEntry| e@);
        let mut kept: Vec<DirEntry> = Vec::new();
        let mut k: usize = 0;
        while k < entries.len()
            invariant
                k <= entries.len(),
                all == entries@.map_values(|e: DirEntry| e@),
                kept@.map_values(|e: DirEntry| e@) == visible_entries(all.take(k as int), hide),
                self@.options == m.options,
            decreases entries.len() - k,
        {
            let ghost before = kept@;
            let e = &entries[k];
            proof {
                assert(all.take(k + 1).drop_last() =~= all.take(k as int));
                assert(all.take(k + 1).last() == e@);
            }
            if !(hide && is_hidden(e.name.as_str())) {
                kept.push(DirEntry { name: e.name.clone(), is_dir: e.is_dir });
                assert(kept@.map_values(|e: DirEntry| e@) =~= before.map_values(|e: DirEntry| e@).push(
                    e@,
                ));
            }
            k = k + 1;
        }
        proof {
            assert(all.take(entries.len() as int) =~= all);
        }
        sort_by_name(&mut kept);
        let ghost sorted = kept@.map_values(|e: DirEntry| e@);
        // the first entry ends on top of the stack
        while kept.len() > 0
            invariant
                self.wf(),
                self@.patterns == m.patterns,
                self@.require_dir == m.require_dir,
                self@.options == m.options,
                self@.failed == m.failed,
                idx < m.patterns.len(),
                push_entries(self@.todo, dir@, idx as int, kept@.map_values(|e: DirEntry| e@))
                    == push_entries(rest, dir@, idx as int, sorted),
            decreases kept.len(),
        {
            let ghost kv = kept@.map_values(|e: DirEntry| e@);
            let e = kept.pop().unwrap();
            proof {
                assert(kept@.map_values(|e: DirEntry| e@) =~= kv.drop_last());
            }
            let p = child(dir.as_str(), e.name.as_str());
            self.push_pending(Pending::Entry { path: p, name: e.name, is_dir: e.is_dir, idx });
        }
        proof {
            assert(kept@.map_values(|e: DirEntry| e@) =~= Seq::<DirEntryView>::empty());
        }
        // `.` and `..` never show up in a listing
        assert(self.dir_patterns@[idx as int]@ == m.patterns[idx as int]);
        proof {
            reveal_strlit(".");
            reveal_strlit("..");
            assert(".".view() =~= seq!['.']);
            assert("..".view() =~= seq!['.', '.']);
        }
        if self.dir_patterns[idx].starts_with_dot() {
            if self.dir_patterns[idx].matches_with(".", self.options) {
                let p = join(dir.as_str(), ".");
                self.add_next_path(p, true, idx);
            }
            if self.dir_patterns[idx].matches_with("..", self.options) {
                let p = join(dir.as_str(), "..");
                self.add_next_path(p, true, idx);
            }
        }
        assert(self@.todo == listing_outcome(m, sorted));
    }

    /// Records the path that component `idx` led to.
    fn add_next_path(&mut self, path: String, is_dir: bool, idx: usize)
        requires
            old(self).wf(),
            idx < old(self)@.patterns.len(),
        ensures
            final(self).wf(),
            final(self)@ == (PathsView {
                todo: add_next(old(self)@, old(self)@.todo, path@, is_dir, idx as int),
                ..old(self)@
            }),
    {
        assert(self@.patterns.len() == self.dir_patterns@.len());
        assert(idx < self.dir_patterns.len());
        if idx + 1 == self.dir_patterns.len() {
            self.push_pending(Pending::Found { path, is_dir });
        } else {
            let trailing = is_dir && self.dir_patterns[idx + 1].is_recursive() && self.run_end(
                idx + 1,
            ) == self.dir_patterns.len() - 1;
            assert(self.dir_patterns@[idx + 1]@ == self@.patterns[idx + 1]);
            if trailing {
                self.push_pending(Pending::Explore { path: path.clone(), is_dir, idx: idx + 1 });
                self.push_pending(Pending::Found { path, is_dir });
            } else {
                self.push_pending(Pending::Explore { path, is_dir, idx: idx + 1 });
            }
        }
    }

    /// The last index of the run of recursive components that starts at
    /// `idx`.
    fn run_end(&self, idx: usize) -> (r: usize)
        requires
            idx < self@.patterns.len(),
        ensures
            r as int == recursive_run_end(self@.patterns, idx as int),
            idx <= r < self@.patterns.len(),
    {
        let ghost m = self@;
        let n = self.dir_patterns.len();
        let mut next = idx;
        while next + 1 < n && self.dir_patterns[next + 1].is_recursive()
            invariant
                idx <= next < n,
                n == m.patterns.len(),
                self@ == m,
                recursive_run_end(m.patterns, idx as int) == recursive_run_end(m.patterns, next as int),
            decreases n - next,
        {
            assert(self.dir_patterns@[next + 1]@ == m.patterns[next + 1]);
            next = next + 1;
        }
        proof {
            if next + 1 < n {
                assert(self.dir_patterns@[next + 1]@ == m.patterns[next + 1]);
            }
        }
        next
    }

    /// The text of component `idx` when its path can be looked up directly.
    fn shortcut(&self, idx: usize) -> (r: Option<String>)
        requires
            idx < self@.patterns.len(),
        ensures
            match shortcut_text(self@, idx as int) {
                Some(text) => r is Some && r->0@ == text,
                None => r is None,
            },
    {
        assert(self.dir_patterns@[idx as int]@ == self@.patterns[idx as int]);
        if self.options.case_sensitive {
            self.dir_patterns[idx].literal()
        } else {
            None
        }
    }

    /// Works through the stack until there is a match to report, a question
    /// for the filesystem, or nothing left.
    pub(crate) fn next_action(&mut self) -> (r: Action)
        requires
            old(self).wf(),
        ensures
            final(self).wf(),
            final(self)@ == (PathsView { todo: resolve(old(self)@).0, ..old(self)@ }),
            r@ == resolve(old(self)@).1,
    {
        loop
            invariant
                self.wf(),
                resolve(self@) == resolve(old(self)@),
                self@ == (PathsView { todo: self@.todo, ..old(self)@ }),
            decreases todo_weight(self@.todo),
        {
            let ghost m = self@;
            let len = self.todo.len();
            if len == 0 {
                return Action::Done;
            }
            proof {
                lemma_todo_pop(self.todo@);
                lemma_weight_push(m.todo.drop_last(), m.todo.last());
                assert(m.todo.drop_last().push(m.todo.last()) =~= m.todo);
                assert(pending_idx_ok(m.todo[len - 1], m.patterns.len() as int));
            }
            match &self.todo[len - 1] {
                Pending::Root { path } => {
                    return Action::Stat(path.clone());
                },
                Pending::Explore { path, is_dir, idx } => {
                    assert(self.dir_patterns@[*idx as int]@ == m.patterns[*idx as int]);
                    match self.shortcut(*idx) {
                        Some(s) => {
                            return Action::Stat(child(path.as_str(), s.as_str()));
                        },
                        None => {
                            if *is_dir {
                                return Action::ReadDir(path.clone());
                            }
                        },
                    }
                },
                _ => {},
            }
            match self.todo.pop() {
                Some(Pending::Found { path, is_dir }) => {
                    if !self.require_dir || is_dir {
                        return Action::Yield(path);
                    }
                },
                Some(Pending::Entry { path, name, is_dir, idx }) => {
                    proof {
                        lemma_entry_outcome_weight(m, path@, name@, is_dir, idx as int, m.todo.drop_last());
                    }
                    match self.entry_step(path, name, is_dir, idx) {
                        Some(a) => {
                            return a;
                        },
                        None => {},
                    }
                },
                _ => {},
            }
        }
    }
}

/// An iterator-like walk over the paths that match a pattern. It performs
/// no I/O itself: `next_action` says what it needs, and the caller hands
/// back what the filesystem answered.
pub struct Paths {
    walk: Walk,
}

impl View for Paths {
    type V = PathsView;

    closed spec fn view(&self) -> PathsView {
        self.walk@
    }
}

impl Paths {
    #[verifier::type_invariant]
    spec fn well_formed(&self) -> bool {
        self.walk.wf()
    }

    /// A walk over `dir_patterns`, rooted at `scope`, that has not started.
    pub(crate) fn start(
        dir_patterns: Vec<Pattern>,
        require_dir: bool,
        options: MatchOptions,
        scope: String,
    ) -> (r: Self)
        requires
            dir_patterns.len() > 0,
        ensures
            r@ == (PathsView {
                patterns: dir_patterns@.map_values(|p: Pattern| p@),
                require_dir,
                options,
                todo: seq![PendingView::Root { path: scope@ }],
                failed: Seq::empty(),
            }),
    {
        Paths { walk: Walk::start(dir_patterns, require_dir, options, scope) }
    }

    /// Takes the walk out, leaving one with nothing to do.
    fn take_walk(&mut self) -> (r: Walk)
        ensures
            r.wf(),
            r@ == old(self)@,
    {
        proof {
            use_type_invariant(&*self);
        }
        let mut w = Walk::empty();
        std::mem::swap(&mut self.walk, &mut w);
        w
    }

    /// Works through the stack until there is a match to report, a question
    /// for the filesystem, or nothing left.
    pub fn next_action(&mut self) -> (r: Action)
        ensures
            final(self)@ == (PathsView { todo: resolve(old(self)@).0, ..old(self)@ }),
            r@ == resolve(old(self)@).1,
    {
        let mut w = self.take_walk();
        let r = w.next_action();
        self.walk = w;
        r
    }

    /// Takes in whether the path of the last `Stat` action exists and whether
    /// it is a directory. Does nothing unless the walk waits for that answer.
    pub fn push_status(&mut self, exists: bool, is_dir: bool)
        ensures
            final(self)@ == (PathsView { todo: status_outcome(old(self)@, exists, is_dir), ..old(self)@ }),
    {
        let mut w = self.take_walk();
        w.push_status(exists, is_dir);
        self.walk = w;
    }

    /// Takes in the entries of the directory of the last `ReadDir` action.
    /// Does nothing unless the walk waits for that listing.
    pub fn push_listing(&mut self, entries: Vec<DirEntry>)
        ensures
            final(self)@.patterns == old(self)@.patterns,
            final(self)@.require_dir == old(self)@.require_dir,
            final(self)@.options == old(self)@.options,
            final(self)@.failed == old(self)@.failed,
            awaits_listing(old(self)@) ==> exists|sorted: Seq<DirEntryView>|
                #![trigger listing_outcome(old(self)@, sorted)]
                sorted.to_multiset() == visible_entries(
                    entries@.map_values(|e: DirEntry| e@),
                    hides_dot_entries(old(self)@, old(self)@.todo.last()->Explore_idx),
                ).to_multiset() && sorted_by_name(sorted) && final(self)@.todo == listing_outcome(
                    old(self)@,
                    sorted,
                ),
            !awaits_listing(old(self)@) ==> final(self)@ == old(self)@,
    {
        let mut w = self.take_walk();
        w.push_listing(entries);
        self.walk = w;
    }

    /// Takes in the failure to list the directory of the last `ReadDir`
    /// action: the directory is given up, and the failure is returned as its
    /// error unless that directory was reported before, so that each one is
    /// reported once. Returns nothing unless the walk waits for that listing.
    pub fn listing_failed(&mut self, error: std::io::Error) -> (r: Option<GlobError>)
        ensures
            awaits_listing(old(self)@) ==> failure_outcome(old(self)@, final(self)@, r, error),
            !awaits_listing(old(self)@) ==> r is None && final(self)@ == old(self)@,
    {
        let mut w = self.take_walk();
        let r = w.listing_failed(error);
        self.walk = w;
        r
    }
}

} // verus!
