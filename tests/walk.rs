use glob::{glob, glob_with, Action, DirEntry, MatchOptions};
use std::io;

/// A filesystem held in memory: each node is a normalised path, whether it
/// is a directory, and whether it can be listed.
struct MemFs {
    nodes: Vec<(String, bool, bool)>,
}

fn normalise(path: &str) -> String {
    let absolute = path.starts_with('/');
    let mut parts: Vec<&str> = Vec::new();
    for part in path.split('/') {
        match part {
            "" | "." => {}
            ".." => {
                parts.pop();
            }
            p => parts.push(p),
        }
    }
    let joined = parts.join("/");
    if absolute {
        format!("/{}", joined)
    } else if joined.is_empty() {
        ".".to_string()
    } else {
        joined
    }
}

fn parent_of(path: &str) -> String {
    match path.rfind('/') {
        Some(0) => "/".to_string(),
        Some(i) => path[..i].to_string(),
        None => ".".to_string(),
    }
}

impl MemFs {
    fn new(entries: &[(&str, bool)]) -> MemFs {
        let mut nodes = vec![(".".to_string(), true, true), ("/".to_string(), true, true)];
        for (p, is_dir) in entries {
            nodes.push((p.to_string(), *is_dir, true));
        }
        MemFs { nodes }
    }

    fn unreadable(mut self, path: &str) -> MemFs {
        for n in self.nodes.iter_mut() {
            if n.0 == path {
                n.2 = false;
            }
        }
        self
    }

    fn stat(&self, path: &str) -> (bool, bool) {
        let p = normalise(path);
        match self.nodes.iter().find(|n| n.0 == p) {
            Some(n) => {
                // a trailing separator names a directory only
                if path.ends_with('/') && path != "/" && !n.1 {
                    (false, false)
                } else {
                    (true, n.1)
                }
            }
            None => (false, false),
        }
    }

    fn list(&self, path: &str) -> Option<Vec<DirEntry>> {
        let p = normalise(path);
        let node = self.nodes.iter().find(|n| n.0 == p)?;
        if !node.1 || !node.2 {
            return None;
        }
        // listed newest first, so that the walk has to sort
        let mut out = Vec::new();
        for n in self.nodes.iter().rev() {
            if n.0 != p && n.0 != "/" && n.0 != "." && parent_of(&n.0) == p {
                let name = n.0.rsplit('/').next().unwrap().to_string();
                out.push(DirEntry { name, is_dir: n.1 });
            }
        }
        Some(out)
    }
}

/// Runs a walk to its end over `fs`: matches as `Ok`, unreadable directories
/// as `Err` with their path.
fn walk(fs: &MemFs, pattern: &str, options: MatchOptions) -> Vec<Result<String, String>> {
    let mut paths = glob_with(pattern, options).unwrap();
    let mut out = Vec::new();
    loop {
        match paths.next_action() {
            Action::Yield(p) => out.push(Ok(p)),
            Action::ReadDir(p) => match fs.list(&p) {
                Some(entries) => paths.push_listing(entries),
                None => {
                    let denied = io::Error::new(io::ErrorKind::PermissionDenied, "denied");
                    // a directory that failed before is not reported again
                    if let Some(e) = paths.listing_failed(denied) {
                        assert_eq!(e.error().kind(), io::ErrorKind::PermissionDenied);
                        out.push(Err(e.path().to_string()));
                    }
                }
            },
            Action::Stat(p) => {
                let (exists, is_dir) = fs.stat(&p);
                paths.push_status(exists, is_dir);
            }
            Action::Done => break,
        }
    }
    out
}

fn ok(paths: &[&str]) -> Vec<Result<String, String>> {
    paths.iter().map(|p| Ok(p.to_string())).collect()
}

fn sample_tree() -> MemFs {
    MemFs::new(&[
        ("root", true),
        ("root/foo", true),
        ("root/foo/a", false),
        ("root/foo/b", false),
        ("root/bar", true),
        ("root/bar/a", false),
    ])
}

#[test]
fn test_glob_errors() {
    assert!(glob("a/**b").err().unwrap().pos == 4);
    assert!(glob("abc[def").err().unwrap().pos == 3);
}

#[test]
fn walk_wildcard_component_in_order() {
    let fs = sample_tree();
    assert_eq!(walk(&fs, "root/*/a", MatchOptions::new()), ok(&["root/bar/a", "root/foo/a"]));
}

#[test]
fn walk_all_entries_sorted() {
    let fs = sample_tree();
    assert_eq!(
        walk(&fs, "root/*/*", MatchOptions::new()),
        ok(&["root/bar/a", "root/foo/a", "root/foo/b"])
    );
}

#[test]
fn walk_unreadable_directory_reported_once() {
    let fs = MemFs::new(&[
        ("root", true),
        ("root/a", true),
        ("root/a/x", false),
        ("root/b", true),
        ("root/b/x", false),
        ("root/c", true),
        ("root/c/x", false),
    ])
    .unreadable("root/b");
    assert_eq!(
        walk(&fs, "root/*/x", MatchOptions::new()),
        ok(&["root/a/x", "root/b/x", "root/c/x"])
    );
    // only a listing can fail: a literal last component needs none
    assert_eq!(
        walk(&fs, "root/*/?", MatchOptions::new()),
        vec![
            Ok("root/a/x".to_string()),
            Err("root/b".to_string()),
            Ok("root/c/x".to_string())
        ]
    );
}

#[test]
fn walk_recursive_tail_yields_descendant_directories() {
    let fs = MemFs::new(&[
        ("root", true),
        ("root/a", true),
        ("root/a/b", true),
        ("root/a/b/f", false),
        ("root/a/g", false),
        ("root/c", true),
        ("root/h", false),
    ]);
    assert_eq!(
        walk(&fs, "root/**", MatchOptions::new()),
        ok(&["root", "root/a", "root/a/b", "root/c"])
    );
}

#[test]
fn walk_recursive_then_files() {
    let fs = MemFs::new(&[
        ("root", true),
        ("root/a", true),
        ("root/a/b", true),
        ("root/a/b/f", false),
        ("root/a/g", false),
        ("root/h", false),
    ]);
    assert_eq!(
        walk(&fs, "root/**/*", MatchOptions::new()),
        ok(&["root/a", "root/a/b", "root/a/b/f", "root/a/g", "root/h"])
    );
    assert_eq!(
        walk(&fs, "root/**/f", MatchOptions::new()),
        ok(&["root/a/b/f"])
    );
}

#[test]
fn walk_literal_components() {
    let fs = sample_tree();
    assert_eq!(walk(&fs, "root/foo/b", MatchOptions::new()), ok(&["root/foo/b"]));
    assert_eq!(walk(&fs, "root/foo/c", MatchOptions::new()), ok(&[]));
    assert_eq!(walk(&fs, "root/foo/a/x", MatchOptions::new()), ok(&[]));
}

#[test]
fn walk_trailing_separator_requires_directory() {
    let fs = MemFs::new(&[("root", true), ("root/d", true), ("root/f", false)]);
    assert_eq!(walk(&fs, "root/*/", MatchOptions::new()), ok(&["root/d"]));
    assert_eq!(walk(&fs, "root/*", MatchOptions::new()), ok(&["root/d", "root/f"]));
}

#[test]
fn walk_absolute_root() {
    let fs = MemFs::new(&[("/etc", true)]);
    assert_eq!(walk(&fs, "/", MatchOptions::new()), ok(&["/"]));
    assert_eq!(walk(&fs, "/*", MatchOptions::new()), ok(&["/etc"]));
}

#[test]
fn walk_hidden_entries() {
    let fs = MemFs::new(&[("root", true), ("root/.hidden", false), ("root/shown", false)]);
    assert_eq!(walk(&fs, "root/*", MatchOptions::new()), ok(&["root/.hidden", "root/shown"]));
    let options = MatchOptions {
        require_literal_leading_dot: true,
        ..MatchOptions::new()
    };
    assert_eq!(walk(&fs, "root/*", options), ok(&["root/shown"]));
    assert_eq!(
        walk(&fs, "root/.*", MatchOptions::new()),
        ok(&["root/..", "root/.", "root/.hidden"])
    );
}

#[test]
fn walk_orders_by_bytes() {
    let fs = MemFs::new(&[("d", true), ("d/b", false), ("d/B", false), ("d/a", false), ("d/ab", false)]);
    assert_eq!(walk(&fs, "d/*", MatchOptions::new()), ok(&["d/B", "d/a", "d/ab", "d/b"]));
}

#[test]
fn walk_component_error_after_valid_whole() {
    // a class that holds a separator is valid as a whole but not per component
    assert!(glob("a[/]b").err().unwrap().pos == 1);
}

#[test]
fn walk_case_insensitive_component() {
    let fs = MemFs::new(&[("root", true), ("root/ReadMe", false), ("root/other", false)]);
    let options = MatchOptions {
        case_sensitive: false,
        ..MatchOptions::new()
    };
    // a literal component is looked up by listing when case does not count
    assert_eq!(walk(&fs, "root/readme", options), ok(&["root/ReadMe"]));
    assert_eq!(walk(&fs, "root/readme", MatchOptions::new()), ok(&[]));
    assert_eq!(walk(&fs, "root/readm?", options), ok(&["root/ReadMe"]));
}

#[test]
fn walk_unreadable_directory_reported_once_under_recursion() {
    let fs = MemFs::new(&[
        ("d", true),
        ("d/x", false),
        ("e", true),
        ("e/f", true),
        ("e/f/g", false),
    ])
    .unreadable("d");
    let out = walk(&fs, "**/*/*", MatchOptions::new());
    let errors: Vec<_> = out.iter().filter(|r| r.is_err()).collect();
    assert_eq!(errors, vec![&Err("d".to_string())]);
    assert!(out.contains(&Ok("e/f/g".to_string())));
}

#[test]
fn walk_recursive_after_wildcard_component() {
    let fs = MemFs::new(&[("da", true), ("da/s", true), ("db", false)]);
    assert_eq!(walk(&fs, "d*/**", MatchOptions::new()), ok(&["da", "da/s"]));
}

#[test]
fn walk_hidden_entries_with_leading_dot_pattern() {
    let fs = MemFs::new(&[("root", true), ("root/.hidden", false), ("root/shown", false)]);
    let options = MatchOptions {
        require_literal_leading_dot: true,
        ..MatchOptions::new()
    };
    assert_eq!(
        walk(&fs, "root/.*", options),
        ok(&["root/..", "root/.", "root/.hidden"])
    );
    assert_eq!(walk(&fs, "root/.hidden", options), ok(&["root/.hidden"]));
}
