use vstd::prelude::*;

use crate::chars::is_sep;
use crate::text::{chars_of, push_char};

verus! {

/// `dir` followed by the single component `name`, with one separator
/// between them unless `dir` is empty or already ends with one.
pub open spec fn join_path(dir: Seq<char>, name: Seq<char>) -> Seq<char> {
    if dir.len() > 0 && !is_sep(dir.last()) {
        dir.push('/') + name
    } else {
        dir + name
    }
}

/// The path of the entry `name` of the directory `dir`; entries of the
/// current directory `.` are named by themselves.
pub open spec fn child_path(dir: Seq<char>, name: Seq<char>) -> Seq<char> {
    if dir == seq!['.'] {
        name
    } else {
        join_path(dir, name)
    }
}

fn append(s: &mut String, v: &Vec<char>)
    ensures
        final(s)@ == old(s)@ + v@,
{
    let ghost start = s@;
    let mut k: usize = 0;
    while k < v.len()
        invariant
            k <= v.len(),
            s@ == start + v@.take(k as int),
        decreases v.len() - k,
    {
        push_char(s, v[k]);
        k = k + 1;
        assert(s@ =~= start + v@.take(k as int));
    }
    assert(v@.take(v.len() as int) =~= v@);
}

/// Joins the single component `name` onto `dir`.
pub fn join(dir: &str, name: &str) -> (r: String)
    ensures
        r@ == join_path(dir@, name@),
{
    let d = chars_of(dir);
    let n = chars_of(name);
    let mut r = String::new();
    append(&mut r, &d);
    if d.len() > 0 && d[d.len() - 1] != '/' {
        push_char(&mut r, '/');
    }
    append(&mut r, &n);
    proof {
        if d.len() > 0 && d@.last() != '/' {
            assert(r@ =~= dir@.push('/') + name@);
        } else {
            assert(r@ =~= dir@ + name@);
        }
    }
    r
}

/// Whether `dir` is the current directory `.`.
pub fn is_current_dir(dir: &str) -> (r: bool)
    ensures
        r == (dir@ == seq!['.']),
{
    let d = chars_of(dir);
    let r = d.len() == 1 && d[0] == '.';
    proof {
        if r {
            assert(d@ =~= seq!['.']);
        }
    }
    r
}

/// The path of the entry `name` of the directory `dir`.
pub fn child(dir: &str, name: &str) -> (r: String)
    ensures
        r@ == child_path(dir@, name@),
{
    if is_current_dir(dir) {
        name.to_owned()
    } else {
        join(dir, name)
    }
}

/// Whether `name` starts with a `.`.
pub fn is_hidden(name: &str) -> (r: bool)
    ensures
        r == (name@.len() > 0 && name@[0] == '.'),
{
    let v = chars_of(name);
    v.len() > 0 && v[0] == '.'
}

} // verus!
