use vstd::prelude::*;

use vstd::utf8::encode_utf8;


verus! {

/// A directory entry: its name, and whether it is a directory (following a
/// symbolic link).
pub struct DirEntry {
    pub name: String,
    pub is_dir: bool,
}

pub struct DirEntryView {
    pub name: Seq<char>,
    pub is_dir: bool,
}

impl View for DirEntry {
    type V = DirEntryView;

    open spec fn view(&self) -> DirEntryView {
        DirEntryView { name: self.name@, is_dir: self.is_dir }
    }
}

/// Lexicographic order of byte strings, from index `i` on.
pub open spec fn bytes_le_from(a: Seq<u8>, b: Seq<u8>, i: int) -> bool
    decreases a.len() - i,
{
    if i >= a.len() {
        true
    } else if i >= b.len() {
        false
    } else if a[i] != b[i] {
        a[i] < b[i]
    } else {
        bytes_le_from(a, b, i + 1)
    }
}

/// The order of names: that of their UTF-8 bytes.
pub open spec fn name_le(a: Seq<char>, b: Seq<char>) -> bool {
    bytes_le_from(encode_utf8(a), encode_utf8(b), 0)
}

/// The entries are in ascending order of name.
pub open spec fn sorted_by_name(s: Seq<DirEntryView>) -> bool {
    forall|i: int, j: int| 0 <= i < j < s.len() ==> name_le(s[i].name, s[j].name)
}

/// The entries that a listing contributes: all, or, when `hide_dots`,
/// those whose name does not start with a `.`.
pub open spec fn visible_entries(entries: Seq<DirEntryView>, hide_dots: bool) -> Seq<
    DirEntryView,
>
    decreases entries.len(),
{
    if entries.len() == 0 {
        entries
    } else {
        let r = visible_entries(entries.drop_last(), hide_dots);
        let e = entries.last();
        if hide_dots && e.name.len() > 0 && e.name[0] == '.' {
            r
        } else {
            r.push(e)
        }
    }
}

/// Compares names by their UTF-8 bytes.
pub fn compare_names(a: &DirEntry, b: &DirEntry) -> (r: std::cmp::Ordering)
    ensures
        (r == std::cmp::Ordering::Greater) == !name_le(a.name@, b.name@),
        (r == std::cmp::Ordering::Less) == !name_le(b.name@, a.name@),
        (r == std::cmp::Ordering::Equal) == (encode_utf8(a.name@) == encode_utf8(b.name@)),
{
    let x = a.name.as_str().as_bytes();
    let y = b.name.as_str().as_bytes();
    let mut i: usize = 0;
    while i < x.len()
        invariant
            x@ == encode_utf8(a.name@),
            y@ == encode_utf8(b.name@),
            i <= x.len(),
            i <= y.len(),
            forall|j: int| 0 <= j < i ==> x@[j] == y@[j],
            name_le(a.name@, b.name@) == bytes_le_from(x@, y@, i as int),
            name_le(b.name@, a.name@) == bytes_le_from(y@, x@, i as int),
        decreases x.len() - i,
    {
        if i >= y.len() {
            assert(x@ != y@);
            return std::cmp::Ordering::Greater;
        }
        if x[i] != y[i] {
            assert(x@[i as int] != y@[i as int]);
            if x[i] < y[i] {
                return std::cmp::Ordering::Less;
            } else {
                return std::cmp::Ordering::Greater;
            }
        }
        i = i + 1;
    }
    if i < y.len() {
        assert(x@.len() != y@.len());
        std::cmp::Ordering::Less
    } else {
        assert(x@ =~= y@);
        std::cmp::Ordering::Equal
    }
}

/// Relies on `slice::sort_by`: the entries come out as a permutation of
/// what went in, ordered by `compare_names`, a total order.
#[verifier::external_body]
pub(crate) fn sort_by_name(v: &mut Vec<DirEntry>)
    ensures
        final(v)@.map_values(|e: DirEntry| e@).to_multiset() == old(v)@.map_values(
            |e: DirEntry| e@,
        ).to_multiset(),
        sorted_by_name(final(v)@.map_values(|e: DirEntry| e@)),
{
    v.sort_by(|a, b| compare_names(a, b));
}

} // verus!
