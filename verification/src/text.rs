//! Tag paths: ordered segments from the root to a tag.

use vstd::prelude::*;

verus! {

/// A path as the sequence of its segments' characters.
pub open spec fn path_view(p: Seq<String>) -> Seq<Seq<char>> {
    Seq::new(p.len(), |i: int| p[i]@)
}

/// A path that a tag may carry: at least one segment, none of them empty.
pub open spec fn valid_path(p: Seq<Seq<char>>) -> bool {
    &&& p.len() > 0
    &&& forall|i: int| 0 <= i < p.len() ==> (#[trigger] p[i]).len() > 0
}

/// `child` is `parent` with exactly one more segment.
pub open spec fn is_child_path(child: Seq<Seq<char>>, parent: Seq<Seq<char>>) -> bool {
    &&& child.len() == parent.len() + 1
    &&& child.take(parent.len() as int) == parent
}

/// `p` lies at or below `root`.
pub open spec fn is_under(p: Seq<Seq<char>>, root: Seq<Seq<char>>) -> bool {
    &&& root.len() <= p.len()
    &&& p.take(root.len() as int) == root
}

pub fn clone_path(p: &Vec<String>) -> (r: Vec<String>)
    ensures
        path_view(r@) == path_view(p@),
{
    let mut r: Vec<String> = Vec::new();
    let mut i: usize = 0;
    while i < p.len()
        invariant
            i <= p@.len(),
            r@.len() == i,
            forall|j: int| 0 <= j < i ==> r@[j]@ == p@[j]@,
        decreases p@.len() - i,
    {
        r.push(p[i].clone());
        i += 1;
    }
    assert(path_view(r@) =~= path_view(p@));
    r
}

/// The first `n` segments of `p`.
pub fn path_prefix(p: &Vec<String>, n: usize) -> (r: Vec<String>)
    requires
        n <= p@.len(),
    ensures
        path_view(r@) == path_view(p@).take(n as int),
{
    let mut r: Vec<String> = Vec::new();
    let mut i: usize = 0;
    while i < n
        invariant
            i <= n <= p@.len(),
            r@.len() == i,
            forall|j: int| 0 <= j < i ==> r@[j]@ == p@[j]@,
        decreases n - i,
    {
        r.push(p[i].clone());
        i += 1;
    }
    assert(path_view(r@) =~= path_view(p@).take(n as int));
    r
}

/// Whether the first `n` segments of `a` are those of `b`.
fn segments_agree(a: &Vec<String>, b: &Vec<String>, n: usize) -> (r: bool)
    requires
        n <= a@.len(),
        n <= b@.len(),
    ensures
        r == (path_view(a@).take(n as int) == path_view(b@).take(n as int)),
{
    let mut i: usize = 0;
    while i < n
        invariant
            i <= n,
            n <= a@.len(),
            n <= b@.len(),
            forall|j: int| 0 <= j < i ==> a@[j]@ == b@[j]@,
        decreases n - i,
    {
        if !(a[i] == b[i]) {
            assert(path_view(a@).take(n as int)[i as int] == a@[i as int]@);
            assert(path_view(b@).take(n as int)[i as int] == b@[i as int]@);
            return false;
        }
        i += 1;
    }
    assert(path_view(a@).take(n as int) =~= path_view(b@).take(n as int));
    true
}

pub fn path_eq(a: &Vec<String>, b: &Vec<String>) -> (r: bool)
    ensures
        r == (path_view(a@) == path_view(b@)),
{
    if a.len() != b.len() {
        assert(path_view(a@).len() != path_view(b@).len());
        return false;
    }
    let r = segments_agree(a, b, a.len());
    assert(path_view(a@).take(a@.len() as int) =~= path_view(a@));
    assert(path_view(b@).take(b@.len() as int) =~= path_view(b@));
    r
}

pub fn path_is_child(child: &Vec<String>, parent: &Vec<String>) -> (r: bool)
    ensures
        r == is_child_path(path_view(child@), path_view(parent@)),
{
    assert(path_view(child@).len() == child@.len());
    assert(path_view(parent@).len() == parent@.len());
    let child_len: usize = child.len();
    let parent_len: usize = parent.len();
    if parent_len == usize::MAX || child_len != parent_len + 1 {
        return false;
    }
    let r = segments_agree(child, parent, parent.len());
    assert(path_view(parent@).take(parent@.len() as int) =~= path_view(parent@));
    r
}

pub fn path_is_under(p: &Vec<String>, root: &Vec<String>) -> (r: bool)
    ensures
        r == is_under(path_view(p@), path_view(root@)),
{
    assert(path_view(p@).len() == p@.len());
    assert(path_view(root@).len() == root@.len());
    if p.len() < root.len() {
        return false;
    }
    let r = segments_agree(p, root, root.len());
    assert(path_view(root@).take(root@.len() as int) =~= path_view(root@));
    r
}

pub fn path_is_valid(p: &Vec<String>) -> (r: bool)
    ensures
        r == valid_path(path_view(p@)),
{
    if p.len() == 0 {
        return false;
    }
    let mut i: usize = 0;
    while i < p.len()
        invariant
            i <= p@.len(),
            forall|j: int| 0 <= j < i ==> (#[trigger] path_view(p@)[j]).len() > 0,
        decreases p@.len() - i,
    {
        if p[i].as_str().is_empty() {
            assert(path_view(p@)[i as int].len() == 0);
            return false;
        }
        i += 1;
    }
    true
}

} // verus!
