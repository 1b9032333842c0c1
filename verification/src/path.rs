//! Node paths: slash-delimited, rooted at `/`.

use vstd::prelude::*;
use vstd::string::*;

verus! {

/// The path of the child `child` under `parent`: the root `/` is followed by
/// the segment directly, any other parent by a slash and the segment.
pub open spec fn joined(parent: Seq<char>, child: Seq<char>) -> Seq<char> {
    if parent == seq!['/'] {
        parent + child
    } else {
        parent + seq!['/'] + child
    }
}

/// The paths of the children `names` under `parent`, in the order given.
pub open spec fn joined_all(parent: Seq<char>, names: Seq<Seq<char>>) -> Seq<Seq<char>> {
    Seq::new(names.len(), |i: int| joined(parent, names[i]))
}

/// Whether two string slices hold the same text.
pub fn same_text(a: &str, b: &str) -> (same: bool)
    ensures
        same == (a@ == b@),
{
    let left = String::from_str(a);
    let right = String::from_str(b);
    left.eq(&right)
}

/// Whether `path` is the root node `/`.
pub fn is_root(path: &str) -> (root: bool)
    ensures
        root == (path@ == seq!['/']),
{
    proof {
        reveal_strlit("/");
    }
    assert("/"@ =~= seq!['/']);
    same_text(path, "/")
}

/// Joins a parent path with one child segment.
pub fn join_path(parent: &str, child: &str) -> (path: String)
    ensures
        path@ == joined(parent@, child@),
{
    proof {
        reveal_strlit("/");
    }
    let mut path = String::from_str(parent);
    if !is_root(parent) {
        path.append("/");
    }
    path.append(child);
    path
}

} // verus!
