//! Keeping a patch inside the package it is meant for.
//!
//! A diff names the file it changes, and that name may hold `..` or lead
//! through a link.  Before a file is touched its path is resolved, and the
//! resolved path must lie in the staged copy of the package.  Paths are
//! compared component by component, so `/stage/pkg-extra` does not lie in
//! `/stage/pkg`.

use crate::directive::texts;
use vstd::prelude::*;

verus! {

/// The path `target` is `root` or lies below it: the components of `root`
/// are the first components of `target`.
pub open spec fn lies_within(root: Seq<Seq<char>>, target: Seq<Seq<char>>) -> bool {
    root.is_prefix_of(target)
}

/// Whether the resolved path `target`, given by its components, is the
/// staged root `root` or lies below it.
pub fn is_contained(root: &Vec<String>, target: &Vec<String>) -> (contained: bool)
    ensures
        contained == lies_within(texts(root@), texts(target@)),
{
    if root.len() > target.len() {
        return false;
    }
    let ghost head = texts(target@).subrange(0, root@.len() as int);
    let mut i: usize = 0;
    while i < root.len()
        invariant
            i <= root@.len() <= target@.len(),
            head == texts(target@).subrange(0, root@.len() as int),
            forall|j: int| 0 <= j < i ==> texts(root@)[j] == head[j],
        decreases root@.len() - i,
    {
        if root[i] != target[i] {
            assert(texts(root@)[i as int] != head[i as int]);
            return false;
        }
        i = i + 1;
    }
    true
}

} // verus!
