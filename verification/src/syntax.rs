//! The plain model of a concrete syntax tree: its nodes in pre-order, each
//! with its kind, namedness, depth and source position. Subtrees are
//! contiguous runs of entries whose depths stay above the root entry's.

use vstd::prelude::*;

verus! {

/// One node of a syntax tree, in the pre-order listing of the whole tree.
/// `depth` is the distance from the tree root; a node's subtree is the run
/// of entries after it whose depths are greater than its own.
#[derive(Clone, Debug)]
pub struct FlatNode {
    pub kind: String,
    pub named: bool,
    pub depth: usize,
    pub start_byte: usize,
    pub end_byte: usize,
    pub start_row: usize,
    pub end_row: usize,
}

/// One captured node of a query match: the capture's name and the node's
/// kind and position.
#[derive(Clone, Debug)]
pub struct RawCapture {
    pub name: String,
    pub kind: String,
    pub start_byte: usize,
    pub end_byte: usize,
    pub start_row: usize,
    pub end_row: usize,
}

/// One query match: its captures in declaration order.
#[derive(Clone, Debug)]
pub struct RawMatch {
    pub captures: Vec<RawCapture>,
}

/// The end (exclusive) of the subtree rooted at `i`: the first later index
/// whose depth does not exceed `nodes[i].depth`.
pub open spec fn spec_subtree_end(nodes: Seq<FlatNode>, i: int, j: int) -> int
    decreases nodes.len() - j,
{
    if j < 0 || j >= nodes.len() {
        nodes.len() as int
    } else if nodes[j].depth <= nodes[i].depth {
        j
    } else {
        spec_subtree_end(nodes, i, j + 1)
    }
}

/// The first index past the subtree rooted at `i`.
pub fn subtree_end(nodes: &Vec<FlatNode>, i: usize) -> (r: usize)
    requires
        i < nodes@.len(),
    ensures
        r == spec_subtree_end(nodes@, i as int, i + 1),
        i < r <= nodes@.len(),
        forall|m: int| i < m < r ==> (#[trigger] nodes@[m]).depth > nodes@[i as int].depth,
{
    let n = nodes.len();
    let mut j: usize = i + 1;
    while j < nodes.len()
        invariant
            i < j <= nodes@.len(),
            spec_subtree_end(nodes@, i as int, i + 1) == spec_subtree_end(nodes@, i as int, j as int),
            forall|m: int| i < m < j ==> (#[trigger] nodes@[m]).depth > nodes@[i as int].depth,
        decreases nodes@.len() - j,
    {
        if nodes[j].depth <= nodes[i].depth {
            return j;
        }
        j = j + 1;
    }
    j
}

} // verus!
