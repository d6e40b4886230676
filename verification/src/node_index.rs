use vstd::prelude::*;
use crate::felt::Felt;

verus! {

/// The deepest tree position the store supports.
pub const MAX_TREE_DEPTH: u8 = 64;

/// True when `value` addresses a position inside a binary tree of the
/// given depth: the depth stays within the fixed maximum and the index
/// stays below two to the depth.
pub open spec fn index_valid(depth: u8, value: u64) -> bool {
    depth <= MAX_TREE_DEPTH && (depth == MAX_TREE_DEPTH || (value >> (depth as u64)) == 0)
}

/// A location in a binary Merkle tree: a depth below the root, and a
/// position among the nodes of that depth.
#[derive(Clone, Copy, Debug, PartialEq, Eq, Structural)]
pub struct NodeIndex {
    pub depth: u8,
    pub value: u64,
}

impl NodeIndex {
    /// Builds an index after checking it is in range for its depth.
    pub fn new(depth: u8, value: u64) -> (r: Option<NodeIndex>)
        ensures
            r == if index_valid(depth, value) {
                Some(NodeIndex { depth, value })
            } else {
                None::<NodeIndex>
            },
    {
        if depth <= MAX_TREE_DEPTH && (depth == MAX_TREE_DEPTH || (value >> (depth as u64))
            == 0) {
            Some(NodeIndex { depth, value })
        } else {
            None
        }
    }

    /// Converts a (depth, index) pair of field elements, as supplied by the
    /// executing processor, into a checked index: the depth must fit a byte
    /// and stay within the fixed maximum, and the index must fit the depth.
    pub fn from_elements(depth: &Felt, value: &Felt) -> (r: Option<NodeIndex>)
        ensures
            r == if depth.value <= MAX_TREE_DEPTH as u64 && index_valid(
                depth.value as u8,
                value.value,
            ) {
                Some(NodeIndex { depth: depth.value as u8, value: value.value })
            } else {
                None::<NodeIndex>
            },
    {
        if depth.value > MAX_TREE_DEPTH as u64 {
            None
        } else {
            NodeIndex::new(depth.value as u8, value.value)
        }
    }

    /// The root position: depth zero, index zero.
    pub fn root() -> (r: NodeIndex)
        ensures
            r == (NodeIndex { depth: 0u8, value: 0u64 }),
    {
        NodeIndex { depth: 0, value: 0 }
    }
}

} // verus!
