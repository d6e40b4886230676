use vstd::prelude::*;
use crate::felt::Felt;
use crate::word::Word;

verus! {

/// An error raised by the Merkle store itself: the requested root or an
/// inner node is missing, or a depth or index is out of range.
#[derive(Clone, Copy, Debug, PartialEq, Eq, Structural)]
pub enum MerkleError {
    /// The word given as a tree root keys no node in the store.
    RootNotInStore(Word),
    /// An inner node needed to resolve the walk keys no node in the store.
    NodeNotInStore(Word),
    /// A tree depth beyond the fixed maximum the store supports.
    DepthTooBig(u64),
}

/// The closed error taxonomy of the advice provider. Every provider
/// operation returns a result; none panics on ordinary bad input, and every
/// error carries enough context to diagnose the failing execution step.
#[derive(Clone, Copy, Debug, PartialEq, Eq, Structural)]
pub enum ExecutionError {
    /// A pop was attempted on an empty or too-short advice stack; carries
    /// the step count at which it happened.
    AdviceStackReadFailed(u32),
    /// A map-reference push named a key with no stored value.
    AdviceKeyNotFound(Word),
    /// A malformed (depth, index) pair was supplied to a Merkle operation.
    InvalidTreeNodeIndex { depth: Felt, value: Felt },
    /// A tree depth that does not fit a single byte.
    InvalidTreeDepth { depth: Felt },
    /// The Merkle store rejected a node or path lookup.
    MerkleStoreLookupFailed(MerkleError),
    /// The Merkle store rejected a node update.
    MerkleStoreUpdateFailed(MerkleError),
    /// The Merkle store rejected a root merge.
    MerkleStoreMergeFailed(MerkleError),
}

} // verus!
