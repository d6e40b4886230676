use advice_provider::errors::{ExecutionError, MerkleError};
use advice_provider::felt::Felt;
use advice_provider::kv::KvMap;
use advice_provider::merkle::{MerkleStore, StoreNode};
use advice_provider::node_index::NodeIndex;
use advice_provider::provider::{
    AdviceInputs, AdviceProvider, MemAdviceProvider, SimpleMerkleMap,
};
use advice_provider::word::Word;

fn felt(v: u64) -> Felt {
    Felt::new(v)
}

fn word(a: u64, b: u64, c: u64, d: u64) -> Word {
    Word(felt(a), felt(b), felt(c), felt(d))
}

fn node(l: Word, r: Word) -> StoreNode {
    StoreNode { left: l, right: r }
}

/// A two-level seed: two inner nodes over four leaves; the composite
/// root is built by merging them, so its digest is the real hash.
fn seeded_store() -> (MerkleStore<SimpleMerkleMap>, Word, Word, Word) {
    let a = word(100, 0, 0, 1);
    let b = word(100, 0, 0, 2);
    let mut store: MerkleStore<SimpleMerkleMap> = MerkleStore::empty();
    store.load_node(a, node(word(1, 0, 0, 0), word(2, 0, 0, 0)));
    store.load_node(b, node(word(3, 0, 0, 0), word(4, 0, 0, 0)));
    let root = store.merge_roots(a, b).unwrap();
    (store, root, a, b)
}

#[test]
fn test_merge_roots_then_get_children() {
    let (mut store, root, a, b) = seeded_store();
    let idx0 = NodeIndex::new(1, 0).unwrap();
    let idx1 = NodeIndex::new(1, 1).unwrap();
    assert_eq!(store.get_node(root, idx0).unwrap(), a);
    assert_eq!(store.get_node(root, idx1).unwrap(), b);
    assert_eq!(store.get_path(root, idx0).unwrap(), vec![b]);
    assert_eq!(store.get_path(root, idx1).unwrap(), vec![a]);
}

#[test]
fn test_get_node_walks_to_leaves() {
    let (mut store, root, _a, _b) = seeded_store();
    let leaves = [
        word(1, 0, 0, 0),
        word(2, 0, 0, 0),
        word(3, 0, 0, 0),
        word(4, 0, 0, 0),
    ];
    for (i, leaf) in leaves.iter().enumerate() {
        let idx = NodeIndex::new(2, i as u64).unwrap();
        assert_eq!(store.get_node(root, idx).unwrap(), *leaf);
    }
}

#[test]
fn test_walk_below_leaves_fails_with_node_not_in_store() {
    let (mut store, root, _a, _b) = seeded_store();
    // one level below the seeded leaves the walk dereferences a leaf
    // digest that keys no node
    let idx = NodeIndex::new(3, 0).unwrap();
    assert_eq!(
        store.get_node(root, idx),
        Err(MerkleError::NodeNotInStore(word(1, 0, 0, 0)))
    );
}

#[test]
fn test_merge_roots_unknown_root_fails() {
    let (mut store, _root, a, _b) = seeded_store();
    let ghost_root = word(42, 42, 42, 42);
    assert_eq!(
        store.merge_roots(ghost_root, a),
        Err(MerkleError::RootNotInStore(ghost_root))
    );
    assert_eq!(
        store.merge_roots(a, ghost_root),
        Err(MerkleError::RootNotInStore(ghost_root))
    );
}

#[test]
fn test_set_node_then_get_node() {
    let (mut store, root, _a, b) = seeded_store();
    let v = word(77, 0, 0, 77);
    let idx = NodeIndex::new(2, 1).unwrap();
    let (new_root, path) = store.set_node(root, idx, v).unwrap();
    // the written value is readable under the new root
    assert_eq!(store.get_node(new_root, idx).unwrap(), v);
    // the sibling path has one digest per level and is the old path
    assert_eq!(path.len(), 2);
    assert_eq!(path[0], word(1, 0, 0, 0));
    assert_eq!(path[1], b);
    // untouched positions keep their value under the new root
    let idx0 = NodeIndex::new(2, 0).unwrap();
    assert_eq!(store.get_node(new_root, idx0).unwrap(), word(1, 0, 0, 0));
    let idx3 = NodeIndex::new(2, 3).unwrap();
    assert_eq!(store.get_node(new_root, idx3).unwrap(), word(4, 0, 0, 0));
    // structural sharing: the old root still resolves as before
    assert_eq!(store.get_node(root, idx).unwrap(), word(2, 0, 0, 0));
}

#[test]
fn test_set_node_unknown_root_fails() {
    let (mut store, _root, _a, _b) = seeded_store();
    let ghost_root = word(8, 8, 8, 8);
    let idx = NodeIndex::new(1, 0).unwrap();
    assert_eq!(
        store.set_node(ghost_root, idx, word(1, 1, 1, 1)),
        Err(MerkleError::RootNotInStore(ghost_root))
    );
}

#[test]
fn test_get_leaf_depth_variably_pruned() {
    let (mut store, root, _a, _b) = seeded_store();
    // walking below the seeded leaves meets a leaf at depth 2
    assert_eq!(store.get_leaf_depth(root, 4, 0).unwrap(), 2);
    // at the depth bound itself the node counts as a leaf
    assert_eq!(store.get_leaf_depth(root, 2, 3).unwrap(), 2);
    assert_eq!(store.get_leaf_depth(root, 1, 1).unwrap(), 1);
    assert_eq!(store.get_leaf_depth(root, 0, 0).unwrap(), 0);
    assert_eq!(
        store.get_leaf_depth(root, 65, 0),
        Err(MerkleError::DepthTooBig(65))
    );
    let ghost_root = word(6, 6, 6, 6);
    assert_eq!(
        store.get_leaf_depth(ghost_root, 2, 0),
        Err(MerkleError::RootNotInStore(ghost_root))
    );
}

#[test]
fn test_merge_digest_depends_on_both_children() {
    let a = word(100, 0, 0, 1);
    let b = word(100, 0, 0, 2);
    let c = word(100, 0, 0, 3);
    let mut store: MerkleStore<SimpleMerkleMap> = MerkleStore::empty();
    for k in [a, b, c] {
        store.load_node(k, node(word(1, 0, 0, 0), word(2, 0, 0, 0)));
    }
    let r_ab = store.merge_roots(a, b).unwrap();
    let r_ac = store.merge_roots(a, c).unwrap();
    let r_ba = store.merge_roots(b, a).unwrap();
    let r_ca = store.merge_roots(c, a).unwrap();
    // a digest that ignored its right child would collapse these
    assert_ne!(r_ab, r_ac);
    // a digest that ignored its left child would collapse these
    assert_ne!(r_ba, r_ca);
    // the digest is not either child passed through
    assert_ne!(r_ab, a);
    assert_ne!(r_ab, b);
}

#[test]
fn test_store_has_root_and_kv_contains() {
    let (store, root, a, _b) = seeded_store();
    assert!(store.has_root(&root));
    assert!(store.has_root(&a));
    assert!(!store.has_root(&word(5, 5, 5, 5)));
    let backing = store.into_inner();
    assert!(backing.contains(&root));
    assert!(!backing.contains(&word(5, 5, 5, 5)));
}

#[test]
fn test_invalid_tree_node_index() {
    // a (depth, index) pair must be validated before any store access:
    // depth 255 exceeds the fixed maximum even with index 0
    let inputs = AdviceInputs::new_empty();
    let mut p = MemAdviceProvider::from_inputs(inputs);
    let root = word(1, 1, 1, 1);
    assert_eq!(
        p.get_tree_node(root, &felt(255), &felt(0)),
        Err(ExecutionError::InvalidTreeNodeIndex { depth: felt(255), value: felt(0) })
    );
    // an index too large for its depth is rejected the same way
    assert_eq!(
        p.get_tree_node(root, &felt(2), &felt(4)),
        Err(ExecutionError::InvalidTreeNodeIndex { depth: felt(2), value: felt(4) })
    );
    // a depth that does not fit a byte fails leaf-depth lookups
    assert_eq!(
        p.get_leaf_depth(root, &felt(256), &felt(0)),
        Err(ExecutionError::InvalidTreeDepth { depth: felt(256) })
    );
}

#[test]
fn test_provider_merkle_operations() {
    let a = word(100, 0, 0, 1);
    let b = word(100, 0, 0, 2);
    let inputs = AdviceInputs::new_empty().with_merkle_store(vec![
        (a, node(word(1, 0, 0, 0), word(2, 0, 0, 0))),
        (b, node(word(3, 0, 0, 0), word(4, 0, 0, 0))),
    ]);
    let mut p = MemAdviceProvider::from_inputs(inputs);
    assert!(p.has_merkle_root(a));
    assert!(!p.has_merkle_root(word(3, 3, 3, 3)));
    let root = p.merge_roots(a, b).unwrap();
    assert!(p.has_merkle_root(root));
    assert_eq!(p.get_tree_node(root, &felt(1), &felt(0)).unwrap(), a);
    assert_eq!(p.get_tree_node(root, &felt(1), &felt(1)).unwrap(), b);
    assert_eq!(p.get_merkle_path(root, &felt(2), &felt(0)).unwrap(), vec![
        word(2, 0, 0, 0),
        b,
    ]);
    assert_eq!(p.get_leaf_depth(root, &felt(2), &felt(0)).unwrap(), 2);
    // update a leaf through the provider: the returned path is the old
    // sibling path of the updated position
    let path = p.update_merkle_node(root, &felt(2), &felt(0), word(9, 0, 0, 9)).unwrap();
    assert_eq!(path, vec![word(2, 0, 0, 0), b]);
    // unknown roots fail with the store's own error
    let ghost_root = word(4, 4, 4, 4);
    assert_eq!(
        p.merge_roots(ghost_root, a),
        Err(ExecutionError::MerkleStoreMergeFailed(MerkleError::RootNotInStore(ghost_root)))
    );
    assert_eq!(
        p.get_tree_node(ghost_root, &felt(1), &felt(0)),
        Err(ExecutionError::MerkleStoreLookupFailed(MerkleError::RootNotInStore(ghost_root)))
    );
    assert_eq!(
        p.update_merkle_node(ghost_root, &felt(1), &felt(0), a),
        Err(ExecutionError::MerkleStoreUpdateFailed(MerkleError::RootNotInStore(ghost_root)))
    );
}
