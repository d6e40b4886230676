use vstd::prelude::*;
use crate::felt::Felt;
use crate::word::Word;
use crate::errors::MerkleError;
use crate::node_index::NodeIndex;
use crate::kv::{record_read, KvKey, KvMap, KvVal};
use miden_core::Felt as CoreFelt;
use miden_core::Word as CoreWord;
use miden_core::crypto::hash::Rpo256;

verus! {

/// An inner node of a Merkle tree: the digests of its two children.
#[derive(Clone, Copy, Debug, PartialEq, Eq, Structural)]
pub struct StoreNode {
    pub left: Word,
    pub right: Word,
}

impl View for Word {
    type V = Word;

    open spec fn view(&self) -> Word {
        *self
    }
}

impl View for StoreNode {
    type V = StoreNode;

    open spec fn view(&self) -> StoreNode {
        *self
    }
}

impl KvKey for Word {
    fn key_eq(&self, other: &Self) -> (b: bool) {
        *self == *other
    }

    fn key_dup(&self) -> (r: Self) {
        *self
    }
}

impl KvVal for StoreNode {
    fn val_dup(&self) -> (r: Self) {
        *self
    }
}

/// The digest of a Merkle node with the two given child digests.
pub uninterp spec fn rpo_merge(left: Word, right: Word) -> Word;

/// Relies on miden_core's Rpo256::merge: the digest of two child digests
/// depends on the two children alone, so equal children always give the
/// same parent digest.
#[verifier::external_body]
fn merge_digests(l: &Word, r: &Word) -> (d: Word)
    ensures
        d == rpo_merge(*l, *r),
{
    let a = CoreWord::new([CoreFelt::new(l.0.value), CoreFelt::new(l.1.value),
        CoreFelt::new(l.2.value), CoreFelt::new(l.3.value)]);
    let b = CoreWord::new([CoreFelt::new(r.0.value), CoreFelt::new(r.1.value),
        CoreFelt::new(r.2.value), CoreFelt::new(r.3.value)]);
    let e = Rpo256::merge(&[a, b]);
    let e = e.as_elements();
    Word(Felt { value: e[0].as_int() }, Felt { value: e[1].as_int() },
        Felt { value: e[2].as_int() }, Felt { value: e[3].as_int() })
}

/// True when the walk at the given depth turns toward the right child:
/// the walk follows the index's bits from the most significant relevant
/// bit down, so at depth `d` (counting remaining steps) it reads bit
/// `d - 1`. Bits above the depth are ignored.
pub open spec fn go_right(depth: u8, index: u64) -> bool
    recommends
        1 <= depth <= 64,
{
    (index >> ((depth - 1) as u64)) & 1 == 1
}

/// The child digest the walk steps to from `node`.
pub open spec fn walk_child(m: Map<Word, StoreNode>, node: Word, depth: u8, index: u64) -> Word
    recommends
        m.contains_key(node),
        1 <= depth <= 64,
{
    if go_right(depth, index) {
        m[node].right
    } else {
        m[node].left
    }
}

/// The result of walking `depth` steps from `node` toward `index`: the
/// digest found there, together with the sibling digests passed on the
/// way, deepest sibling first. The walk fails on the first inner node
/// the store does not hold.
pub open spec fn lookup(m: Map<Word, StoreNode>, node: Word, depth: u8, index: u64) -> Result<
    (Word, Seq<Word>),
    MerkleError,
>
    decreases depth,
{
    if depth == 0 {
        Ok((node, Seq::empty()))
    } else if !m.contains_key(node) {
        Err(MerkleError::NodeNotInStore(node))
    } else {
        let sib = if go_right(depth, index) {
            m[node].left
        } else {
            m[node].right
        };
        match lookup(m, walk_child(m, node, depth, index), (depth - 1) as u8, index) {
            Ok((v, p)) => Ok((v, p.push(sib))),
            Err(e) => Err(e),
        }
    }
}

/// The walk of `lookup`, demanded of a known root: a missing root is its
/// own error, checked before the walk starts.
pub open spec fn node_at(m: Map<Word, StoreNode>, root: Word, depth: u8, index: u64) -> Result<
    (Word, Seq<Word>),
    MerkleError,
> {
    if !m.contains_key(root) {
        Err(MerkleError::RootNotInStore(root))
    } else {
        lookup(m, root, depth, index)
    }
}

/// The inner nodes a successful or failed walk dereferences. Only nodes
/// the store holds are ever dereferenced, so the set is always a subset
/// of the store's keys.
pub open spec fn visited(m: Map<Word, StoreNode>, node: Word, depth: u8, index: u64) -> Set<Word>
    decreases depth,
{
    if depth == 0 {
        Set::empty()
    } else if !m.contains_key(node) {
        Set::empty()
    } else {
        visited(m, walk_child(m, node, depth, index), (depth - 1) as u8, index).insert(node)
    }
}

/// The accessed set after a recording backend serves the reads of a walk.
pub open spec fn record_walk(
    m: Map<Word, StoreNode>,
    node: Word,
    depth: u8,
    index: u64,
    acc: Map<Word, StoreNode>,
) -> Map<Word, StoreNode>
    decreases depth,
{
    if depth == 0 {
        acc
    } else if !m.contains_key(node) {
        acc
    } else {
        record_walk(
            m,
            walk_child(m, node, depth, index),
            (depth - 1) as u8,
            index,
            record_read(m, node, acc),
        )
    }
}

/// The store contents after replacing the node `depth` steps below `node`
/// at position `index` with `value`: every node along the walk is
/// rewritten under its fresh digest, structurally sharing the untouched
/// siblings; the new digest of the walk's top node comes first in the
/// returned pair.
pub open spec fn set_spec(
    m: Map<Word, StoreNode>,
    node: Word,
    depth: u8,
    index: u64,
    value: Word,
) -> Result<(Word, Map<Word, StoreNode>), MerkleError>
    decreases depth,
{
    if depth == 0 {
        Ok((value, m))
    } else if !m.contains_key(node) {
        Err(MerkleError::NodeNotInStore(node))
    } else {
        match set_spec(m, walk_child(m, node, depth, index), (depth - 1) as u8, index, value) {
            Ok((c, m1)) => {
                let n = if go_right(depth, index) {
                    StoreNode { left: m[node].left, right: c }
                } else {
                    StoreNode { left: c, right: m[node].right }
                };
                let d = rpo_merge(n.left, n.right);
                Ok((d, m1.insert(d, n)))
            },
            Err(e) => Err(e),
        }
    }
}

/// `set_spec`, demanded of a known root.
pub open spec fn set_root_spec(
    m: Map<Word, StoreNode>,
    root: Word,
    depth: u8,
    index: u64,
    value: Word,
) -> Result<(Word, Map<Word, StoreNode>), MerkleError> {
    if !m.contains_key(root) {
        Err(MerkleError::RootNotInStore(root))
    } else {
        set_spec(m, root, depth, index, value)
    }
}

/// The depth of the first leaf met when walking from `node` for at most
/// `remaining` steps: a position the store holds no node for is a leaf,
/// and so is any position at the depth bound.
pub open spec fn leaf_depth_from(
    m: Map<Word, StoreNode>,
    node: Word,
    remaining: u8,
    index: u64,
) -> nat
    decreases remaining,
{
    if remaining == 0 {
        0
    } else if !m.contains_key(node) {
        0
    } else {
        1 + leaf_depth_from(m, walk_child(m, node, remaining, index), (remaining - 1) as u8, index)
    }
}

/// How a recording backend's accessed set may change under an operation:
/// it only grows, and every new entry is a pair the backing store holds.
pub open spec fn accessed_extends(
    before: Map<Word, StoreNode>,
    after: Map<Word, StoreNode>,
    m: Map<Word, StoreNode>,
) -> bool {
    &&& before.submap_of(after)
    &&& forall|k: Word| #[trigger]
        after.dom().contains(k) ==> before.dom().contains(k) || (m.dom().contains(k) && after[k]
            == m[k])
}

pub proof fn lemma_extends_refl(acc: Map<Word, StoreNode>, m: Map<Word, StoreNode>)
    ensures
        accessed_extends(acc, acc, m),
{
}

proof fn lemma_extends_step(acc: Map<Word, StoreNode>, k: Word, m: Map<Word, StoreNode>)
    ensures
        accessed_extends(acc, record_read(m, k, acc), m),
{
    if m.contains_key(k) && !acc.contains_key(k) {
        let after = acc.insert(k, m[k]);
        assert forall|j: Word| #[trigger]
            acc.dom().contains(j) implies after.dom().contains(j) && acc[j] == after[j] by {
            assert(j != k);
        }
        assert(acc.submap_of(after));
    }
}

proof fn lemma_extends_trans(
    a: Map<Word, StoreNode>,
    b: Map<Word, StoreNode>,
    c: Map<Word, StoreNode>,
    m: Map<Word, StoreNode>,
)
    requires
        accessed_extends(a, b, m),
        accessed_extends(b, c, m),
    ensures
        accessed_extends(a, c, m),
{
    assert forall|k: Word| #[trigger]
        a.dom().contains(k) implies c.dom().contains(k) && a[k] == c[k] by {
        assert(b.dom().contains(k) && a[k] == b[k]);
        assert(c.dom().contains(k) && b[k] == c[k]);
    }
    assert(a.submap_of(c));
    assert forall|k: Word| #[trigger]
        c.dom().contains(k) implies a.dom().contains(k) || (m.dom().contains(k) && c[k] == m[k])
        by {
        if b.dom().contains(k) {
            assert(c[k] == b[k]);
            if !a.dom().contains(k) {
                assert(m.dom().contains(k) && b[k] == m[k]);
            }
        }
    }
}

fn walk_get<S: KvMap<Word, StoreNode>>(nodes: &mut S, node: Word, depth: u8, index: u64) -> (r:
    Result<(Word, Vec<Word>), MerkleError>)
    requires
        depth <= 64,
    ensures
        final(nodes).contents() == old(nodes).contents(),
        lookup(old(nodes).contents(), node, depth, index) == (match r {
            Ok((v, p)) => Ok::<(Word, Seq<Word>), MerkleError>((v, p@)),
            Err(e) => Err::<(Word, Seq<Word>), MerkleError>(e),
        }),
        S::recording() ==> final(nodes).accessed() == record_walk(
            old(nodes).contents(),
            node,
            depth,
            index,
            old(nodes).accessed(),
        ),
        !S::recording() ==> final(nodes).accessed() == old(nodes).accessed(),
    decreases depth,
{
    if depth == 0 {
        let p: Vec<Word> = Vec::new();
        proof {
            assert(p@ =~= Seq::<Word>::empty());
        }
        return Ok((node, p));
    }
    let got = nodes.get(&node);
    match got {
        None => Err(MerkleError::NodeNotInStore(node)),
        Some(n) => {
            let bit = (index >> ((depth - 1) as u64)) & 1;
            let (child, sib) = if bit == 1 {
                (n.right, n.left)
            } else {
                (n.left, n.right)
            };
            match walk_get(nodes, child, depth - 1, index) {
                Ok((v, p)) => {
                    let mut p = p;
                    p.push(sib);
                    Ok((v, p))
                },
                Err(e) => Err(e),
            }
        },
    }
}

fn set_rec<S: KvMap<Word, StoreNode>>(
    nodes: &mut S,
    node: Word,
    depth: u8,
    index: u64,
    value: Word,
) -> (r: Result<(Word, Vec<Word>), MerkleError>)
    requires
        depth <= 64,
    ensures
        (match r {
            Ok((nr, p)) => {
                &&& set_spec(old(nodes).contents(), node, depth, index, value) == Ok::<
                    (Word, Map<Word, StoreNode>),
                    MerkleError,
                >((nr, final(nodes).contents()))
                &&& (match lookup(old(nodes).contents(), node, depth, index) {
                    Ok((v0, p0)) => p@ == p0,
                    Err(_) => false,
                })
            },
            Err(e) => {
                &&& set_spec(old(nodes).contents(), node, depth, index, value) == Err::<
                    (Word, Map<Word, StoreNode>),
                    MerkleError,
                >(e)
                &&& final(nodes).contents() == old(nodes).contents()
            },
        }),
        S::recording() ==> final(nodes).accessed() == record_walk(
            old(nodes).contents(),
            node,
            depth,
            index,
            old(nodes).accessed(),
        ),
        !S::recording() ==> final(nodes).accessed() == old(nodes).accessed(),
    decreases depth,
{
    if depth == 0 {
        let p: Vec<Word> = Vec::new();
        proof {
            assert(p@ =~= Seq::<Word>::empty());
        }
        return Ok((value, p));
    }
    let got = nodes.get(&node);
    match got {
        None => Err(MerkleError::NodeNotInStore(node)),
        Some(n) => {
            let bit = (index >> ((depth - 1) as u64)) & 1;
            let (child, sib) = if bit == 1 {
                (n.right, n.left)
            } else {
                (n.left, n.right)
            };
            match set_rec(nodes, child, depth - 1, index, value) {
                Ok((c, p)) => {
                    let nn = if bit == 1 {
                        StoreNode { left: sib, right: c }
                    } else {
                        StoreNode { left: c, right: sib }
                    };
                    let d = merge_digests(&nn.left, &nn.right);
                    nodes.insert(d, nn);
                    let mut p = p;
                    p.push(sib);
                    Ok((d, p))
                },
                Err(e) => Err(e),
            }
        },
    }
}

fn leaf_rec<S: KvMap<Word, StoreNode>>(nodes: &mut S, node: Word, remaining: u8, index: u64) -> (r:
    u8)
    requires
        remaining <= 64,
    ensures
        final(nodes).contents() == old(nodes).contents(),
        r as nat == leaf_depth_from(old(nodes).contents(), node, remaining, index),
        r <= remaining,
        S::recording() ==> accessed_extends(
            old(nodes).accessed(),
            final(nodes).accessed(),
            old(nodes).contents(),
        ),
        !S::recording() ==> final(nodes).accessed() == old(nodes).accessed(),
    decreases remaining,
{
    if remaining == 0 {
        return 0;
    }
    let ghost m = nodes.contents();
    let ghost acc0 = nodes.accessed();
    let got = nodes.get(&node);
    let ghost acc1 = nodes.accessed();
    match got {
        None => {
            proof {
                if S::recording() {
                    lemma_extends_refl(acc0, m);
                }
            }
            0
        },
        Some(n) => {
            let bit = (index >> ((remaining - 1) as u64)) & 1;
            let child = if bit == 1 {
                n.right
            } else {
                n.left
            };
            proof {
                if S::recording() {
                    assert(acc1 == record_read(m, node, acc0));
                    lemma_extends_step(acc0, node, m);
                }
            }
            let below = leaf_rec(nodes, child, remaining - 1, index);
            proof {
                if S::recording() {
                    lemma_extends_trans(acc0, acc1, nodes.accessed(), m);
                }
            }
            1 + below
        },
    }
}

/// A deduplicated forest of Merkle trees: nodes are stored once, keyed by
/// their own digest, and any number of logical roots may reference
/// overlapping subtrees. Nodes the store writes itself are always keyed
/// by the digest of their children; seeded nodes are taken on the
/// caller's word. Storage is the plain or the recording key-value
/// backend, chosen at construction.
pub struct MerkleStore<S: KvMap<Word, StoreNode>> {
    nodes: S,
}

impl<S: KvMap<Word, StoreNode>> MerkleStore<S> {
    /// The node table: each held digest mapped to its children.
    pub closed spec fn contents(&self) -> Map<Word, StoreNode> {
        self.nodes.contents()
    }

    /// The nodes a recording backend has seen a read of.
    pub closed spec fn accessed(&self) -> Map<Word, StoreNode> {
        self.nodes.accessed()
    }

    /// Builds a store with no nodes.
    pub fn empty() -> (r: Self)
        ensures
            r.contents() == Map::<Word, StoreNode>::empty(),
            r.accessed() == Map::<Word, StoreNode>::empty(),
    {
        MerkleStore { nodes: S::empty_map() }
    }

    /// Seeds one node under the digest the caller claims for it.
    pub fn load_node(&mut self, key: Word, node: StoreNode)
        ensures
            final(self).contents() == old(self).contents().insert(key, node),
            final(self).accessed() == old(self).accessed(),
    {
        self.nodes.insert(key, node);
    }

    /// Consumes the store and returns its storage backend.
    pub fn into_inner(self) -> (r: S)
        ensures
            r.contents() == self.contents(),
            r.accessed() == self.accessed(),
    {
        self.nodes
    }

    /// True when the store holds a node for this digest.
    pub fn has_root(&self, root: &Word) -> (b: bool)
        ensures
            b == self.contents().contains_key(*root),
    {
        self.nodes.contains(root)
    }

    /// Returns the digest of the node at `index` below `root`, walking
    /// the stored children; fails on an unknown root or on the first
    /// missing inner node.
    pub fn get_node(&mut self, root: Word, index: NodeIndex) -> (r: Result<Word, MerkleError>)
        requires
            index.depth <= 64,
        ensures
            final(self).contents() == old(self).contents(),
            r == (match node_at(old(self).contents(), root, index.depth, index.value) {
                Ok((v, p)) => Ok::<Word, MerkleError>(v),
                Err(e) => Err::<Word, MerkleError>(e),
            }),
            S::recording() ==> final(self).accessed() == record_walk(
                old(self).contents(),
                root,
                index.depth,
                index.value,
                record_read(old(self).contents(), root, old(self).accessed()),
            ),
            !S::recording() ==> final(self).accessed() == old(self).accessed(),
    {
        let pre = self.nodes.get(&root);
        if pre.is_none() {
            return Err(MerkleError::RootNotInStore(root));
        }
        match walk_get(&mut self.nodes, root, index.depth, index.value) {
            Ok((v, _p)) => Ok(v),
            Err(e) => Err(e),
        }
    }

    /// Returns the sibling digests from the node at `index` up to
    /// (excluding) `root`, deepest sibling first; fails as `get_node`
    /// does.
    pub fn get_path(&mut self, root: Word, index: NodeIndex) -> (r: Result<
        Vec<Word>,
        MerkleError,
    >)
        requires
            index.depth <= 64,
        ensures
            final(self).contents() == old(self).contents(),
            (match node_at(old(self).contents(), root, index.depth, index.value) {
                Ok((v, p)) => r is Ok && r->Ok_0@ == p,
                Err(e) => r == Err::<Vec<Word>, MerkleError>(e),
            }),
            S::recording() ==> final(self).accessed() == record_walk(
                old(self).contents(),
                root,
                index.depth,
                index.value,
                record_read(old(self).contents(), root, old(self).accessed()),
            ),
            !S::recording() ==> final(self).accessed() == old(self).accessed(),
    {
        let pre = self.nodes.get(&root);
        if pre.is_none() {
            return Err(MerkleError::RootNotInStore(root));
        }
        match walk_get(&mut self.nodes, root, index.depth, index.value) {
            Ok((_v, p)) => Ok(p),
            Err(e) => Err(e),
        }
    }

    /// Walks from `root` toward `index` for at most `tree_depth` steps and
    /// returns the depth of the first leaf met: a position without a
    /// stored node, or the depth bound itself. Fails on a depth beyond
    /// the fixed maximum or on an unknown root.
    pub fn get_leaf_depth(&mut self, root: Word, tree_depth: u8, index: u64) -> (r: Result<
        u8,
        MerkleError,
    >)
        ensures
            final(self).contents() == old(self).contents(),
            r == (if tree_depth > 64 {
                Err::<u8, MerkleError>(MerkleError::DepthTooBig(tree_depth as u64))
            } else if tree_depth == 0 {
                Ok::<u8, MerkleError>(0u8)
            } else if !old(self).contents().contains_key(root) {
                Err::<u8, MerkleError>(MerkleError::RootNotInStore(root))
            } else {
                Ok::<u8, MerkleError>(
                    leaf_depth_from(old(self).contents(), root, tree_depth, index) as u8,
                )
            }),
            S::recording() ==> accessed_extends(
                old(self).accessed(),
                final(self).accessed(),
                old(self).contents(),
            ),
            !S::recording() ==> final(self).accessed() == old(self).accessed(),
    {
        if tree_depth > 64 {
            return Err(MerkleError::DepthTooBig(tree_depth as u64));
        }
        if tree_depth == 0 {
            return Ok(0);
        }
        let ghost m = self.nodes.contents();
        let ghost acc0 = self.nodes.accessed();
        let pre = self.nodes.get(&root);
        let ghost acc1 = self.nodes.accessed();
        proof {
            if S::recording() {
                assert(acc1 == record_read(m, root, acc0));
                lemma_extends_step(acc0, root, m);
            }
        }
        if pre.is_none() {
            return Err(MerkleError::RootNotInStore(root));
        }
        let r = leaf_rec(&mut self.nodes, root, tree_depth, index);
        proof {
            if S::recording() {
                lemma_extends_trans(acc0, acc1, self.nodes.accessed(), m);
            }
        }
        Ok(r)
    }

    /// Replaces the node at `index` below `root` with `value`, recomputing
    /// every ancestor digest up to a new root, and returns the new root
    /// together with the sibling path observed along the way. Untouched
    /// siblings are shared, not copied.
    pub fn set_node(&mut self, root: Word, index: NodeIndex, value: Word) -> (r: Result<
        (Word, Vec<Word>),
        MerkleError,
    >)
        requires
            index.depth <= 64,
        ensures
            (match r {
                Ok((nr, p)) => {
                    &&& set_root_spec(old(self).contents(), root, index.depth, index.value, value)
                        == Ok::<(Word, Map<Word, StoreNode>), MerkleError>(
                        (nr, final(self).contents()),
                    )
                    &&& (match lookup(old(self).contents(), root, index.depth, index.value) {
                        Ok((v0, p0)) => p@ == p0,
                        Err(_) => false,
                    })
                },
                Err(e) => {
                    &&& set_root_spec(old(self).contents(), root, index.depth, index.value, value)
                        == Err::<(Word, Map<Word, StoreNode>), MerkleError>(e)
                    &&& final(self).contents() == old(self).contents()
                },
            }),
            S::recording() ==> final(self).accessed() == record_walk(
                old(self).contents(),
                root,
                index.depth,
                index.value,
                record_read(old(self).contents(), root, old(self).accessed()),
            ),
            !S::recording() ==> final(self).accessed() == old(self).accessed(),
    {
        let pre = self.nodes.get(&root);
        if pre.is_none() {
            return Err(MerkleError::RootNotInStore(root));
        }
        set_rec(&mut self.nodes, root, index.depth, index.value, value)
    }

    /// Grafts two existing roots under one new composite root whose left
    /// child is `lhs` and whose right child is `rhs`; fails when either
    /// root is unknown.
    pub fn merge_roots(&mut self, lhs: Word, rhs: Word) -> (r: Result<Word, MerkleError>)
        ensures
            (match r {
                Ok(d) => {
                    &&& old(self).contents().contains_key(lhs)
                    &&& old(self).contents().contains_key(rhs)
                    &&& d == rpo_merge(lhs, rhs)
                    &&& final(self).contents() == old(self).contents().insert(
                        d,
                        StoreNode { left: lhs, right: rhs },
                    )
                },
                Err(e) => {
                    &&& final(self).contents() == old(self).contents()
                    &&& (if !old(self).contents().contains_key(lhs) {
                        e == MerkleError::RootNotInStore(lhs)
                    } else {
                        !old(self).contents().contains_key(rhs) && e
                            == MerkleError::RootNotInStore(rhs)
                    })
                },
            }),
            S::recording() ==> final(self).accessed() == (
                if old(self).contents().contains_key(lhs) {
                    record_read(
                        old(self).contents(),
                        rhs,
                        record_read(old(self).contents(), lhs, old(self).accessed()),
                    )
                } else {
                    old(self).accessed()
                }
            ),
            !S::recording() ==> final(self).accessed() == old(self).accessed(),
    {
        let l = self.nodes.get(&lhs);
        if l.is_none() {
            return Err(MerkleError::RootNotInStore(lhs));
        }
        let rgt = self.nodes.get(&rhs);
        if rgt.is_none() {
            return Err(MerkleError::RootNotInStore(rhs));
        }
        let d = merge_digests(&lhs, &rhs);
        self.nodes.insert(d, StoreNode { left: lhs, right: rhs });
        Ok(d)
    }
}

} // verus!
