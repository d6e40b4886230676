use vstd::prelude::*;
use crate::felt::Felt;
use crate::word::{word_bytes, Word};
use crate::errors::{ExecutionError, MerkleError};
use crate::node_index::{index_valid, NodeIndex};
use crate::kv::{assoc_view, record_read, KvKey, KvMap, KvVal, PlainMap, RecordingMap};
use crate::merkle::{
    accessed_extends, leaf_depth_from, lookup, node_at, record_walk, set_root_spec, MerkleStore,
    StoreNode,
};

verus! {

/// Where a pushed advice value comes from: either a direct value, or the
/// value sequence stored in the advice map under a word's encoded key,
/// optionally topped by its length.
#[derive(Clone, Copy, Debug, PartialEq, Eq, Structural)]
pub enum AdviceSource {
    Value(Felt),
    MapValue { key: Word, include_len: bool },
}

/// The non-deterministic inputs a provider is constructed from, and the
/// shape of the replay bundle a recording provider is consumed into: an
/// initial advice stack (declared top first), advice-map entries keyed by
/// encoded words, and a Merkle store seed of content-addressed nodes.
#[derive(Debug)]
pub struct AdviceInputs {
    stack: Vec<Felt>,
    map: Vec<(Vec<u8>, Vec<Felt>)>,
    store: Vec<(Word, StoreNode)>,
}

impl AdviceInputs {
    /// The declared initial stack, first-to-pop element first.
    pub closed spec fn stack_view(&self) -> Seq<Felt> {
        self.stack@
    }

    /// The advice map the bundle describes; a later entry for a key
    /// overrides an earlier one.
    pub closed spec fn map_view(&self) -> Map<Seq<u8>, Seq<Felt>> {
        assoc_view(self.map@)
    }

    /// The Merkle node table the bundle describes.
    pub closed spec fn store_view(&self) -> Map<Word, StoreNode> {
        assoc_view(self.store@)
    }

    /// A bundle with no stack, no map entries and no Merkle nodes.
    pub fn new_empty() -> (r: Self)
        ensures
            r.stack_view() == Seq::<Felt>::empty(),
            r.map_view() == Map::<Seq<u8>, Seq<Felt>>::empty(),
            r.store_view() == Map::<Word, StoreNode>::empty(),
    {
        AdviceInputs { stack: Vec::new(), map: Vec::new(), store: Vec::new() }
    }

    /// Replaces the declared initial stack.
    pub fn with_stack(self, stack: Vec<Felt>) -> (r: Self)
        ensures
            r.stack_view() == stack@,
            r.map_view() == self.map_view(),
            r.store_view() == self.store_view(),
    {
        AdviceInputs { stack, map: self.map, store: self.store }
    }

    /// Replaces the advice-map entries.
    pub fn with_map(self, entries: Vec<(Vec<u8>, Vec<Felt>)>) -> (r: Self)
        ensures
            r.stack_view() == self.stack_view(),
            r.map_view() == assoc_view(entries@),
            r.store_view() == self.store_view(),
    {
        AdviceInputs { stack: self.stack, map: entries, store: self.store }
    }

    /// Replaces the Merkle store seed.
    pub fn with_merkle_store(self, entries: Vec<(Word, StoreNode)>) -> (r: Self)
        ensures
            r.stack_view() == self.stack_view(),
            r.map_view() == self.map_view(),
            r.store_view() == assoc_view(entries@),
    {
        AdviceInputs { stack: self.stack, map: self.map, store: entries }
    }

    /// The declared initial stack.
    pub fn stack(&self) -> (r: &Vec<Felt>)
        ensures
            r@ == self.stack_view(),
    {
        &self.stack
    }

    /// Splits the bundle into its three parts.
    pub fn into_parts(self) -> (r: (Vec<Felt>, Vec<(Vec<u8>, Vec<Felt>)>, Vec<(Word, StoreNode)>))
        ensures
            r.0@ == self.stack_view(),
            assoc_view(r.1@) == self.map_view(),
            assoc_view(r.2@) == self.store_view(),
    {
        (self.stack, self.map, self.store)
    }
}

/// The unified capability the executing processor depends on: the advice
/// stack, the advice map, the Merkle store, and the step clock that tags
/// stack errors. It is polymorphic over the storage backends, so plain
/// and recording behaviour are interchangeable at the call site;
/// `map_recording` / `store_recording` say which one a type carries, and
/// `map_accessed` / `store_accessed` are the recorded subsets.
pub trait AdviceProvider: Sized {
    spec fn advice_stack(&self) -> Seq<Felt>;

    spec fn advice_map(&self) -> Map<Seq<u8>, Seq<Felt>>;

    spec fn store_nodes(&self) -> Map<Word, StoreNode>;

    spec fn map_accessed(&self) -> Map<Seq<u8>, Seq<Felt>>;

    spec fn store_accessed(&self) -> Map<Word, StoreNode>;

    spec fn map_recording() -> bool;

    spec fn store_recording() -> bool;

    spec fn clock(&self) -> u32;

    /// Removes and returns the top stack element; fails on an empty
    /// stack, tagged with the current step.
    fn pop_stack(&mut self) -> (r: Result<Felt, ExecutionError>)
        ensures
            final(self).advice_map() == old(self).advice_map(),
            final(self).store_nodes() == old(self).store_nodes(),
            final(self).map_accessed() == old(self).map_accessed(),
            final(self).store_accessed() == old(self).store_accessed(),
            final(self).clock() == old(self).clock(),
            (if old(self).advice_stack().len() == 0 {
                r == Err::<Felt, ExecutionError>(
                    ExecutionError::AdviceStackReadFailed(old(self).clock()),
                ) && final(self).advice_stack() == old(self).advice_stack()
            } else {
                r == Ok::<Felt, ExecutionError>(old(self).advice_stack().last()) && final(self).advice_stack() == old(self).advice_stack().drop_last()
            });

    /// Removes the top four stack elements and reassembles them into a
    /// word whose first component is the element that was on top, so
    /// that pushing `[a, b, c, d]` and popping a word yields
    /// `Word(d, c, b, a)`. Fails when fewer than four elements remain.
    fn pop_stack_word(&mut self) -> (r: Result<Word, ExecutionError>)
        ensures
            final(self).advice_map() == old(self).advice_map(),
            final(self).store_nodes() == old(self).store_nodes(),
            final(self).map_accessed() == old(self).map_accessed(),
            final(self).store_accessed() == old(self).store_accessed(),
            final(self).clock() == old(self).clock(),
            (if old(self).advice_stack().len() < 4 {
                r == Err::<Word, ExecutionError>(
                    ExecutionError::AdviceStackReadFailed(old(self).clock()),
                ) && final(self).advice_stack() == old(self).advice_stack()
            } else {
                ({
                    let s = old(self).advice_stack();
                    let n = s.len() as int;
                    r == Ok::<Word, ExecutionError>(
                        (Word(s[n - 1], s[n - 2], s[n - 3], s[n - 4])),
                    ) && final(self).advice_stack() == s.take(n - 4)
                })
            });

    /// Two sequential word pops; the first popped word comes first. When
    /// only the second pop fails, the first four elements are already
    /// consumed, exactly as two separate calls would leave the stack.
    fn pop_stack_dword(&mut self) -> (r: Result<[Word; 2], ExecutionError>)
        ensures
            final(self).advice_map() == old(self).advice_map(),
            final(self).store_nodes() == old(self).store_nodes(),
            final(self).map_accessed() == old(self).map_accessed(),
            final(self).store_accessed() == old(self).store_accessed(),
            final(self).clock() == old(self).clock(),
            (if old(self).advice_stack().len() < 4 {
                r is Err && r->Err_0 == ExecutionError::AdviceStackReadFailed(old(self).clock())
                    && final(self).advice_stack() == old(self).advice_stack()
            } else if old(self).advice_stack().len() < 8 {
                r is Err && r->Err_0 == ExecutionError::AdviceStackReadFailed(old(self).clock())
                    && final(self).advice_stack() == old(self).advice_stack().take(
                    old(self).advice_stack().len() - 4,
                )
            } else {
                ({
                    let s = old(self).advice_stack();
                    let n = s.len() as int;
                    r is Ok && r->Ok_0@ == seq![
                        (Word(s[n - 1], s[n - 2], s[n - 3], s[n - 4])),
                        (Word(s[n - 5], s[n - 6], s[n - 7], s[n - 8])),
                    ] && final(self).advice_stack() == s.take(n - 8)
                })
            });

    /// Pushes advice onto the stack. A direct value is pushed as-is. A
    /// map reference looks the key's encoded bytes up in the advice map,
    /// pushes the stored values in reverse order (so the first stored
    /// value ends on top), and, when asked, pushes the value count on
    /// top of them all; it fails when the key holds no value.
    fn push_stack(&mut self, source: AdviceSource) -> (r: Result<(), ExecutionError>)
        ensures
            final(self).store_nodes() == old(self).store_nodes(),
            final(self).store_accessed() == old(self).store_accessed(),
            final(self).advice_map() == old(self).advice_map(),
            final(self).clock() == old(self).clock(),
            (match source {
                AdviceSource::Value(v) => r == Ok::<(), ExecutionError>(()) && final(self).advice_stack() == old(self).advice_stack().push(v) && final(self).map_accessed()
                    == old(self).map_accessed(),
                AdviceSource::MapValue { key, include_len } => (
                {
                    let kb = word_bytes(key);
                    if old(self).advice_map().contains_key(kb) {
                        ({
                            let vals = old(self).advice_map()[kb];
                            &&& r == Ok::<(), ExecutionError>(())
                            &&& final(self).advice_stack() == old(self).advice_stack()
                                + vals.reverse() + (if include_len {
                                seq![(Felt { value: vals.len() as u64 })]
                            } else {
                                Seq::<Felt>::empty()
                            })
                            &&& (Self::map_recording() ==> final(self).map_accessed()
                                == record_read(old(self).advice_map(), kb, old(self).map_accessed()))
                            &&& (!Self::map_recording() ==> final(self).map_accessed() == old(self).map_accessed())
                        })
                    } else {
                        r == Err::<(), ExecutionError>(ExecutionError::AdviceKeyNotFound(key))
                            && final(self).advice_stack() == old(self).advice_stack() && final(self).map_accessed() == old(self).map_accessed()
                    }
                }),
            });

    /// Stores a value sequence under the key's encoded bytes,
    /// overwriting any prior value; it always succeeds, and the insert
    /// itself is never recorded.
    fn insert_into_map(&mut self, key: Word, values: Vec<Felt>) -> (r: Result<
        (),
        ExecutionError,
    >)
        ensures
            r == Ok::<(), ExecutionError>(()),
            final(self).advice_stack() == old(self).advice_stack(),
            final(self).store_nodes() == old(self).store_nodes(),
            final(self).map_accessed() == old(self).map_accessed(),
            final(self).store_accessed() == old(self).store_accessed(),
            final(self).clock() == old(self).clock(),
            final(self).advice_map() == old(self).advice_map().insert(word_bytes(key), values@),
    ;

    /// Returns the digest of the node at the given position below
    /// `root`. A malformed (depth, index) pair fails before any store
    /// access; a store failure carries the store's own error.
    fn get_tree_node(&mut self, root: Word, depth: &Felt, index: &Felt) -> (r: Result<
        Word,
        ExecutionError,
    >)
        ensures
            final(self).advice_stack() == old(self).advice_stack(),
            final(self).advice_map() == old(self).advice_map(),
            final(self).map_accessed() == old(self).map_accessed(),
            final(self).store_nodes() == old(self).store_nodes(),
            final(self).clock() == old(self).clock(),
            (if !(depth.value <= 64 && index_valid(depth.value as u8, index.value)) {
                r == Err::<Word, ExecutionError>(
                    ExecutionError::InvalidTreeNodeIndex { depth: *depth, value: *index },
                ) && final(self).store_accessed() == old(self).store_accessed()
            } else {
                ({
                    &&& r == (match node_at(
                        old(self).store_nodes(),
                        root,
                        depth.value as u8,
                        index.value,
                    ) {
                        Ok((v, p)) => Ok::<Word, ExecutionError>(v),
                        Err(e) => Err::<Word, ExecutionError>(
                            ExecutionError::MerkleStoreLookupFailed(e),
                        ),
                    })
                    &&& (Self::store_recording() ==> final(self).store_accessed() == record_walk(
                        old(self).store_nodes(),
                        root,
                        depth.value as u8,
                        index.value,
                        record_read(old(self).store_nodes(), root, old(self).store_accessed()),
                    ))
                    &&& (!Self::store_recording() ==> final(self).store_accessed() == old(self).store_accessed())
                })
            });

    /// Returns the sibling digests from the node at the given position
    /// up to (excluding) `root`, deepest sibling first; fails as
    /// `get_tree_node` does.
    fn get_merkle_path(&mut self, root: Word, depth: &Felt, index: &Felt) -> (r: Result<
        Vec<Word>,
        ExecutionError,
    >)
        ensures
            final(self).advice_stack() == old(self).advice_stack(),
            final(self).advice_map() == old(self).advice_map(),
            final(self).map_accessed() == old(self).map_accessed(),
            final(self).store_nodes() == old(self).store_nodes(),
            final(self).clock() == old(self).clock(),
            (if !(depth.value <= 64 && index_valid(depth.value as u8, index.value)) {
                r == Err::<Vec<Word>, ExecutionError>(
                    ExecutionError::InvalidTreeNodeIndex { depth: *depth, value: *index },
                ) && final(self).store_accessed() == old(self).store_accessed()
            } else {
                ({
                    &&& (match node_at(
                        old(self).store_nodes(),
                        root,
                        depth.value as u8,
                        index.value,
                    ) {
                        Ok((v, p)) => r is Ok && r->Ok_0@ == p,
                        Err(e) => r == Err::<Vec<Word>, ExecutionError>(
                            ExecutionError::MerkleStoreLookupFailed(e),
                        ),
                    })
                    &&& (Self::store_recording() ==> final(self).store_accessed() == record_walk(
                        old(self).store_nodes(),
                        root,
                        depth.value as u8,
                        index.value,
                        record_read(old(self).store_nodes(), root, old(self).store_accessed()),
                    ))
                    &&& (!Self::store_recording() ==> final(self).store_accessed() == old(self).store_accessed())
                })
            });

    /// Walks from `root` toward `index`, stopping at the first leaf, and
    /// returns that leaf's depth. A depth that does not fit a single
    /// byte fails before any store access.
    fn get_leaf_depth(&mut self, root: Word, tree_depth: &Felt, index: &Felt) -> (r: Result<
        u8,
        ExecutionError,
    >)
        ensures
            final(self).advice_stack() == old(self).advice_stack(),
            final(self).advice_map() == old(self).advice_map(),
            final(self).map_accessed() == old(self).map_accessed(),
            final(self).store_nodes() == old(self).store_nodes(),
            final(self).clock() == old(self).clock(),
            (if tree_depth.value > 255 {
                r == Err::<u8, ExecutionError>(
                    ExecutionError::InvalidTreeDepth { depth: *tree_depth },
                )
            } else {
                ({
                    let td = tree_depth.value as u8;
                    if td > 64 {
                        r == Err::<u8, ExecutionError>(
                            ExecutionError::MerkleStoreLookupFailed(
                                MerkleError::DepthTooBig(td as u64),
                            ),
                        )
                    } else if td == 0 {
                        r == Ok::<u8, ExecutionError>(0u8)
                    } else if !old(self).store_nodes().contains_key(root) {
                        r == Err::<u8, ExecutionError>(
                            ExecutionError::MerkleStoreLookupFailed(
                                MerkleError::RootNotInStore(root),
                            ),
                        )
                    } else {
                        r == Ok::<u8, ExecutionError>(
                            leaf_depth_from(old(self).store_nodes(), root, td, index.value) as u8,
                        )
                    }
                })
            }),
            Self::store_recording() ==> accessed_extends(
                old(self).store_accessed(),
                final(self).store_accessed(),
                old(self).store_nodes(),
            ),
            !Self::store_recording() ==> final(self).store_accessed() == old(self).store_accessed(),
    ;

    /// Replaces the node at the given position below `root` with
    /// `value`, recomputing all ancestor digests up to a new root held
    /// in the store, and returns the sibling path observed along the
    /// way. A malformed pair fails before any store access.
    fn update_merkle_node(&mut self, root: Word, depth: &Felt, index: &Felt, value: Word) -> (r:
        Result<Vec<Word>, ExecutionError>)
        ensures
            final(self).advice_stack() == old(self).advice_stack(),
            final(self).advice_map() == old(self).advice_map(),
            final(self).map_accessed() == old(self).map_accessed(),
            final(self).clock() == old(self).clock(),
            (if !(depth.value <= 64 && index_valid(depth.value as u8, index.value)) {
                r == Err::<Vec<Word>, ExecutionError>(
                    ExecutionError::InvalidTreeNodeIndex { depth: *depth, value: *index },
                ) && final(self).store_nodes() == old(self).store_nodes() && final(self).store_accessed() == old(self).store_accessed()
            } else {
                ({
                    &&& (match set_root_spec(
                        old(self).store_nodes(),
                        root,
                        depth.value as u8,
                        index.value,
                        value,
                    ) {
                        Ok((nr, m1)) => r is Ok && final(self).store_nodes() == m1 && (
                        match lookup(old(self).store_nodes(), root, depth.value as u8, index.value) {
                            Ok((v0, p0)) => r->Ok_0@ == p0,
                            Err(_) => false,
                        }),
                        Err(e) => r == Err::<Vec<Word>, ExecutionError>(
                            ExecutionError::MerkleStoreUpdateFailed(e),
                        ) && final(self).store_nodes() == old(self).store_nodes(),
                    })
                    &&& (Self::store_recording() ==> final(self).store_accessed() == record_walk(
                        old(self).store_nodes(),
                        root,
                        depth.value as u8,
                        index.value,
                        record_read(old(self).store_nodes(), root, old(self).store_accessed()),
                    ))
                    &&& (!Self::store_recording() ==> final(self).store_accessed() == old(self).store_accessed())
                })
            });

    /// Grafts two existing roots under one new composite root and
    /// returns the new root's digest; fails when either root is unknown.
    fn merge_roots(&mut self, lhs: Word, rhs: Word) -> (r: Result<Word, ExecutionError>)
        ensures
            final(self).advice_stack() == old(self).advice_stack(),
            final(self).advice_map() == old(self).advice_map(),
            final(self).map_accessed() == old(self).map_accessed(),
            final(self).clock() == old(self).clock(),
            (match r {
                Ok(d) => {
                    &&& old(self).store_nodes().contains_key(lhs)
                    &&& old(self).store_nodes().contains_key(rhs)
                    &&& d == crate::merkle::rpo_merge(lhs, rhs)
                    &&& final(self).store_nodes() == old(self).store_nodes().insert(
                        d,
                        (StoreNode { left: lhs, right: rhs }),
                    )
                },
                Err(e) => {
                    &&& final(self).store_nodes() == old(self).store_nodes()
                    &&& (if !old(self).store_nodes().contains_key(lhs) {
                        e == ExecutionError::MerkleStoreMergeFailed(
                            MerkleError::RootNotInStore(lhs),
                        )
                    } else {
                        !old(self).store_nodes().contains_key(rhs) && e
                            == ExecutionError::MerkleStoreMergeFailed(
                            MerkleError::RootNotInStore(rhs),
                        )
                    })
                },
            }),
            Self::store_recording() ==> final(self).store_accessed() == (
            if old(self).store_nodes().contains_key(lhs) {
                record_read(
                    old(self).store_nodes(),
                    rhs,
                    record_read(old(self).store_nodes(), lhs, old(self).store_accessed()),
                )
            } else {
                old(self).store_accessed()
            }),
            !Self::store_recording() ==> final(self).store_accessed() == old(self).store_accessed(),
    ;

    /// Advances the step clock the provider tags stack errors with; the
    /// count wraps at its type bound, which a run never reaches.
    fn advance_clock(&mut self)
        ensures
            final(self).advice_stack() == old(self).advice_stack(),
            final(self).advice_map() == old(self).advice_map(),
            final(self).store_nodes() == old(self).store_nodes(),
            final(self).map_accessed() == old(self).map_accessed(),
            final(self).store_accessed() == old(self).store_accessed(),
            old(self).clock() < u32::MAX ==> final(self).clock() == old(self).clock() + 1,
            old(self).clock() == u32::MAX ==> final(self).clock() == 0,
    ;
}


/// The plain advice-map backend.
pub type SimpleAdviceMap = PlainMap<Vec<u8>, Vec<Felt>>;

/// The plain Merkle node backend.
pub type SimpleMerkleMap = PlainMap<Word, StoreNode>;

/// The recording advice-map backend.
pub type RecordingAdviceMap = RecordingMap<Vec<u8>, Vec<Felt>>;

/// The recording Merkle node backend.
pub type RecordingMerkleMap = RecordingMap<Word, StoreNode>;

fn reverse_felts(v: &Vec<Felt>) -> (r: Vec<Felt>)
    ensures
        r@ == v@.reverse(),
{
    let mut r: Vec<Felt> = Vec::new();
    let mut i: usize = v.len();
    while i > 0
        invariant
            i <= v@.len(),
            r@ == v@.skip(i as int).reverse(),
        decreases i,
    {
        i = i - 1;
        r.push(v[i]);
        proof {
            assert(r@ =~= v@.skip(i as int).reverse());
        }
    }
    proof {
        assert(v@.skip(0) =~= v@);
    }
    r
}

/// The shared base provider: the step counter, the live stack, and the
/// two storage backends, generic over plain and recording storage. All
/// provider algorithms live here; the consumer-facing types are thin
/// facades over one instance of this type.
pub struct BaseAdviceProvider<M, S> where
    M: KvMap<Vec<u8>, Vec<Felt>>,
    S: KvMap<Word, StoreNode>,
 {
    step: u32,
    stack: Vec<Felt>,
    map: M,
    store: MerkleStore<S>,
}

impl<M, S> BaseAdviceProvider<M, S> where
    M: KvMap<Vec<u8>, Vec<Felt>>,
    S: KvMap<Word, StoreNode>,
 {
    /// Builds a provider from an inputs bundle: the declared stack is
    /// reversed on load so that its first element pops first, and the
    /// map and store are bulk-loaded with later entries overriding
    /// earlier ones.
    pub fn from_inputs(inputs: AdviceInputs) -> (r: Self)
        ensures
            r.advice_stack() == inputs.stack_view().reverse(),
            r.advice_map() == inputs.map_view(),
            r.store_nodes() == inputs.store_view(),
            r.map_accessed() == Map::<Seq<u8>, Seq<Felt>>::empty(),
            r.store_accessed() == Map::<Word, StoreNode>::empty(),
            r.clock() == 0,
    {
        let (stack0, map_entries, store_entries) = inputs.into_parts();
        let stack = reverse_felts(&stack0);
        let mut map = M::empty_map();
        let mut i: usize = 0;
        while i < map_entries.len()
            invariant
                i <= map_entries@.len(),
                map.contents() == assoc_view(map_entries@.take(i as int)),
                map.accessed() == Map::<Seq<u8>, Seq<Felt>>::empty(),
            decreases map_entries@.len() - i,
        {
            let k = map_entries[i].0.key_dup();
            let v = map_entries[i].1.val_dup();
            map.insert(k, v);
            proof {
                assert(map_entries@.take(i + 1).drop_last() =~= map_entries@.take(i as int));
                assert(map_entries@.take(i + 1).last() == map_entries@[i as int]);
            }
            i = i + 1;
        }
        let mut store = MerkleStore::<S>::empty();
        let mut j: usize = 0;
        while j < store_entries.len()
            invariant
                j <= store_entries@.len(),
                store.contents() == assoc_view(store_entries@.take(j as int)),
                store.accessed() == Map::<Word, StoreNode>::empty(),
            decreases store_entries@.len() - j,
        {
            let (k, n) = store_entries[j];
            store.load_node(k, n);
            proof {
                assert(store_entries@.take(j + 1).drop_last() =~= store_entries@.take(j as int));
                assert(store_entries@.take(j + 1).last() == store_entries@[j as int]);
            }
            j = j + 1;
        }
        proof {
            assert(map_entries@.take(map_entries@.len() as int) =~= map_entries@);
            assert(store_entries@.take(store_entries@.len() as int) =~= store_entries@);
        }
        BaseAdviceProvider { step: 0, stack, map, store }
    }
}

impl<M, S> AdviceProvider for BaseAdviceProvider<M, S> where
    M: KvMap<Vec<u8>, Vec<Felt>>,
    S: KvMap<Word, StoreNode>,
 {
    closed spec fn advice_stack(&self) -> Seq<Felt> {
        self.stack@
    }

    closed spec fn advice_map(&self) -> Map<Seq<u8>, Seq<Felt>> {
        self.map.contents()
    }

    closed spec fn store_nodes(&self) -> Map<Word, StoreNode> {
        self.store.contents()
    }

    closed spec fn map_accessed(&self) -> Map<Seq<u8>, Seq<Felt>> {
        self.map.accessed()
    }

    closed spec fn store_accessed(&self) -> Map<Word, StoreNode> {
        self.store.accessed()
    }

    open spec fn map_recording() -> bool {
        M::recording()
    }

    open spec fn store_recording() -> bool {
        S::recording()
    }

    closed spec fn clock(&self) -> u32 {
        self.step
    }

    fn pop_stack(&mut self) -> (r: Result<Felt, ExecutionError>) {
        match self.stack.pop() {
            None => Err(ExecutionError::AdviceStackReadFailed(self.step)),
            Some(v) => {
                proof {
                    assert(self.stack@ =~= old(self).advice_stack().drop_last());
                }
                Ok(v)
            },
        }
    }

    fn pop_stack_word(&mut self) -> (r: Result<Word, ExecutionError>) {
        if self.stack.len() < 4 {
            return Err(ExecutionError::AdviceStackReadFailed(self.step));
        }
        let n = self.stack.len();
        let a = self.stack[n - 1];
        let b = self.stack[n - 2];
        let c = self.stack[n - 3];
        let d = self.stack[n - 4];
        self.stack.truncate(n - 4);
        proof {
            assert(self.stack@ =~= old(self).advice_stack().take(n - 4));
        }
        Ok(Word(a, b, c, d))
    }

    fn pop_stack_dword(&mut self) -> (r: Result<[Word; 2], ExecutionError>) {
        let w0 = match self.pop_stack_word() {
            Ok(w) => w,
            Err(e) => {
                return Err(e);
            },
        };
        let w1 = match self.pop_stack_word() {
            Ok(w) => w,
            Err(e) => {
                return Err(e);
            },
        };
        let r = [w0, w1];
        proof {
            assert(old(self).advice_stack().take(old(self).advice_stack().len() - 4).take(
                old(self).advice_stack().len() - 8,
            ) =~= old(self).advice_stack().take(old(self).advice_stack().len() - 8));
            assert(r@ =~= seq![w0, w1]);
        }
        Ok(r)
    }

    fn push_stack(&mut self, source: AdviceSource) -> (r: Result<(), ExecutionError>) {
        match source {
            AdviceSource::Value(v) => {
                self.stack.push(v);
                Ok(())
            },
            AdviceSource::MapValue { key, include_len } => {
                let kb = key.into_bytes();
                let got = self.map.get(&kb);
                match got {
                    None => Err(ExecutionError::AdviceKeyNotFound(key)),
                    Some(vals) => {
                        let ghost stack0 = self.stack@;
                        let ghost map0 = self.map;
                        let ghost store0 = self.store;
                        let ghost step0 = self.step;
                        let n = vals.len();
                        let mut i: usize = n;
                        while i > 0
                            invariant
                                i <= n,
                                n == vals@.len(),
                                self.stack@ == stack0 + vals@.skip(i as int).reverse(),
                                self.map == map0,
                                self.store == store0,
                                self.step == step0,
                            decreases i,
                        {
                            i = i - 1;
                            let f = vals[i];
                            self.stack.push(f);
                            proof {
                                assert(self.stack@ =~= stack0 + vals@.skip(i as int).reverse());
                            }
                        }
                        proof {
                            assert(vals@.skip(0) =~= vals@);
                        }
                        if include_len {
                            self.stack.push(Felt::new(n as u64));
                            proof {
                                assert(self.stack@ =~= stack0 + vals@.reverse() + seq![
                                    (Felt { value: vals@.len() as u64 }),
                                ]);
                            }
                        } else {
                            proof {
                                assert(self.stack@ =~= stack0 + vals@.reverse()
                                    + Seq::<Felt>::empty());
                            }
                        }
                        Ok(())
                    },
                }
            },
        }
    }

    fn insert_into_map(&mut self, key: Word, values: Vec<Felt>) -> (r: Result<
        (),
        ExecutionError,
    >) {
        let kb = key.into_bytes();
        self.map.insert(kb, values);
        Ok(())
    }

    fn get_tree_node(&mut self, root: Word, depth: &Felt, index: &Felt) -> (r: Result<
        Word,
        ExecutionError,
    >) {
        match NodeIndex::from_elements(depth, index) {
            None => Err(
                ExecutionError::InvalidTreeNodeIndex { depth: *depth, value: *index },
            ),
            Some(idx) => match self.store.get_node(root, idx) {
                Ok(v) => Ok(v),
                Err(e) => Err(ExecutionError::MerkleStoreLookupFailed(e)),
            },
        }
    }

    fn get_merkle_path(&mut self, root: Word, depth: &Felt, index: &Felt) -> (r: Result<
        Vec<Word>,
        ExecutionError,
    >) {
        match NodeIndex::from_elements(depth, index) {
            None => Err(
                ExecutionError::InvalidTreeNodeIndex { depth: *depth, value: *index },
            ),
            Some(idx) => match self.store.get_path(root, idx) {
                Ok(p) => Ok(p),
                Err(e) => Err(ExecutionError::MerkleStoreLookupFailed(e)),
            },
        }
    }

    fn get_leaf_depth(&mut self, root: Word, tree_depth: &Felt, index: &Felt) -> (r: Result<
        u8,
        ExecutionError,
    >) {
        if tree_depth.value > 255 {
            proof {
                if S::recording() {
                    crate::merkle::lemma_extends_refl(self.store.accessed(), self.store.contents());
                }
            }
            return Err(ExecutionError::InvalidTreeDepth { depth: *tree_depth });
        }
        let td = tree_depth.value as u8;
        match self.store.get_leaf_depth(root, td, index.value) {
            Ok(d) => Ok(d),
            Err(e) => Err(ExecutionError::MerkleStoreLookupFailed(e)),
        }
    }

    fn update_merkle_node(&mut self, root: Word, depth: &Felt, index: &Felt, value: Word) -> (r:
        Result<Vec<Word>, ExecutionError>) {
        match NodeIndex::from_elements(depth, index) {
            None => Err(
                ExecutionError::InvalidTreeNodeIndex { depth: *depth, value: *index },
            ),
            Some(idx) => match self.store.set_node(root, idx, value) {
                Ok((_new_root, path)) => Ok(path),
                Err(e) => Err(ExecutionError::MerkleStoreUpdateFailed(e)),
            },
        }
    }

    fn merge_roots(&mut self, lhs: Word, rhs: Word) -> (r: Result<Word, ExecutionError>) {
        match self.store.merge_roots(lhs, rhs) {
            Ok(d) => Ok(d),
            Err(e) => Err(ExecutionError::MerkleStoreMergeFailed(e)),
        }
    }

    fn advance_clock(&mut self) {
        if self.step == u32::MAX {
            self.step = 0;
        } else {
            self.step = self.step + 1;
        }
    }
}


/// The in-memory provider: the base provider over plain backends. Its
/// read-only accessors expose internal state for diagnostics and tests.
pub struct MemAdviceProvider {
    provider: BaseAdviceProvider<SimpleAdviceMap, SimpleMerkleMap>,
}

impl MemAdviceProvider {
    /// Builds the provider from an inputs bundle, as the base does.
    pub fn from_inputs(inputs: AdviceInputs) -> (r: Self)
        ensures
            r.advice_stack() == inputs.stack_view().reverse(),
            r.advice_map() == inputs.map_view(),
            r.store_nodes() == inputs.store_view(),
            r.clock() == 0,
    {
        MemAdviceProvider { provider: BaseAdviceProvider::from_inputs(inputs) }
    }

    /// The current advice stack, bottom first.
    pub fn stack(&self) -> (r: &Vec<Felt>)
        ensures
            r@ == self.advice_stack(),
    {
        &self.provider.stack
    }

    /// The current advice map.
    pub fn map(&self) -> (r: &SimpleAdviceMap)
        ensures
            r.contents() == self.advice_map(),
    {
        &self.provider.map
    }

    /// The current Merkle store.
    pub fn store(&self) -> (r: &MerkleStore<SimpleMerkleMap>)
        ensures
            r.contents() == self.store_nodes(),
    {
        &self.provider.store
    }

    /// True when the store holds a node for this root digest; a
    /// read-only diagnostic that consumes no advice.
    pub fn has_merkle_root(&self, root: Word) -> (b: bool)
        ensures
            b == self.store_nodes().contains_key(root),
    {
        self.provider.store.has_root(&root)
    }
}

impl AdviceProvider for MemAdviceProvider {
    closed spec fn advice_stack(&self) -> Seq<Felt> {
        self.provider.advice_stack()
    }

    closed spec fn advice_map(&self) -> Map<Seq<u8>, Seq<Felt>> {
        self.provider.advice_map()
    }

    closed spec fn store_nodes(&self) -> Map<Word, StoreNode> {
        self.provider.store_nodes()
    }

    closed spec fn map_accessed(&self) -> Map<Seq<u8>, Seq<Felt>> {
        self.provider.map_accessed()
    }

    closed spec fn store_accessed(&self) -> Map<Word, StoreNode> {
        self.provider.store_accessed()
    }

    open spec fn map_recording() -> bool {
        false
    }

    open spec fn store_recording() -> bool {
        false
    }

    closed spec fn clock(&self) -> u32 {
        self.provider.clock()
    }

    fn pop_stack(&mut self) -> (r: Result<Felt, ExecutionError>) {
        self.provider.pop_stack()
    }

    fn pop_stack_word(&mut self) -> (r: Result<Word, ExecutionError>) {
        self.provider.pop_stack_word()
    }

    fn pop_stack_dword(&mut self) -> (r: Result<[Word; 2], ExecutionError>) {
        self.provider.pop_stack_dword()
    }

    fn push_stack(&mut self, source: AdviceSource) -> (r: Result<(), ExecutionError>) {
        self.provider.push_stack(source)
    }

    fn insert_into_map(&mut self, key: Word, values: Vec<Felt>) -> (r: Result<
        (),
        ExecutionError,
    >) {
        self.provider.insert_into_map(key, values)
    }

    fn get_tree_node(&mut self, root: Word, depth: &Felt, index: &Felt) -> (r: Result<
        Word,
        ExecutionError,
    >) {
        self.provider.get_tree_node(root, depth, index)
    }

    fn get_merkle_path(&mut self, root: Word, depth: &Felt, index: &Felt) -> (r: Result<
        Vec<Word>,
        ExecutionError,
    >) {
        self.provider.get_merkle_path(root, depth, index)
    }

    fn get_leaf_depth(&mut self, root: Word, tree_depth: &Felt, index: &Felt) -> (r: Result<
        u8,
        ExecutionError,
    >) {
        self.provider.get_leaf_depth(root, tree_depth, index)
    }

    fn update_merkle_node(&mut self, root: Word, depth: &Felt, index: &Felt, value: Word) -> (r:
        Result<Vec<Word>, ExecutionError>) {
        self.provider.update_merkle_node(root, depth, index, value)
    }

    fn merge_roots(&mut self, lhs: Word, rhs: Word) -> (r: Result<Word, ExecutionError>) {
        self.provider.merge_roots(lhs, rhs)
    }

    fn advance_clock(&mut self) {
        self.provider.advance_clock()
    }
}

/// The recording provider: the base provider over recording backends,
/// plus a copy of the original initial stack, so that the replay bundle
/// always starts from the true initial state.
pub struct RecAdviceProvider {
    provider: BaseAdviceProvider<RecordingAdviceMap, RecordingMerkleMap>,
    init_stack: Vec<Felt>,
}

impl RecAdviceProvider {
    /// The initial stack the provider was constructed with, in the
    /// caller's declared order.
    pub closed spec fn init_stack_view(&self) -> Seq<Felt> {
        self.init_stack@
    }

    /// Builds the provider from an inputs bundle and retains the
    /// declared initial stack for the replay bundle.
    pub fn from_inputs(inputs: AdviceInputs) -> (r: Self)
        ensures
            r.init_stack_view() == inputs.stack_view(),
            r.advice_stack() == inputs.stack_view().reverse(),
            r.advice_map() == inputs.map_view(),
            r.store_nodes() == inputs.store_view(),
            r.map_accessed() == Map::<Seq<u8>, Seq<Felt>>::empty(),
            r.store_accessed() == Map::<Word, StoreNode>::empty(),
            r.clock() == 0,
    {
        let init_stack = inputs.stack().val_dup();
        let provider = BaseAdviceProvider::from_inputs(inputs);
        RecAdviceProvider { provider, init_stack }
    }

    /// Consumes the provider and assembles the replay bundle: the
    /// original initial stack, and only the accessed subsets of the
    /// advice map and the Merkle store. The final stack and the step
    /// counter are discarded.
    pub fn into_proof(self) -> (r: AdviceInputs)
        ensures
            r.stack_view() == self.init_stack_view(),
            r.map_view() == self.map_accessed(),
            r.store_view() == self.store_accessed(),
    {
        let RecAdviceProvider { provider, init_stack } = self;
        let BaseAdviceProvider { step: _, stack: _, map, store } = provider;
        let map_entries = map.into_proof().into_entries();
        let store_entries = store.into_inner().into_proof().into_entries();
        AdviceInputs::new_empty().with_stack(init_stack).with_map(map_entries).with_merkle_store(
            store_entries,
        )
    }

    /// The current advice stack, bottom first.
    pub fn stack(&self) -> (r: &Vec<Felt>)
        ensures
            r@ == self.advice_stack(),
    {
        &self.provider.stack
    }

    /// The current advice map, with its recorded subset.
    pub fn map(&self) -> (r: &RecordingAdviceMap)
        ensures
            r.contents() == self.advice_map(),
            r.accessed() == self.map_accessed(),
    {
        &self.provider.map
    }

    /// The current Merkle store, with its recorded subset.
    pub fn store(&self) -> (r: &MerkleStore<RecordingMerkleMap>)
        ensures
            r.contents() == self.store_nodes(),
            r.accessed() == self.store_accessed(),
    {
        &self.provider.store
    }

    /// True when the store holds a node for this root digest; a
    /// read-only diagnostic that consumes and records nothing.
    pub fn has_merkle_root(&self, root: Word) -> (b: bool)
        ensures
            b == self.store_nodes().contains_key(root),
    {
        self.provider.store.has_root(&root)
    }
}

impl AdviceProvider for RecAdviceProvider {
    closed spec fn advice_stack(&self) -> Seq<Felt> {
        self.provider.advice_stack()
    }

    closed spec fn advice_map(&self) -> Map<Seq<u8>, Seq<Felt>> {
        self.provider.advice_map()
    }

    closed spec fn store_nodes(&self) -> Map<Word, StoreNode> {
        self.provider.store_nodes()
    }

    closed spec fn map_accessed(&self) -> Map<Seq<u8>, Seq<Felt>> {
        self.provider.map_accessed()
    }

    closed spec fn store_accessed(&self) -> Map<Word, StoreNode> {
        self.provider.store_accessed()
    }

    open spec fn map_recording() -> bool {
        true
    }

    open spec fn store_recording() -> bool {
        true
    }

    closed spec fn clock(&self) -> u32 {
        self.provider.clock()
    }

    fn pop_stack(&mut self) -> (r: Result<Felt, ExecutionError>) {
        self.provider.pop_stack()
    }

    fn pop_stack_word(&mut self) -> (r: Result<Word, ExecutionError>) {
        self.provider.pop_stack_word()
    }

    fn pop_stack_dword(&mut self) -> (r: Result<[Word; 2], ExecutionError>) {
        self.provider.pop_stack_dword()
    }

    fn push_stack(&mut self, source: AdviceSource) -> (r: Result<(), ExecutionError>) {
        self.provider.push_stack(source)
    }

    fn insert_into_map(&mut self, key: Word, values: Vec<Felt>) -> (r: Result<
        (),
        ExecutionError,
    >) {
        self.provider.insert_into_map(key, values)
    }

    fn get_tree_node(&mut self, root: Word, depth: &Felt, index: &Felt) -> (r: Result<
        Word,
        ExecutionError,
    >) {
        self.provider.get_tree_node(root, depth, index)
    }

    fn get_merkle_path(&mut self, root: Word, depth: &Felt, index: &Felt) -> (r: Result<
        Vec<Word>,
        ExecutionError,
    >) {
        self.provider.get_merkle_path(root, depth, index)
    }

    fn get_leaf_depth(&mut self, root: Word, tree_depth: &Felt, index: &Felt) -> (r: Result<
        u8,
        ExecutionError,
    >) {
        self.provider.get_leaf_depth(root, tree_depth, index)
    }

    fn update_merkle_node(&mut self, root: Word, depth: &Felt, index: &Felt, value: Word) -> (r:
        Result<Vec<Word>, ExecutionError>) {
        self.provider.update_merkle_node(root, depth, index, value)
    }

    fn merge_roots(&mut self, lhs: Word, rhs: Word) -> (r: Result<Word, ExecutionError>) {
        self.provider.merge_roots(lhs, rhs)
    }

    fn advance_clock(&mut self) {
        self.provider.advance_clock()
    }
}

} // verus!
