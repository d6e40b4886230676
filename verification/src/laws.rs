use vstd::prelude::*;
use crate::felt::Felt;
use crate::word::Word;
use crate::merkle::{
    go_right, lookup, node_at, record_walk, rpo_merge, set_spec, visited, walk_child, StoreNode,
};

verus! {

/// The values `n` successive pops return from a stack holding `s`
/// (deepest element first), in the order they are popped. Each pop
/// returns the last element and leaves the rest, exactly as
/// `AdviceProvider::pop_stack` promises of `advice_stack()`.
pub open spec fn popped_seq(s: Seq<Felt>, n: nat) -> Seq<Felt>
    recommends
        n <= s.len(),
    decreases n,
{
    if n == 0 {
        Seq::empty()
    } else {
        seq![s.last()] + popped_seq(s.drop_last(), (n - 1) as nat)
    }
}

/// The stack left behind by `n` successive pops.
pub open spec fn popped_rest(s: Seq<Felt>, n: nat) -> Seq<Felt>
    recommends
        n <= s.len(),
{
    s.take(s.len() - n)
}

/// LIFO law: pushing the values `vs` (in order) onto any stack and then
/// popping as many values returns `vs` reversed and leaves the stack as
/// it was. `push_stack` with a direct value appends one element, and
/// `pop_stack` removes the last, so this pins the stack discipline.
pub proof fn lemma_stack_lifo(s: Seq<Felt>, vs: Seq<Felt>)
    ensures
        popped_seq(s + vs, vs.len()) == vs.reverse(),
        popped_rest(s + vs, vs.len()) == s,
    decreases vs.len(),
{
    assert((s + vs).take((s + vs).len() - vs.len()) =~= s);
    if vs.len() == 0 {
        assert(popped_seq(s + vs, 0) =~= vs.reverse());
    } else {
        lemma_stack_lifo(s, vs.drop_last());
        assert((s + vs).drop_last() =~= s + vs.drop_last());
        assert((s + vs).last() == vs.last());
        assert(popped_seq(s + vs, vs.len()) =~= seq![vs.last()] + popped_seq(
            s + vs.drop_last(),
            (vs.len() - 1) as nat,
        ));
        assert(seq![vs.last()] + vs.drop_last().reverse() =~= vs.reverse());
    }
}

/// Word reassembly law: pushing `a, b, c, d` in that order and then
/// popping a word yields `Word(d, c, b, a)` — the element pushed last
/// (and so popped first) becomes the word's first component — and
/// leaves the stack as it was. This is exactly the shape
/// `pop_stack_word` promises of the top four elements.
pub proof fn lemma_push_four_pop_word(s: Seq<Felt>, a: Felt, b: Felt, c: Felt, d: Felt)
    ensures
        ({
            let t = s.push(a).push(b).push(c).push(d);
            let n = t.len() as int;
            &&& t.len() == s.len() + 4
            &&& (Word(t[n - 1], t[n - 2], t[n - 3], t[n - 4])) == (Word(d, c, b, a))
            &&& t.take(n - 4) == s
        }),
{
    let t = s.push(a).push(b).push(c).push(d);
    assert(t.take(t.len() - 4) =~= s);
}

/// Map round-trip law: the advice map stores a value sequence `vs`, a
/// map-reference push appends `vs` reversed (so the first stored value
/// ends on top), and popping `|vs|` values then returns `vs` in its
/// original order, leaving the stack as before the push.
pub proof fn lemma_map_round_trip(s: Seq<Felt>, vs: Seq<Felt>)
    ensures
        popped_seq(s + vs.reverse(), vs.len()) == vs,
        popped_rest(s + vs.reverse(), vs.len()) == s,
{
    lemma_stack_lifo(s, vs.reverse());
    assert(vs.reverse().reverse() =~= vs);
}

/// Length-annotation law: a map-reference push with `include_len` leaves
/// exactly one element above the reversed value sequence, equal to the
/// number of stored values, so the first pop returns the count and the
/// rest behaves as the plain round trip.
pub proof fn lemma_include_len(s: Seq<Felt>, vs: Seq<Felt>)
    ensures
        ({
            let t = s + vs.reverse() + seq![(Felt { value: vs.len() as u64 })];
            &&& t.len() == s.len() + vs.len() + 1
            &&& t.last() == (Felt { value: vs.len() as u64 })
            &&& t.drop_last() == s + vs.reverse()
        }),
{
    let t = s + vs.reverse() + seq![(Felt { value: vs.len() as u64 })];
    assert(t.drop_last() =~= s + vs.reverse());
}

/// True when no digest occurs twice in the sequence.
pub open spec fn distinct_seq(s: Seq<Word>) -> bool {
    forall|i: int, j: int| 0 <= i < j < s.len() ==> s[i] != s[j]
}

/// The digests of the nodes a successful `set_spec` update writes,
/// deepest rewritten node first.
pub open spec fn set_chain(
    m: Map<Word, StoreNode>,
    node: Word,
    depth: u8,
    index: u64,
    value: Word,
) -> Seq<Word>
    decreases depth,
{
    if depth == 0 {
        Seq::empty()
    } else if !m.contains_key(node) {
        Seq::empty()
    } else {
        match set_spec(m, walk_child(m, node, depth, index), (depth - 1) as u8, index, value) {
            Ok((c, m1)) => {
                let n = if go_right(depth, index) {
                    StoreNode { left: m[node].left, right: c }
                } else {
                    StoreNode { left: c, right: m[node].right }
                };
                set_chain(m, walk_child(m, node, depth, index), (depth - 1) as u8, index, value)
                    .push(rpo_merge(n.left, n.right))
            },
            Err(_) => Seq::empty(),
        }
    }
}

/// Inserting a node that a walk never dereferences changes neither the
/// walk's result nor the nodes it dereferences.
pub proof fn lemma_lookup_insert_stable(
    m: Map<Word, StoreNode>,
    node: Word,
    depth: u8,
    index: u64,
    k: Word,
    v: StoreNode,
)
    requires
        lookup(m, node, depth, index) is Ok,
        !visited(m, node, depth, index).contains(k),
    ensures
        lookup(m.insert(k, v), node, depth, index) == lookup(m, node, depth, index),
        visited(m.insert(k, v), node, depth, index) == visited(m, node, depth, index),
    decreases depth,
{
    let m2 = m.insert(k, v);
    if depth == 0 {
        assert(visited(m2, node, depth, index) =~= visited(m, node, depth, index));
    } else {
        assert(visited(m, node, depth, index).contains(node));
        assert(node != k);
        assert(m2.contains_key(node) && m2[node] == m[node]);
        let child = walk_child(m, node, depth, index);
        assert(walk_child(m2, node, depth, index) == child);
        assert(!visited(m, child, (depth - 1) as u8, index).contains(k));
        lemma_lookup_insert_stable(m, child, (depth - 1) as u8, index, k, v);
        assert(visited(m2, node, depth, index) =~= visited(m, node, depth, index));
    }
}

/// Update-then-read law: after a successful `set_node` style update, a
/// `get_node` walk from the returned new root to the same position
/// returns the written value, and dereferences only rewritten nodes.
/// The premise asks the freshly written digests to be pairwise
/// distinct: the underlying hash is collision-resistant, but that
/// cannot be proved of it, and a chain in which, say, a parent's digest
/// equalled its child's would make the later write shadow the earlier
/// one and the walk diverge.
pub proof fn lemma_set_then_get(
    m: Map<Word, StoreNode>,
    node: Word,
    depth: u8,
    index: u64,
    value: Word,
)
    requires
        depth <= 64,
        set_spec(m, node, depth, index, value) is Ok,
        distinct_seq(set_chain(m, node, depth, index, value)),
    ensures
        ({
            let (nr, m1) = set_spec(m, node, depth, index, value)->Ok_0;
            &&& lookup(m1, nr, depth, index) is Ok
            &&& lookup(m1, nr, depth, index)->Ok_0.0 == value
            &&& forall|k: Word| #[trigger]
                visited(m1, nr, depth, index).contains(k) ==> set_chain(
                    m,
                    node,
                    depth,
                    index,
                    value,
                ).contains(k)
        }),
    decreases depth,
{
    let (nr, m1) = set_spec(m, node, depth, index, value)->Ok_0;
    let chain = set_chain(m, node, depth, index, value);
    if depth == 0 {
        assert(lookup(m1, nr, depth, index) == Ok::<(Word, Seq<Word>), crate::errors::MerkleError>(
            (value, Seq::empty()),
        ));
    } else {
        let child = walk_child(m, node, depth, index);
        let (c, mc) = set_spec(m, child, (depth - 1) as u8, index, value)->Ok_0;
        let chain_c = set_chain(m, child, (depth - 1) as u8, index, value);
        let n = if go_right(depth, index) {
            StoreNode { left: m[node].left, right: c }
        } else {
            StoreNode { left: c, right: m[node].right }
        };
        let nd = rpo_merge(n.left, n.right);
        assert(chain == chain_c.push(nd));
        assert(nr == nd && m1 == mc.insert(nd, n));
        assert forall|i: int, j: int|
            0 <= i < j < chain_c.len() implies chain_c[i] != chain_c[j] by {
            assert(chain[i] == chain_c[i] && chain[j] == chain_c[j]);
        }
        lemma_set_then_get(m, child, (depth - 1) as u8, index, value);
        assert forall|j: int| 0 <= j < chain_c.len() implies chain_c[j] != nd by {
            assert(chain[j] == chain_c[j] && chain[chain.len() - 1] == nd);
        }
        assert(!visited(mc, c, (depth - 1) as u8, index).contains(nd)) by {
            if visited(mc, c, (depth - 1) as u8, index).contains(nd) {
                assert(chain_c.contains(nd));
                let j = choose|j: int| 0 <= j < chain_c.len() && chain_c[j] == nd;
                assert(false);
            }
        }
        lemma_lookup_insert_stable(mc, c, (depth - 1) as u8, index, nd, n);
        assert(m1.contains_key(nd) && m1[nd] == n);
        assert(walk_child(m1, nd, depth, index) == c);
        assert(lookup(m1, nd, depth, index) is Ok && lookup(m1, nd, depth, index)->Ok_0.0
            == value);
        assert forall|k: Word| visited(m1, nd, depth, index).contains(k) implies chain.contains(
            k,
        ) by {
            if k == nd {
                assert(chain[chain.len() - 1] == nd);
            } else {
                assert(visited(m1, c, (depth - 1) as u8, index).contains(k));
                assert(visited(mc, c, (depth - 1) as u8, index).contains(k));
                assert(chain_c.contains(k));
                let j = choose|j: int| 0 <= j < chain_c.len() && chain_c[j] == k;
                assert(chain[j] == k);
            }
        }
    }
}

/// A successful walk's sibling path is exactly as long as the walked
/// depth: `get_path` returns one sibling per level.
pub proof fn lemma_path_length(m: Map<Word, StoreNode>, node: Word, depth: u8, index: u64)
    requires
        lookup(m, node, depth, index) is Ok,
    ensures
        lookup(m, node, depth, index)->Ok_0.1.len() == depth,
    decreases depth,
{
    if depth > 0 {
        lemma_path_length(m, walk_child(m, node, depth, index), (depth - 1) as u8, index);
    }
}

/// Merge-then-read law: after grafting two known roots, reading depth 1
/// index 0 under the new root returns the left root, and index 1 the
/// right root, with the sibling path holding the other root.
pub proof fn lemma_merge_roots_children(m: Map<Word, StoreNode>, lhs: Word, rhs: Word)
    requires
        m.contains_key(lhs),
        m.contains_key(rhs),
    ensures
        ({
            let d = rpo_merge(lhs, rhs);
            let m1 = m.insert(d, (StoreNode { left: lhs, right: rhs }));
            &&& node_at(m1, d, 1, 0) == Ok::<(Word, Seq<Word>), crate::errors::MerkleError>(
                (lhs, seq![rhs]),
            )
            &&& node_at(m1, d, 1, 1) == Ok::<(Word, Seq<Word>), crate::errors::MerkleError>(
                (rhs, seq![lhs]),
            )
        }),
{
    let d = rpo_merge(lhs, rhs);
    let m1 = m.insert(d, (StoreNode { left: lhs, right: rhs }));
    assert((0u64 >> 0u64) & 1u64 == 0u64) by (bit_vector);
    assert((1u64 >> 0u64) & 1u64 == 1u64) by (bit_vector);
    assert(!go_right(1, 0));
    assert(go_right(1, 1));
    assert(m1[d] == (StoreNode { left: lhs, right: rhs }));
    assert(walk_child(m1, d, 1, 0) == lhs);
    assert(walk_child(m1, d, 1, 1) == rhs);
    assert(lookup(m1, lhs, 0, 0) == Ok::<(Word, Seq<Word>), crate::errors::MerkleError>(
        (lhs, Seq::empty()),
    ));
    assert(lookup(m1, rhs, 0, 1) == Ok::<(Word, Seq<Word>), crate::errors::MerkleError>(
        (rhs, Seq::empty()),
    ));
    assert(lookup(m1, d, 1, 0) == Ok::<(Word, Seq<Word>), crate::errors::MerkleError>(
        (lhs, Seq::<Word>::empty().push(rhs)),
    ));
    assert(lookup(m1, d, 1, 1) == Ok::<(Word, Seq<Word>), crate::errors::MerkleError>(
        (rhs, Seq::<Word>::empty().push(lhs)),
    ));
    assert(Seq::<Word>::empty().push(rhs) =~= seq![rhs]);
    assert(Seq::<Word>::empty().push(lhs) =~= seq![lhs]);
}

/// Replay law for a single walk: a walk that succeeds against the full
/// node table succeeds identically against any table that holds the
/// dereferenced nodes with the same children — in particular against
/// the accessed subset a recording backend extracted.
pub proof fn lemma_lookup_replay(
    m: Map<Word, StoreNode>,
    m2: Map<Word, StoreNode>,
    node: Word,
    depth: u8,
    index: u64,
)
    requires
        lookup(m, node, depth, index) is Ok,
        forall|k: Word| #[trigger]
            visited(m, node, depth, index).contains(k) ==> m2.contains_key(k) && m2[k] == m[k],
    ensures
        lookup(m2, node, depth, index) == lookup(m, node, depth, index),
    decreases depth,
{
    if depth > 0 {
        assert(visited(m, node, depth, index).contains(node));
        let child = walk_child(m, node, depth, index);
        assert(walk_child(m2, node, depth, index) == child);
        assert forall|k: Word| #[trigger]
            visited(m, child, (depth - 1) as u8, index).contains(k) implies m2.contains_key(k)
            && m2[k] == m[k] by {
            assert(visited(m, node, depth, index).contains(k));
        }
        lemma_lookup_replay(m, m2, child, (depth - 1) as u8, index);
    }
}

/// What a recording walk stores covers what the walk dereferenced:
/// starting from an accessed set that agrees with the node table, the
/// set after the walk still agrees with it and holds every node the
/// walk read.
pub proof fn lemma_record_walk_covers(
    m: Map<Word, StoreNode>,
    node: Word,
    depth: u8,
    index: u64,
    acc: Map<Word, StoreNode>,
)
    requires
        forall|k: Word| #[trigger] acc.dom().contains(k) ==> m.contains_key(k) && acc[k] == m[k],
    ensures
        ({
            let acc2 = record_walk(m, node, depth, index, acc);
            &&& forall|k: Word| #[trigger]
                acc2.dom().contains(k) ==> m.contains_key(k) && acc2[k] == m[k]
            &&& forall|k: Word| #[trigger] acc.dom().contains(k) ==> acc2.contains_key(k)
            &&& forall|k: Word| #[trigger]
                visited(m, node, depth, index).contains(k) ==> acc2.contains_key(k)
        }),
    decreases depth,
{
    if depth == 0 || !m.contains_key(node) {
        assert(visited(m, node, depth, index) =~= Set::<Word>::empty());
        assert(record_walk(m, node, depth, index, acc) == acc);
    } else {
        let child = walk_child(m, node, depth, index);
        let acc1 = crate::kv::record_read(m, node, acc);
        assert forall|k: Word| #[trigger]
            acc1.dom().contains(k) implies m.contains_key(k) && acc1[k] == m[k] by {
            if acc.dom().contains(k) {
                assert(m.contains_key(k) && acc[k] == m[k]);
            }
        }
        lemma_record_walk_covers(m, child, (depth - 1) as u8, index, acc1);
        let acc2 = record_walk(m, node, depth, index, acc);
        assert(acc2 == record_walk(m, child, (depth - 1) as u8, index, acc1));
        assert forall|k: Word| #[trigger] acc.dom().contains(k) implies acc2.contains_key(k) by {
            assert(acc1.dom().contains(k));
        }
        assert forall|k: Word| #[trigger]
            visited(m, node, depth, index).contains(k) implies acc2.contains_key(k) by {
            if k == node {
                assert(acc1.dom().contains(node));
            } else {
                assert(visited(m, child, (depth - 1) as u8, index).contains(k));
            }
        }
    }
}

/// Replay law for a recorded walk, combining the two laws above: after
/// a successful walk is recorded, the same walk against the recorded
/// subset alone returns the same result.
pub proof fn lemma_recorded_walk_replays(
    m: Map<Word, StoreNode>,
    node: Word,
    depth: u8,
    index: u64,
    acc: Map<Word, StoreNode>,
)
    requires
        lookup(m, node, depth, index) is Ok,
        forall|k: Word| #[trigger] acc.dom().contains(k) ==> m.contains_key(k) && acc[k] == m[k],
    ensures
        lookup(record_walk(m, node, depth, index, acc), node, depth, index) == lookup(
            m,
            node,
            depth,
            index,
        ),
{
    lemma_record_walk_covers(m, node, depth, index, acc);
    let acc2 = record_walk(m, node, depth, index, acc);
    assert forall|k: Word| #[trigger]
        visited(m, node, depth, index).contains(k) implies acc2.contains_key(k) && acc2[k]
        == m[k] by {
        assert(acc2.dom().contains(k));
    }
    lemma_lookup_replay(m, acc2, node, depth, index);
}


/// True when every entry of `acc` also stands in `m` with the same
/// value: the recorded subset never contradicts the backing store.
pub open spec fn map_agrees<KK, VV>(acc: Map<KK, VV>, m: Map<KK, VV>) -> bool {
    forall|k: KK| #[trigger] acc.dom().contains(k) ==> m.dom().contains(k) && acc[k] == m[k]
}

/// One advice-map operation of a session: a read of a key (a
/// map-reference push) or an overwrite insert (`insert_into_map`).
pub enum MapOp<KK, VV> {
    Read(KK),
    Write(KK, VV),
}

/// True when every read of the session hits: a recorded execution that
/// completed without a key-not-found error performed exactly such a
/// session.
pub open spec fn ops_ok<KK, VV>(m: Map<KK, VV>, ops: Seq<MapOp<KK, VV>>) -> bool
    decreases ops.len(),
{
    if ops.len() == 0 {
        true
    } else {
        match ops[0] {
            MapOp::Read(k) => m.contains_key(k) && ops_ok(m, ops.drop_first()),
            MapOp::Write(k, v) => ops_ok(m.insert(k, v), ops.drop_first()),
        }
    }
}

/// The values the session's reads return, in order.
pub open spec fn ops_outputs<KK, VV>(m: Map<KK, VV>, ops: Seq<MapOp<KK, VV>>) -> Seq<VV>
    recommends
        ops_ok(m, ops),
    decreases ops.len(),
{
    if ops.len() == 0 {
        Seq::empty()
    } else {
        match ops[0] {
            MapOp::Read(k) => seq![m[k]] + ops_outputs(m, ops.drop_first()),
            MapOp::Write(k, v) => ops_outputs(m.insert(k, v), ops.drop_first()),
        }
    }
}

/// The accessed set a recording backend holds after the session: each
/// read records the pair it found unless the key was recorded before;
/// writes record nothing.
pub open spec fn ops_record<KK, VV>(
    m: Map<KK, VV>,
    acc: Map<KK, VV>,
    ops: Seq<MapOp<KK, VV>>,
) -> Map<KK, VV>
    decreases ops.len(),
{
    if ops.len() == 0 {
        acc
    } else {
        match ops[0] {
            MapOp::Read(k) => ops_record(m, crate::kv::record_read(m, k, acc), ops.drop_first()),
            MapOp::Write(k, v) => ops_record(m.insert(k, v), acc, ops.drop_first()),
        }
    }
}

/// The replay simulation relation: before every read the replay map
/// holds the key with the value the recorded run saw, once the writes
/// made so far are replayed on both sides.
spec fn sync<KK, VV>(rp: Map<KK, VV>, m: Map<KK, VV>, ops: Seq<MapOp<KK, VV>>) -> bool
    decreases ops.len(),
{
    if ops.len() == 0 {
        true
    } else {
        match ops[0] {
            MapOp::Read(k) => rp.contains_key(k) && rp[k] == m[k] && sync(rp, m, ops.drop_first()),
            MapOp::Write(k, v) => sync(rp.insert(k, v), m.insert(k, v), ops.drop_first()),
        }
    }
}

proof fn lemma_sync_outputs<KK, VV>(rp: Map<KK, VV>, m: Map<KK, VV>, ops: Seq<MapOp<KK, VV>>)
    requires
        ops_ok(m, ops),
        sync(rp, m, ops),
    ensures
        ops_ok(rp, ops),
        ops_outputs(rp, ops) == ops_outputs(m, ops),
    decreases ops.len(),
{
    if ops.len() > 0 {
        match ops[0] {
            MapOp::Read(k) => {
                lemma_sync_outputs(rp, m, ops.drop_first());
            },
            MapOp::Write(k, v) => {
                lemma_sync_outputs(rp.insert(k, v), m.insert(k, v), ops.drop_first());
            },
        }
    }
}

proof fn lemma_sync_weaken<KK, VV>(
    rp: Map<KK, VV>,
    m: Map<KK, VV>,
    ops: Seq<MapOp<KK, VV>>,
    k: KK,
    v: VV,
)
    requires
        sync(rp, m, ops),
        m.contains_key(k),
        m[k] == v,
    ensures
        sync(rp.insert(k, v), m, ops),
    decreases ops.len(),
{
    if ops.len() > 0 {
        match ops[0] {
            MapOp::Read(k2) => {
                lemma_sync_weaken(rp, m, ops.drop_first(), k, v);
            },
            MapOp::Write(k2, v2) => {
                if k2 == k {
                    assert(rp.insert(k, v).insert(k2, v2) =~= rp.insert(k2, v2));
                } else {
                    lemma_sync_weaken(rp.insert(k2, v2), m.insert(k2, v2), ops.drop_first(), k, v);
                    assert(rp.insert(k, v).insert(k2, v2) =~= rp.insert(k2, v2).insert(k, v));
                }
            },
        }
    }
}

proof fn lemma_record_keeps_entry<KK, VV>(
    m: Map<KK, VV>,
    acc: Map<KK, VV>,
    ops: Seq<MapOp<KK, VV>>,
    k0: KK,
)
    requires
        acc.contains_key(k0),
    ensures
        ops_record(m, acc, ops).contains_key(k0),
        ops_record(m, acc, ops)[k0] == acc[k0],
    decreases ops.len(),
{
    if ops.len() > 0 {
        match ops[0] {
            MapOp::Read(k) => {
                lemma_record_keeps_entry(m, crate::kv::record_read(m, k, acc), ops.drop_first(), k0);
            },
            MapOp::Write(k, v) => {
                lemma_record_keeps_entry(m.insert(k, v), acc, ops.drop_first(), k0);
            },
        }
    }
}

proof fn lemma_record_agrees_off_key<KK, VV>(
    m: Map<KK, VV>,
    acc1: Map<KK, VV>,
    acc2: Map<KK, VV>,
    ops: Seq<MapOp<KK, VV>>,
    k: KK,
)
    requires
        forall|k2: KK|
            k2 != k ==> (#[trigger] acc1.dom().contains(k2) <==> acc2.dom().contains(k2)),
        forall|k2: KK| k2 != k && #[trigger] acc1.dom().contains(k2) ==> acc1[k2] == acc2[k2],
    ensures
        forall|k2: KK|
            k2 != k ==> (#[trigger] ops_record(m, acc1, ops).dom().contains(k2) <==> ops_record(
                m,
                acc2,
                ops,
            ).dom().contains(k2)),
        forall|k2: KK|
            k2 != k && #[trigger] ops_record(m, acc1, ops).dom().contains(k2) ==> ops_record(
                m,
                acc1,
                ops,
            )[k2] == ops_record(m, acc2, ops)[k2],
    decreases ops.len(),
{
    if ops.len() > 0 {
        let rest = ops.drop_first();
        match ops[0] {
            MapOp::Read(k3) => {
                let b1 = crate::kv::record_read(m, k3, acc1);
                let b2 = crate::kv::record_read(m, k3, acc2);
                assert forall|k2: KK|
                    k2 != k implies (#[trigger] b1.dom().contains(k2) <==> b2.dom().contains(
                    k2,
                )) by {
                    assert(acc1.dom().contains(k2) <==> acc2.dom().contains(k2));
                }
                assert forall|k2: KK|
                    k2 != k && #[trigger] b1.dom().contains(k2) implies b1[k2] == b2[k2] by {
                    assert(acc1.dom().contains(k2) <==> acc2.dom().contains(k2));
                    if acc1.dom().contains(k2) {
                        assert(acc1[k2] == acc2[k2]);
                    }
                }
                lemma_record_agrees_off_key(m, b1, b2, rest, k);
                let r1 = ops_record(m, b1, rest);
                let r2 = ops_record(m, b2, rest);
                assert(ops_record(m, acc1, ops) == r1);
                assert(ops_record(m, acc2, ops) == r2);
                assert forall|k2: KK|
                    k2 != k implies (#[trigger] ops_record(m, acc1, ops).dom().contains(k2)
                    <==> ops_record(m, acc2, ops).dom().contains(k2)) by {
                    assert(r1.dom().contains(k2) <==> r2.dom().contains(k2));
                }
                assert forall|k2: KK|
                    k2 != k && #[trigger] ops_record(m, acc1, ops).dom().contains(k2) implies
                    ops_record(m, acc1, ops)[k2] == ops_record(m, acc2, ops)[k2] by {
                    assert(r1.dom().contains(k2));
                    assert(r1[k2] == r2[k2]);
                }
            },
            MapOp::Write(k3, v3) => {
                let m1 = m.insert(k3, v3);
                lemma_record_agrees_off_key(m1, acc1, acc2, rest, k);
                let r1 = ops_record(m1, acc1, rest);
                let r2 = ops_record(m1, acc2, rest);
                assert(ops_record(m, acc1, ops) == r1);
                assert(ops_record(m, acc2, ops) == r2);
                assert forall|k2: KK|
                    k2 != k implies (#[trigger] ops_record(m, acc1, ops).dom().contains(k2)
                    <==> ops_record(m, acc2, ops).dom().contains(k2)) by {
                    assert(r1.dom().contains(k2) <==> r2.dom().contains(k2));
                }
                assert forall|k2: KK|
                    k2 != k && #[trigger] ops_record(m, acc1, ops).dom().contains(k2) implies
                    ops_record(m, acc1, ops)[k2] == ops_record(m, acc2, ops)[k2] by {
                    assert(r1.dom().contains(k2));
                    assert(r1[k2] == r2[k2]);
                }
            },
        }
    }
}

proof fn lemma_record_then_replay<KK, VV>(
    m: Map<KK, VV>,
    acc: Map<KK, VV>,
    ops: Seq<MapOp<KK, VV>>,
)
    requires
        ops_ok(m, ops),
        map_agrees(acc, m),
    ensures
        sync(ops_record(m, acc, ops), m, ops),
    decreases ops.len(),
{
    if ops.len() > 0 {
        match ops[0] {
            MapOp::Read(k) => {
                let acc1 = crate::kv::record_read(m, k, acc);
                assert forall|k2: KK| #[trigger]
                    acc1.dom().contains(k2) implies m.dom().contains(k2) && acc1[k2] == m[k2] by {
                    if acc.dom().contains(k2) {
                        assert(m.dom().contains(k2) && acc[k2] == m[k2]);
                    }
                }
                lemma_record_then_replay(m, acc1, ops.drop_first());
                assert(acc1.dom().contains(k) && acc1[k] == m[k]) by {
                    if acc.dom().contains(k) {
                        assert(acc[k] == m[k]);
                    }
                }
                lemma_record_keeps_entry(m, acc1, ops.drop_first(), k);
            },
            MapOp::Write(k, v) => {
                let m1 = m.insert(k, v);
                let acc_r = acc.remove(k);
                assert forall|k2: KK| #[trigger]
                    acc_r.dom().contains(k2) implies m1.dom().contains(k2) && acc_r[k2]
                    == m1[k2] by {
                    assert(acc.dom().contains(k2));
                    assert(m.dom().contains(k2) && acc[k2] == m[k2]);
                }
                lemma_record_then_replay(m1, acc_r, ops.drop_first());
                let a_full = ops_record(m1, acc, ops.drop_first());
                let a_trim = ops_record(m1, acc_r, ops.drop_first());
                lemma_sync_weaken(a_trim, m1, ops.drop_first(), k, v);
                assert forall|k2: KK|
                    k2 != k implies (#[trigger] acc_r.dom().contains(k2) <==> acc.dom().contains(
                    k2,
                )) by {}
                lemma_record_agrees_off_key(m1, acc, acc_r, ops.drop_first(), k);
                assert(a_full.insert(k, v) =~= a_trim.insert(k, v));
                assert(sync(a_full.insert(k, v), m1, ops.drop_first()));
            },
        }
    }
}

/// Recording round-trip law for the advice map: take any session of
/// reads and overwrite inserts in which every read hits. Record it
/// against the full map, starting from an empty accessed set. Then the
/// same session, replayed against the accessed subset alone, performs
/// every read successfully and returns the same value sequence — the
/// replay bundle is sufficient, even though it holds only the entries
/// the recorded run actually read.
pub proof fn lemma_map_recording_round_trip<KK, VV>(m: Map<KK, VV>, ops: Seq<MapOp<KK, VV>>)
    requires
        ops_ok(m, ops),
    ensures
        ops_ok(ops_record(m, Map::<KK, VV>::empty(), ops), ops),
        ops_outputs(ops_record(m, Map::<KK, VV>::empty(), ops), ops) == ops_outputs(m, ops),
{
    let acc0 = Map::<KK, VV>::empty();
    lemma_record_then_replay(m, acc0, ops);
    lemma_sync_outputs(ops_record(m, acc0, ops), m, ops);
}


/// One Merkle-store operation of a session: a node read
/// (`get_tree_node`) or a root merge (`merge_roots`).
pub enum StoreOp {
    ReadNode(Word, u8, u64),
    MergeRoots(Word, Word),
}

/// True when every operation of the session succeeds: each read
/// resolves and each merge names two known roots.
pub open spec fn store_ops_ok(m: Map<Word, StoreNode>, ops: Seq<StoreOp>) -> bool
    decreases ops.len(),
{
    if ops.len() == 0 {
        true
    } else {
        match ops[0] {
            StoreOp::ReadNode(root, depth, index) => node_at(m, root, depth, index) is Ok
                && store_ops_ok(m, ops.drop_first()),
            StoreOp::MergeRoots(l, r) => m.contains_key(l) && m.contains_key(r) && store_ops_ok(
                m.insert(rpo_merge(l, r), (StoreNode { left: l, right: r })),
                ops.drop_first(),
            ),
        }
    }
}

/// True when no merge of the session writes its composite root over an
/// existing node with different children. The digest is
/// collision-resistant, so real sessions satisfy this; it cannot be
/// proved of the digest itself.
pub open spec fn store_ops_fresh(m: Map<Word, StoreNode>, ops: Seq<StoreOp>) -> bool
    decreases ops.len(),
{
    if ops.len() == 0 {
        true
    } else {
        match ops[0] {
            StoreOp::ReadNode(root, depth, index) => store_ops_fresh(m, ops.drop_first()),
            StoreOp::MergeRoots(l, r) => ({
                let d = rpo_merge(l, r);
                let n = (StoreNode { left: l, right: r });
                &&& (m.contains_key(d) ==> m[d] == n)
                &&& store_ops_fresh(m.insert(d, n), ops.drop_first())
            }),
        }
    }
}

/// The words the session returns, in order: each read's node digest and
/// each merge's new root digest.
pub open spec fn store_ops_outputs(m: Map<Word, StoreNode>, ops: Seq<StoreOp>) -> Seq<Word>
    recommends
        store_ops_ok(m, ops),
    decreases ops.len(),
{
    if ops.len() == 0 {
        Seq::empty()
    } else {
        match ops[0] {
            StoreOp::ReadNode(root, depth, index) => seq![node_at(m, root, depth, index)->Ok_0.0]
                + store_ops_outputs(m, ops.drop_first()),
            StoreOp::MergeRoots(l, r) => seq![rpo_merge(l, r)] + store_ops_outputs(
                m.insert(rpo_merge(l, r), (StoreNode { left: l, right: r })),
                ops.drop_first(),
            ),
        }
    }
}

/// The accessed set a recording store backend holds after the session:
/// a read records the root check and the walk, a merge records its two
/// root checks; the merge's own insert is not recorded.
pub open spec fn store_ops_record(
    m: Map<Word, StoreNode>,
    acc: Map<Word, StoreNode>,
    ops: Seq<StoreOp>,
) -> Map<Word, StoreNode>
    decreases ops.len(),
{
    if ops.len() == 0 {
        acc
    } else {
        match ops[0] {
            StoreOp::ReadNode(root, depth, index) => store_ops_record(
                m,
                record_walk(m, root, depth, index, crate::kv::record_read(m, root, acc)),
                ops.drop_first(),
            ),
            StoreOp::MergeRoots(l, r) => store_ops_record(
                m.insert(rpo_merge(l, r), (StoreNode { left: l, right: r })),
                crate::kv::record_read(m, r, crate::kv::record_read(m, l, acc)),
                ops.drop_first(),
            ),
        }
    }
}

/// The store replay simulation relation: before every read the replay
/// table holds the root and every dereferenced node with the recorded
/// run's values, once the merges made so far are replayed on both
/// sides.
spec fn sync_store(rp: Map<Word, StoreNode>, m: Map<Word, StoreNode>, ops: Seq<StoreOp>) -> bool
    decreases ops.len(),
{
    if ops.len() == 0 {
        true
    } else {
        match ops[0] {
            StoreOp::ReadNode(root, depth, index) => rp.contains_key(root) && rp[root] == m[root]
                && (forall|k: Word| #[trigger]
                visited(m, root, depth, index).contains(k) ==> rp.contains_key(k) && rp[k] == m[k])
                && sync_store(rp, m, ops.drop_first()),
            StoreOp::MergeRoots(l, r) => rp.contains_key(l) && rp.contains_key(r) && sync_store(
                rp.insert(rpo_merge(l, r), (StoreNode { left: l, right: r })),
                m.insert(rpo_merge(l, r), (StoreNode { left: l, right: r })),
                ops.drop_first(),
            ),
        }
    }
}

proof fn lemma_store_sync_outputs(
    rp: Map<Word, StoreNode>,
    m: Map<Word, StoreNode>,
    ops: Seq<StoreOp>,
)
    requires
        store_ops_ok(m, ops),
        sync_store(rp, m, ops),
    ensures
        store_ops_ok(rp, ops),
        store_ops_outputs(rp, ops) == store_ops_outputs(m, ops),
    decreases ops.len(),
{
    if ops.len() > 0 {
        match ops[0] {
            StoreOp::ReadNode(root, depth, index) => {
                lemma_lookup_replay(m, rp, root, depth, index);
                lemma_store_sync_outputs(rp, m, ops.drop_first());
            },
            StoreOp::MergeRoots(l, r) => {
                let d = rpo_merge(l, r);
                let n = (StoreNode { left: l, right: r });
                lemma_store_sync_outputs(rp.insert(d, n), m.insert(d, n), ops.drop_first());
            },
        }
    }
}

proof fn lemma_store_sync_weaken(
    rp: Map<Word, StoreNode>,
    m: Map<Word, StoreNode>,
    ops: Seq<StoreOp>,
    k: Word,
    v: StoreNode,
)
    requires
        sync_store(rp, m, ops),
        m.contains_key(k),
        m[k] == v,
    ensures
        sync_store(rp.insert(k, v), m, ops),
    decreases ops.len(),
{
    if ops.len() > 0 {
        match ops[0] {
            StoreOp::ReadNode(root, depth, index) => {
                assert forall|k2: Word| #[trigger]
                    visited(m, root, depth, index).contains(k2) implies rp.insert(
                    k,
                    v,
                ).contains_key(k2) && rp.insert(k, v)[k2] == m[k2] by {
                    if k2 != k {
                        assert(rp.contains_key(k2) && rp[k2] == m[k2]);
                    }
                }
                lemma_store_sync_weaken(rp, m, ops.drop_first(), k, v);
            },
            StoreOp::MergeRoots(l, r) => {
                let d = rpo_merge(l, r);
                let n = (StoreNode { left: l, right: r });
                if d == k {
                    assert(rp.insert(k, v).insert(d, n) =~= rp.insert(d, n));
                } else {
                    lemma_store_sync_weaken(rp.insert(d, n), m.insert(d, n), ops.drop_first(), k, v);
                    assert(rp.insert(k, v).insert(d, n) =~= rp.insert(d, n).insert(k, v));
                }
            },
        }
    }
}

proof fn lemma_record_walk_keeps(
    m: Map<Word, StoreNode>,
    node: Word,
    depth: u8,
    index: u64,
    acc: Map<Word, StoreNode>,
    k0: Word,
)
    requires
        acc.contains_key(k0),
    ensures
        record_walk(m, node, depth, index, acc).contains_key(k0),
        record_walk(m, node, depth, index, acc)[k0] == acc[k0],
    decreases depth,
{
    if depth > 0 && m.contains_key(node) {
        lemma_record_walk_keeps(
            m,
            walk_child(m, node, depth, index),
            (depth - 1) as u8,
            index,
            crate::kv::record_read(m, node, acc),
            k0,
        );
    }
}

proof fn lemma_store_record_keeps(
    m: Map<Word, StoreNode>,
    acc: Map<Word, StoreNode>,
    ops: Seq<StoreOp>,
    k0: Word,
)
    requires
        acc.contains_key(k0),
    ensures
        store_ops_record(m, acc, ops).contains_key(k0),
        store_ops_record(m, acc, ops)[k0] == acc[k0],
    decreases ops.len(),
{
    if ops.len() > 0 {
        match ops[0] {
            StoreOp::ReadNode(root, depth, index) => {
                let acc1 = crate::kv::record_read(m, root, acc);
                lemma_record_walk_keeps(m, root, depth, index, acc1, k0);
                lemma_store_record_keeps(
                    m,
                    record_walk(m, root, depth, index, acc1),
                    ops.drop_first(),
                    k0,
                );
            },
            StoreOp::MergeRoots(l, r) => {
                let acc2 = crate::kv::record_read(m, r, crate::kv::record_read(m, l, acc));
                lemma_store_record_keeps(
                    m.insert(rpo_merge(l, r), (StoreNode { left: l, right: r })),
                    acc2,
                    ops.drop_first(),
                    k0,
                );
            },
        }
    }
}

proof fn lemma_store_record_replay(
    m: Map<Word, StoreNode>,
    acc: Map<Word, StoreNode>,
    ops: Seq<StoreOp>,
)
    requires
        store_ops_ok(m, ops),
        store_ops_fresh(m, ops),
        map_agrees(acc, m),
    ensures
        sync_store(store_ops_record(m, acc, ops), m, ops),
    decreases ops.len(),
{
    if ops.len() > 0 {
        match ops[0] {
            StoreOp::ReadNode(root, depth, index) => {
                let acc1 = crate::kv::record_read(m, root, acc);
                assert forall|k2: Word| #[trigger]
                    acc1.dom().contains(k2) implies m.dom().contains(k2) && acc1[k2] == m[k2] by {
                    if acc.dom().contains(k2) {
                        assert(m.dom().contains(k2) && acc[k2] == m[k2]);
                    }
                }
                lemma_record_walk_covers(m, root, depth, index, acc1);
                let acc2 = record_walk(m, root, depth, index, acc1);
                lemma_store_record_replay(m, acc2, ops.drop_first());
                let accf = store_ops_record(m, acc2, ops.drop_first());
                assert(store_ops_record(m, acc, ops) == accf);
                assert(acc1.dom().contains(root));
                assert(acc2.contains_key(root));
                lemma_store_record_keeps(m, acc2, ops.drop_first(), root);
                assert(accf[root] == acc2[root] && acc2[root] == m[root]);
                assert forall|k: Word| #[trigger]
                    visited(m, root, depth, index).contains(k) implies accf.contains_key(k)
                    && accf[k] == m[k] by {
                    assert(acc2.contains_key(k));
                    lemma_store_record_keeps(m, acc2, ops.drop_first(), k);
                    assert(acc2.dom().contains(k));
                }
            },
            StoreOp::MergeRoots(l, r) => {
                let d = rpo_merge(l, r);
                let n = (StoreNode { left: l, right: r });
                let m1 = m.insert(d, n);
                let acc1 = crate::kv::record_read(m, l, acc);
                let acc2 = crate::kv::record_read(m, r, acc1);
                assert forall|k2: Word| #[trigger]
                    acc2.dom().contains(k2) implies m1.dom().contains(k2) && acc2[k2]
                    == m1[k2] by {
                    if acc.dom().contains(k2) {
                        assert(m.dom().contains(k2) && acc[k2] == m[k2]);
                    }
                    assert(m.dom().contains(k2));
                    if k2 == d {
                        assert(m[d] == n);
                    }
                }
                lemma_store_record_replay(m1, acc2, ops.drop_first());
                let accf = store_ops_record(m1, acc2, ops.drop_first());
                assert(store_ops_record(m, acc, ops) == accf);
                assert(acc1.dom().contains(l));
                assert(acc2.dom().contains(l) && acc2.dom().contains(r));
                lemma_store_record_keeps(m1, acc2, ops.drop_first(), l);
                lemma_store_record_keeps(m1, acc2, ops.drop_first(), r);
                lemma_store_sync_weaken(accf, m1, ops.drop_first(), d, n);
            },
        }
    }
}

/// Recording round-trip law for the Merkle store: take any session of
/// node reads and root merges in which every operation succeeds and no
/// merged root collides with a differing existing node. Record it
/// against the full store, starting from an empty accessed set. Then
/// the same session, replayed against the accessed subset alone,
/// succeeds throughout and returns the same digests — the replay
/// bundle is sufficient, even though it holds only the nodes the
/// recorded run actually walked.
pub proof fn lemma_store_recording_round_trip(m: Map<Word, StoreNode>, ops: Seq<StoreOp>)
    requires
        store_ops_ok(m, ops),
        store_ops_fresh(m, ops),
    ensures
        store_ops_ok(store_ops_record(m, Map::<Word, StoreNode>::empty(), ops), ops),
        store_ops_outputs(store_ops_record(m, Map::<Word, StoreNode>::empty(), ops), ops)
            == store_ops_outputs(m, ops),
{
    let acc0 = Map::<Word, StoreNode>::empty();
    lemma_store_record_replay(m, acc0, ops);
    lemma_store_sync_outputs(store_ops_record(m, acc0, ops), m, ops);
}

} // verus!
