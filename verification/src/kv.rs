use vstd::prelude::*;
use crate::felt::Felt;

verus! {

/// A key usable by the key-value stores: it can be copied, and it carries
/// an executable equality test that agrees with equality of views.
pub trait KvKey: View + Sized {
    fn key_eq(&self, other: &Self) -> (b: bool)
        ensures
            b == (self@ == other@);

    fn key_dup(&self) -> (r: Self)
        ensures
            r@ == self@;
}

/// A value usable by the key-value stores: it can be copied.
pub trait KvVal: View + Sized {
    fn val_dup(&self) -> (r: Self)
        ensures
            r@ == self@;
}

/// The generic mapping capability behind the advice map and the Merkle
/// node table. `contents` is the live mapping; `accessed` is the subset a
/// recording implementation has seen a successful read of (a plain
/// implementation keeps it empty). Storage is selected at construction:
/// the algorithms above this trait never branch on which implementation
/// they hold.
pub trait KvMap<K: KvKey, V: KvVal>: Sized {
    spec fn contents(&self) -> Map<K::V, V::V>;

    spec fn accessed(&self) -> Map<K::V, V::V>;

    spec fn recording() -> bool;

    fn empty_map() -> (r: Self)
        ensures
            r.contents() == Map::<K::V, V::V>::empty(),
            r.accessed() == Map::<K::V, V::V>::empty();

    /// Looks a key up. A recording implementation also copies the pair
    /// into the accessed set on a hit, unless the key was already
    /// recorded: recording the same key twice is a no-op beyond the first.
    fn get(&mut self, key: &K) -> (r: Option<V>)
        ensures
            final(self).contents() == old(self).contents(),
            (match r {
                Some(v) => old(self).contents().contains_key(key@)
                    && v@ == old(self).contents()[key@],
                None => !old(self).contents().contains_key(key@),
            }),
            final(self).accessed() == (
                if Self::recording() && r is Some && !old(self).accessed().contains_key(key@) {
                    old(self).accessed().insert(key@, old(self).contents()[key@])
                } else {
                    old(self).accessed()
                }
            );

    /// Unconditional overwrite insert: the last write for a key wins.
    /// Inserts are not recorded; only reads are.
    fn insert(&mut self, key: K, value: V)
        ensures
            final(self).contents() == old(self).contents().insert(key@, value@),
            final(self).accessed() == old(self).accessed();

    /// Read-only membership test for diagnostics; records nothing.
    fn contains(&self, key: &K) -> (b: bool)
        ensures
            b == self.contents().contains_key(key@);
}

/// One recording step: a successful read of `k` copies the pair into the
/// accessed collection unless the key was recorded before.
pub open spec fn record_read<KV, VV>(m: Map<KV, VV>, k: KV, acc: Map<KV, VV>) -> Map<KV, VV> {
    if m.contains_key(k) && !acc.contains_key(k) {
        acc.insert(k, m[k])
    } else {
        acc
    }
}

/// The mapping described by a sequence of entries where the latest entry
/// for a key wins.
pub open spec fn assoc_view<K: View, V: View>(s: Seq<(K, V)>) -> Map<K::V, V::V>
    decreases s.len(),
{
    if s.len() == 0 {
        Map::empty()
    } else {
        assoc_view(s.drop_last()).insert(s.last().0@, s.last().1@)
    }
}

pub proof fn lemma_assoc_absent<K: View, V: View>(s: Seq<(K, V)>, k: K::V)
    requires
        forall|i: int| 0 <= i < s.len() ==> s[i].0@ != k,
    ensures
        !assoc_view(s).contains_key(k),
    decreases s.len(),
{
    if s.len() > 0 {
        lemma_assoc_absent(s.drop_last(), k);
    }
}

pub proof fn lemma_assoc_found<K: View, V: View>(s: Seq<(K, V)>, j: int)
    requires
        0 <= j < s.len(),
        forall|i: int| j < i < s.len() ==> s[i].0@ != s[j].0@,
    ensures
        assoc_view(s).contains_key(s[j].0@),
        assoc_view(s)[s[j].0@] == s[j].1@,
    decreases s.len(),
{
    if j < s.len() - 1 {
        lemma_assoc_found(s.drop_last(), j);
    }
}

/// The plain storage backend: an associative sequence of entries where
/// lookups find the latest entry for a key.
pub struct PlainMap<K, V> {
    entries: Vec<(K, V)>,
}

impl<K: KvKey, V: KvVal> PlainMap<K, V> {
    /// Consumes the map and hands out its entries; the latest entry for a
    /// key still wins when the result is read as a mapping.
    pub fn into_entries(self) -> (r: Vec<(K, V)>)
        ensures
            assoc_view(r@) == self.contents(),
    {
        self.entries
    }
}

impl<K: KvKey, V: KvVal> KvMap<K, V> for PlainMap<K, V> {
    closed spec fn contents(&self) -> Map<K::V, V::V> {
        assoc_view(self.entries@)
    }

    open spec fn accessed(&self) -> Map<K::V, V::V> {
        Map::empty()
    }

    open spec fn recording() -> bool {
        false
    }

    fn empty_map() -> (r: Self) {
        PlainMap { entries: Vec::new() }
    }

    fn get(&mut self, key: &K) -> (r: Option<V>) {
        let mut i: usize = self.entries.len();
        while i > 0
            invariant
                i <= self.entries.len(),
                forall|j: int| i <= j < self.entries@.len() ==> self.entries@[j].0@ != key@,
            decreases i,
        {
            i = i - 1;
            let hit = self.entries[i].0.key_eq(key);
            if hit {
                let v = self.entries[i].1.val_dup();
                proof {
                    lemma_assoc_found(self.entries@, i as int);
                }
                return Some(v);
            }
        }
        proof {
            lemma_assoc_absent(self.entries@, key@);
        }
        None
    }

    fn insert(&mut self, key: K, value: V) {
        proof {
            assert(self.entries@.push((key, value)).drop_last() =~= self.entries@);
        }
        self.entries.push((key, value));
    }

    fn contains(&self, key: &K) -> (b: bool) {
        let mut i: usize = self.entries.len();
        while i > 0
            invariant
                i <= self.entries.len(),
                forall|j: int| i <= j < self.entries@.len() ==> self.entries@[j].0@ != key@,
            decreases i,
        {
            i = i - 1;
            let hit = self.entries[i].0.key_eq(key);
            if hit {
                proof {
                    lemma_assoc_found(self.entries@, i as int);
                }
                return true;
            }
        }
        proof {
            lemma_assoc_absent(self.entries@, key@);
        }
        false
    }
}

/// The recording storage backend: a plain backing map plus a second plain
/// map that accumulates every entry a read actually touched. The accessed
/// subset, extracted with `into_proof`, is what a replay of the same
/// execution needs in place of the full backing data.
pub struct RecordingMap<K, V> {
    inner: PlainMap<K, V>,
    touched: PlainMap<K, V>,
}

impl<K: KvKey, V: KvVal> RecordingMap<K, V> {
    /// Consumes the wrapper and returns only the accessed subset.
    pub fn into_proof(self) -> (r: PlainMap<K, V>)
        ensures
            r.contents() == self.accessed(),
    {
        self.touched
    }
}

impl<K: KvKey, V: KvVal> KvMap<K, V> for RecordingMap<K, V> {
    closed spec fn contents(&self) -> Map<K::V, V::V> {
        self.inner.contents()
    }

    closed spec fn accessed(&self) -> Map<K::V, V::V> {
        self.touched.contents()
    }

    open spec fn recording() -> bool {
        true
    }

    fn empty_map() -> (r: Self) {
        RecordingMap { inner: PlainMap::empty_map(), touched: PlainMap::empty_map() }
    }

    fn get(&mut self, key: &K) -> (r: Option<V>) {
        let r = self.inner.get(key);
        match r {
            Some(v) => {
                let seen = self.touched.contains(key);
                if !seen {
                    self.touched.insert(key.key_dup(), v.val_dup());
                }
                Some(v)
            },
            None => None,
        }
    }

    fn insert(&mut self, key: K, value: V) {
        self.inner.insert(key, value);
    }

    fn contains(&self, key: &K) -> (b: bool) {
        self.inner.contains(key)
    }
}

impl KvKey for Vec<u8> {
    fn key_eq(&self, other: &Self) -> (b: bool) {
        if self.len() != other.len() {
            return false;
        }
        let mut i: usize = 0;
        while i < self.len()
            invariant
                i <= self.len(),
                self@.len() == other@.len(),
                forall|j: int| 0 <= j < i ==> self@[j] == other@[j],
            decreases self.len() - i,
        {
            if self[i] != other[i] {
                return false;
            }
            i = i + 1;
        }
        proof {
            assert(self@ =~= other@);
        }
        true
    }

    fn key_dup(&self) -> (r: Self) {
        let mut r: Vec<u8> = Vec::new();
        let mut i: usize = 0;
        while i < self.len()
            invariant
                i <= self.len(),
                r@ == self@.take(i as int),
            decreases self.len() - i,
        {
            r.push(self[i]);
            proof {
                assert(r@ =~= self@.take(i + 1));
            }
            i = i + 1;
        }
        proof {
            assert(r@ =~= self@);
        }
        r
    }
}

impl KvVal for Vec<Felt> {
    fn val_dup(&self) -> (r: Self) {
        let mut r: Vec<Felt> = Vec::new();
        let mut i: usize = 0;
        while i < self.len()
            invariant
                i <= self.len(),
                r@ == self@.take(i as int),
            decreases self.len() - i,
        {
            r.push(self[i]);
            proof {
                assert(r@ =~= self@.take(i + 1));
            }
            i = i + 1;
        }
        proof {
            assert(r@ =~= self@);
        }
        r
    }
}

} // verus!
