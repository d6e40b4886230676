use vstd::prelude::*;
use crate::felt::Felt;

verus! {

/// A word: exactly four field elements. Words carry hash digests, Merkle
/// nodes and packed values; a word also has a canonical 32-byte encoding
/// that serves as an advice-map key.
#[derive(Clone, Copy, Debug, PartialEq, Eq, Structural)]
pub struct Word(pub Felt, pub Felt, pub Felt, pub Felt);

/// The eight little-endian bytes of a canonical field-element value.
pub open spec fn u64_le_bytes(v: u64) -> Seq<u8> {
    seq![
        (v & 0xff) as u8,
        ((v >> 8) & 0xff) as u8,
        ((v >> 16) & 0xff) as u8,
        ((v >> 24) & 0xff) as u8,
        ((v >> 32) & 0xff) as u8,
        ((v >> 40) & 0xff) as u8,
        ((v >> 48) & 0xff) as u8,
        ((v >> 56) & 0xff) as u8,
    ]
}

/// The canonical 32-byte encoding of a word: each element's canonical
/// integer in little-endian byte order, first element first.
pub open spec fn word_bytes(w: Word) -> Seq<u8> {
    u64_le_bytes(w.0.value) + u64_le_bytes(w.1.value) + u64_le_bytes(w.2.value)
        + u64_le_bytes(w.3.value)
}

fn push_u64_le(bytes: &mut Vec<u8>, v: u64)
    ensures
        final(bytes)@ == old(bytes)@ + u64_le_bytes(v),
{
    proof {
        assert(v & 0xff < 256 && (v >> 8) & 0xff < 256 && (v >> 16) & 0xff < 256
            && (v >> 24) & 0xff < 256 && (v >> 32) & 0xff < 256 && (v >> 40) & 0xff < 256
            && (v >> 48) & 0xff < 256 && (v >> 56) & 0xff < 256) by (bit_vector);
    }
    bytes.push((v & 0xff) as u8);
    bytes.push(((v >> 8) & 0xff) as u8);
    bytes.push(((v >> 16) & 0xff) as u8);
    bytes.push(((v >> 24) & 0xff) as u8);
    bytes.push(((v >> 32) & 0xff) as u8);
    bytes.push(((v >> 40) & 0xff) as u8);
    bytes.push(((v >> 48) & 0xff) as u8);
    bytes.push(((v >> 56) & 0xff) as u8);
    proof {
        assert(bytes@ =~= old(bytes)@ + u64_le_bytes(v));
    }
}

impl Word {
    /// Returns the canonical, deterministic 32-byte encoding of this word.
    /// Equal words always encode to equal bytes, and distinct words to
    /// distinct bytes (`lemma_word_bytes_injective`), so the encoding is a
    /// sound map key.
    pub fn into_bytes(self) -> (r: Vec<u8>)
        ensures
            r@ == word_bytes(self),
    {
        let mut bytes: Vec<u8> = Vec::new();
        push_u64_le(&mut bytes, self.0.value);
        push_u64_le(&mut bytes, self.1.value);
        push_u64_le(&mut bytes, self.2.value);
        push_u64_le(&mut bytes, self.3.value);
        proof {
            assert(bytes@ =~= word_bytes(self));
        }
        bytes
    }
}

proof fn lemma_u64_le_bytes_injective(x: u64, y: u64)
    requires
        u64_le_bytes(x) == u64_le_bytes(y),
    ensures
        x == y,
{
    assert(u64_le_bytes(x)[0] == u64_le_bytes(y)[0]);
    assert(u64_le_bytes(x)[1] == u64_le_bytes(y)[1]);
    assert(u64_le_bytes(x)[2] == u64_le_bytes(y)[2]);
    assert(u64_le_bytes(x)[3] == u64_le_bytes(y)[3]);
    assert(u64_le_bytes(x)[4] == u64_le_bytes(y)[4]);
    assert(u64_le_bytes(x)[5] == u64_le_bytes(y)[5]);
    assert(u64_le_bytes(x)[6] == u64_le_bytes(y)[6]);
    assert(u64_le_bytes(x)[7] == u64_le_bytes(y)[7]);
    assert(x == y) by (bit_vector)
        requires
            (x & 0xff) as u8 == (y & 0xff) as u8,
            ((x >> 8) & 0xff) as u8 == ((y >> 8) & 0xff) as u8,
            ((x >> 16) & 0xff) as u8 == ((y >> 16) & 0xff) as u8,
            ((x >> 24) & 0xff) as u8 == ((y >> 24) & 0xff) as u8,
            ((x >> 32) & 0xff) as u8 == ((y >> 32) & 0xff) as u8,
            ((x >> 40) & 0xff) as u8 == ((y >> 40) & 0xff) as u8,
            ((x >> 48) & 0xff) as u8 == ((y >> 48) & 0xff) as u8,
            ((x >> 56) & 0xff) as u8 == ((y >> 56) & 0xff) as u8,
    ;
}

/// The canonical encoding separates words: two words with the same encoding
/// are the same word. Together with determinism of the encoding this makes
/// keying the advice map by encoded bytes equivalent to keying it by words.
pub proof fn lemma_word_bytes_injective(a: Word, b: Word)
    requires
        word_bytes(a) == word_bytes(b),
    ensures
        a == b,
{
    assert(u64_le_bytes(a.0.value) =~= word_bytes(a).subrange(0, 8));
    assert(u64_le_bytes(a.1.value) =~= word_bytes(a).subrange(8, 16));
    assert(u64_le_bytes(a.2.value) =~= word_bytes(a).subrange(16, 24));
    assert(u64_le_bytes(a.3.value) =~= word_bytes(a).subrange(24, 32));
    assert(u64_le_bytes(b.0.value) =~= word_bytes(b).subrange(0, 8));
    assert(u64_le_bytes(b.1.value) =~= word_bytes(b).subrange(8, 16));
    assert(u64_le_bytes(b.2.value) =~= word_bytes(b).subrange(16, 24));
    assert(u64_le_bytes(b.3.value) =~= word_bytes(b).subrange(24, 32));
    lemma_u64_le_bytes_injective(a.0.value, b.0.value);
    lemma_u64_le_bytes_injective(a.1.value, b.1.value);
    lemma_u64_le_bytes_injective(a.2.value, b.2.value);
    lemma_u64_le_bytes_injective(a.3.value, b.3.value);
}

} // verus!
