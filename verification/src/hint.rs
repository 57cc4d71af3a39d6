//! Hints: what a prover records for a squeeze so that a script can rebuild the
//! drawn values from the raw hash with one equality check.

use crate::encoding::{encode_word, encoding_at, magnitude_at, reduce, reduce_magnitude, window, word_magnitude};
use crate::field::M31;
use vstd::prelude::*;

verus! {

/// The hint for drawing words from a 32-byte hash: the native encoding of each
/// drawn word, and the bytes of the hash that no word consumed.
#[derive(Clone, Debug)]
pub struct DrawHints {
    /// One native integer encoding per drawn word, first word first.
    pub encodings: Vec<Vec<u8>>,
    /// The rest of the hash; empty when the words use all of it.
    pub remainder: Vec<u8>,
}

impl DrawHints {
    /// The encodings as byte strings.
    pub open spec fn encodings_view(&self) -> Seq<Seq<u8>> {
        Seq::new(self.encodings@.len(), |i: int| self.encodings@[i]@)
    }

    /// Whether the hint has the shape of a hint for `n` words: `n` encodings and
    /// a remainder of `32 - 4n` bytes.
    pub open spec fn has_shape(&self, n: nat) -> bool {
        self.encodings@.len() == n && self.remainder@.len() == 32 - 4 * n
    }
}

/// The encodings that belong to the first `n` words of `hash`.
pub open spec fn hint_encodings(hash: Seq<u8>, n: nat) -> Seq<Seq<u8>> {
    Seq::new(n, |i: int| encode_word(window(hash, i)))
}

/// The bytes of `hash` behind its first `n` words.
pub open spec fn hint_remainder(hash: Seq<u8>, n: nat) -> Seq<u8> {
    hash.subrange(4 * (n as int), 32)
}

/// The field elements that the first `n` words of `hash` stand for.
pub open spec fn hint_values(hash: Seq<u8>, n: nat) -> Seq<M31> {
    Seq::new(n, |i: int| M31(reduce(word_magnitude(window(hash, i))) as u32))
}

/// Draws `N` field elements from a hash and records the hint for them.
pub fn generate_hints<const N: usize>(hash: &[u8; 32]) -> (r: (Vec<M31>, DrawHints))
    requires
        N <= 8,
    ensures
        r.0@ == hint_values(hash@, N as nat),
        r.1.encodings_view() == hint_encodings(hash@, N as nat),
        r.1.remainder@ == hint_remainder(hash@, N as nat),
        r.1.has_shape(N as nat),
        forall|i: int| 0 <= i < N ==> (#[trigger] r.0@[i]).is_reduced(),
{
    let mut values: Vec<M31> = Vec::new();
    let mut encodings: Vec<Vec<u8>> = Vec::new();
    let mut i: usize = 0;
    while i < N
        invariant
            i <= N <= 8,
            values@.len() == i,
            encodings@.len() == i,
            forall|j: int| 0 <= j < i ==> (#[trigger] values@[j]) == hint_values(hash@, N as nat)[j],
            forall|j: int| 0 <= j < i ==> (#[trigger] encodings@[j])@ == encode_word(window(hash@, j)),
            forall|j: int| 0 <= j < i ==> (#[trigger] values@[j]).is_reduced(),
        decreases N - i,
    {
        let m: u32 = magnitude_at(hash, 4 * i);
        values.push(M31(reduce_magnitude(m)));
        encodings.push(encoding_at(hash, 4 * i));
        i += 1;
    }
    let mut remainder: Vec<u8> = Vec::new();
    let mut k: usize = 4 * N;
    while k < 32
        invariant
            4 * N <= k <= 32,
            remainder@ == hash@.subrange(4 * N, k as int),
        decreases 32 - k,
    {
        remainder.push(hash[k]);
        assert(remainder@ =~= hash@.subrange(4 * N, k + 1));
        k += 1;
    }
    let hints = DrawHints { encodings, remainder };
    assert(values@ =~= hint_values(hash@, N as nat));
    assert(hints.encodings_view() =~= hint_encodings(hash@, N as nat));
    (values, hints)
}

} // verus!
