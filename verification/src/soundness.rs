//! What the equality check of the fragment guarantees: a recorded hint is
//! accepted, nothing but the recorded hint is, and whatever is accepted yields
//! the field elements of the hash.

use crate::encoding::{encode_word, is_negative_zero, window};
use crate::hint::{hint_encodings, hint_remainder, hint_values};
use crate::replay::{accepts, flip_bit, is_negative_zero_literal, lemma_accepts_word_by_word, lemma_encoding_reconstructs, lemma_reconstruction_is_canonical, reconstructed_values, reconstructed_word, unpacked};
use vstd::prelude::*;

verus! {

/// Round trip: for a hash none of whose first `n` words is negative zero, the
/// fragment accepts the hint recorded for it and leaves exactly the field
/// elements that the host computed.
pub proof fn lemma_generated_hint_is_accepted(hash: Seq<u8>, n: nat)
    requires
        hash.len() == 32,
        1 <= n <= 8,
        forall|i: int| 0 <= i < n ==> !is_negative_zero(#[trigger] window(hash, i)),
    ensures
        unpacked(n, hash, hint_encodings(hash, n), hint_remainder(hash, n)) == Some(
            hint_values(hash, n),
        ),
{
    let encodings = hint_encodings(hash, n);
    lemma_accepts_word_by_word(n, hash, encodings, hint_remainder(hash, n));
    assert forall|i: int| 0 <= i < n implies reconstructed_word(#[trigger] encodings[i]) == Some(
        window(hash, i),
    ) by {
        lemma_encoding_reconstructs(window(hash, i));
    }
    assert forall|i: int| 0 <= i < n implies reconstructed_values(encodings)[i] == hint_values(
        hash,
        n,
    )[i] by {
        lemma_encoding_reconstructs(window(hash, i));
    }
    assert(reconstructed_values(encodings) =~= hint_values(hash, n));
}

/// Negative zero is refused: where one of the first `n` words of the hash is
/// negative zero, the fragment aborts whatever the hint holds.
pub proof fn lemma_negative_zero_is_rejected(
    hash: Seq<u8>,
    n: nat,
    encodings: Seq<Seq<u8>>,
    remainder: Seq<u8>,
    i: int,
)
    requires
        hash.len() == 32,
        1 <= n <= 8,
        0 <= i < n,
        is_negative_zero(window(hash, i)),
    ensures
        unpacked(n, hash, encodings, remainder) is None,
{
    lemma_accepts_word_by_word(n, hash, encodings, remainder);
    if accepts(n, hash, encodings, remainder) {
        assert(reconstructed_word(encodings[i]) == Some(window(hash, i)));
        lemma_reconstruction_is_canonical(encodings[i]);
    }
}

/// No forged value: whatever hint the fragment accepts for a hash, the field
/// elements it leaves are those of the hash.
pub proof fn lemma_accepted_values_are_those_of_the_hash(
    hash: Seq<u8>,
    n: nat,
    encodings: Seq<Seq<u8>>,
    remainder: Seq<u8>,
)
    requires
        hash.len() == 32,
        1 <= n <= 8,
        accepts(n, hash, encodings, remainder),
    ensures
        unpacked(n, hash, encodings, remainder) == Some(hint_values(hash, n)),
{
    lemma_accepts_word_by_word(n, hash, encodings, remainder);
    assert forall|i: int| 0 <= i < n implies reconstructed_values(encodings)[i] == hint_values(
        hash,
        n,
    )[i] by {
        assert(reconstructed_word(encodings[i]) == Some(window(hash, i)));
        lemma_reconstruction_is_canonical(encodings[i]);
    }
    assert(reconstructed_values(encodings) =~= hint_values(hash, n));
}

/// Only the recorded hint passes: an accepted hint has the recorded remainder,
/// and each of its encodings is the recorded one, or the literal 0x80 where
/// the recorded one is the empty encoding of zero.
pub proof fn lemma_accepted_hint_is_the_recorded_one(
    hash: Seq<u8>,
    n: nat,
    encodings: Seq<Seq<u8>>,
    remainder: Seq<u8>,
)
    requires
        hash.len() == 32,
        1 <= n <= 8,
        accepts(n, hash, encodings, remainder),
    ensures
        n < 8 ==> remainder == hint_remainder(hash, n),
        forall|i: int|
            0 <= i < n ==> (#[trigger] encodings[i]) == hint_encodings(hash, n)[i] || (
            is_negative_zero_literal(encodings[i]) && hint_encodings(hash, n)[i].len() == 0),
{
    lemma_accepts_word_by_word(n, hash, encodings, remainder);
    assert forall|i: int| 0 <= i < n implies (#[trigger] encodings[i]) == hint_encodings(hash, n)[i]
        || (is_negative_zero_literal(encodings[i]) && hint_encodings(hash, n)[i].len() == 0) by {
        assert(reconstructed_word(encodings[i]) == Some(window(hash, i)));
        lemma_reconstruction_is_canonical(encodings[i]);
        assert(hint_encodings(hash, n)[i] == encode_word(window(hash, i)));
    }
}

/// Flipping a bit changes a byte string.
proof fn lemma_flip_bit_changes(s: Seq<u8>, at: int, bit: u8)
    requires
        0 <= at < s.len(),
        bit < 8,
    ensures
        flip_bit(s, at, bit).len() == s.len(),
        flip_bit(s, at, bit) != s,
{
    let b: u8 = s[at];
    assert(b ^ (1u8 << bit) != b) by (bit_vector)
        requires
            bit < 8,
    ;
    assert(flip_bit(s, at, bit)[at] != s[at]);
}

/// Tamper sensitivity, encodings: with any one bit of any recorded encoding
/// flipped, the fragment aborts.
pub proof fn lemma_flipped_encoding_is_rejected(hash: Seq<u8>, n: nat, i: int, at: int, bit: u8)
    requires
        hash.len() == 32,
        1 <= n <= 8,
        0 <= i < n,
        0 <= at < hint_encodings(hash, n)[i].len(),
        bit < 8,
    ensures
        unpacked(
            n,
            hash,
            hint_encodings(hash, n).update(i, flip_bit(hint_encodings(hash, n)[i], at, bit)),
            hint_remainder(hash, n),
        ) is None,
{
    let recorded = hint_encodings(hash, n);
    let tampered = recorded.update(i, flip_bit(recorded[i], at, bit));
    lemma_flip_bit_changes(recorded[i], at, bit);
    if accepts(n, hash, tampered, hint_remainder(hash, n)) {
        lemma_accepted_hint_is_the_recorded_one(hash, n, tampered, hint_remainder(hash, n));
        assert(tampered[i] == flip_bit(recorded[i], at, bit));
    }
}

/// Tamper sensitivity, remainder: with any one bit of the recorded remainder
/// flipped, the fragment aborts.
pub proof fn lemma_flipped_remainder_is_rejected(hash: Seq<u8>, n: nat, at: int, bit: u8)
    requires
        hash.len() == 32,
        1 <= n < 8,
        0 <= at < 32 - 4 * n,
        bit < 8,
    ensures
        unpacked(
            n,
            hash,
            hint_encodings(hash, n),
            flip_bit(hint_remainder(hash, n), at, bit),
        ) is None,
{
    lemma_flip_bit_changes(hint_remainder(hash, n), at, bit);
    lemma_accepts_word_by_word(
        n,
        hash,
        hint_encodings(hash, n),
        flip_bit(hint_remainder(hash, n), at, bit),
    );
}

} // verus!
