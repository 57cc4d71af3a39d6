//! What the reconstruct-and-reduce fragment does to the values on the stack.
//!
//! The fragment takes one native integer encoding per word, rebuilds the
//! 4-byte word each one denotes, compares the words (and the remainder) with
//! the hash in one equality check, and only then reduces the magnitudes to
//! field elements. The functions here compute the same outcome on plain
//! values, and the proof functions state what that outcome guarantees.

use crate::encoding::{encode_word, is_negative_zero, low7, reduce, reduce_magnitude, window, word_magnitude};
use crate::channel::{squeeze_digest, squeeze_hash, squeezed, trim_m31, trimmed_values};
use crate::field::{M31, QM31};
use crate::hint::{hint_encodings, hint_remainder, hint_values, DrawHints};
use vstd::prelude::*;

verus! {

/// The one-byte literal 0x80, "negative zero", which the arithmetic of the
/// script machine refuses as an operand.
pub open spec fn is_negative_zero_literal(e: Seq<u8>) -> bool {
    e.len() == 1 && e[0] == 128
}

/// Whether a byte string is a number that the arithmetic of the script machine
/// takes: at most four bytes, and no byte that could be left out.
pub open spec fn is_minimal_number(e: Seq<u8>) -> bool {
    e.len() <= 4 && (e.len() == 0 || low7(e[e.len() - 1]) != 0 || (e.len() >= 2 && e[e.len() - 2]
        >= 128))
}

/// The magnitude of a number of the script machine.
pub open spec fn number_magnitude(e: Seq<u8>) -> nat
    recommends
        e.len() <= 4,
{
    if e.len() == 0 {
        0
    } else if e.len() == 1 {
        low7(e[0]) as nat
    } else if e.len() == 2 {
        (e[0] + 256 * low7(e[1])) as nat
    } else if e.len() == 3 {
        (e[0] + 256 * e[1] + 65536 * low7(e[2])) as nat
    } else {
        (e[0] + 256 * e[1] + 65536 * e[2] + 16777216 * low7(e[3])) as nat
    }
}

/// Whether the sign bit of a number is set.
pub open spec fn number_is_negative(e: Seq<u8>) -> bool {
    e.len() > 0 && e[e.len() - 1] >= 128
}

/// The encoding of a number's absolute value: the same bytes with the sign
/// bit cleared.
pub open spec fn magnitude_bytes(e: Seq<u8>) -> Seq<u8> {
    if e.len() == 0 {
        e
    } else {
        e.update(e.len() - 1, low7(e[e.len() - 1]) as u8)
    }
}

/// A byte string of at most three bytes, filled up with zero bytes to three.
pub open spec fn pad_to_three(a: Seq<u8>) -> Seq<u8> {
    if a.len() == 0 {
        seq![0u8, 0u8, 0u8]
    } else if a.len() == 1 {
        seq![a[0], 0u8, 0u8]
    } else if a.len() == 2 {
        seq![a[0], a[1], 0u8]
    } else {
        a
    }
}

/// The word that the fragment rebuilds from one encoding, or `None` where the
/// script aborts. The literal 0x80 is told apart by comparing bytes and gives
/// the word of four zero bytes. Anything else has to be a minimal number. A
/// number of four bytes is its own word; a shorter one is its magnitude,
/// padded to three bytes, followed by a byte that holds only the sign.
pub open spec fn reconstructed_word(e: Seq<u8>) -> Option<Seq<u8>> {
    if is_negative_zero_literal(e) {
        Some(seq![0u8, 0u8, 0u8, 0u8])
    } else if !is_minimal_number(e) {
        None
    } else if e.len() == 4 {
        Some(e)
    } else {
        Some(
            pad_to_three(magnitude_bytes(e)).push(
                if number_is_negative(e) {
                    128u8
                } else {
                    0u8
                },
            ),
        )
    }
}

/// The magnitude that the fragment keeps aside for one encoding.
pub open spec fn reconstructed_magnitude(e: Seq<u8>) -> nat {
    if is_negative_zero_literal(e) {
        0
    } else {
        number_magnitude(e)
    }
}

/// Byte strings put together, the first one first.
pub open spec fn joined(parts: Seq<Seq<u8>>) -> Seq<u8>
    decreases parts.len(),
{
    if parts.len() == 0 {
        Seq::empty()
    } else {
        joined(parts.drop_last()) + parts.last()
    }
}

/// The words that the fragment rebuilds from the encodings.
pub open spec fn rebuilt_words(encodings: Seq<Seq<u8>>) -> Seq<Seq<u8>> {
    Seq::new(encodings.len(), |i: int| reconstructed_word(encodings[i]).unwrap())
}

/// Whether the fragment for `n` words passes: every encoding can be rebuilt,
/// and the rebuilt words put together, followed by the remainder where the
/// words do not use up the hash, are the hash.
pub open spec fn accepts(n: nat, hash: Seq<u8>, encodings: Seq<Seq<u8>>, remainder: Seq<u8>) -> bool {
    &&& encodings.len() == n
    &&& forall|i: int| 0 <= i < n ==> reconstructed_word(#[trigger] encodings[i]) is Some
    &&& joined(rebuilt_words(encodings)) + (if n % 8 != 0 {
        remainder
    } else {
        Seq::empty()
    }) == hash
}

/// The same check word by word: every encoding rebuilds the word of the hash
/// at its place, and for fewer than eight words the remainder is the rest of
/// the hash.
pub open spec fn matches_word_by_word(
    n: nat,
    hash: Seq<u8>,
    encodings: Seq<Seq<u8>>,
    remainder: Seq<u8>,
) -> bool {
    &&& encodings.len() == n
    &&& forall|i: int|
        0 <= i < n ==> reconstructed_word(#[trigger] encodings[i]) == Some(window(hash, i))
    &&& n < 8 ==> remainder == hint_remainder(hash, n)
}

/// The field elements that the fragment leaves for the given encodings.
pub open spec fn reconstructed_values(encodings: Seq<Seq<u8>>) -> Seq<M31> {
    Seq::new(encodings.len(), |i: int| M31(reduce(reconstructed_magnitude(encodings[i])) as u32))
}

/// The outcome of the fragment: the values where it passes, `None` where it
/// aborts.
pub open spec fn unpacked(n: nat, hash: Seq<u8>, encodings: Seq<Seq<u8>>, remainder: Seq<u8>) -> Option<Seq<M31>> {
    if accepts(n, hash, encodings, remainder) {
        Some(reconstructed_values(encodings))
    } else {
        None
    }
}

/// A byte string with one bit flipped.
pub open spec fn flip_bit(s: Seq<u8>, at: int, bit: u8) -> Seq<u8>
    recommends
        0 <= at < s.len(),
        bit < 8,
{
    s.update(at, s[at] ^ (1u8 << bit))
}

/// What the fragment rebuilt from one encoding.
pub struct Reconstructed {
    /// The 4-byte little-endian word.
    pub word: Vec<u8>,
    /// The magnitude kept aside for the reduction.
    pub magnitude: u32,
}

/// Rebuilds the word that one encoding denotes, as the fragment does, or
/// returns `None` where the script aborts.
pub fn reconstruct(enc: &Vec<u8>) -> (r: Option<Reconstructed>)
    ensures
        match r {
            Some(x) => reconstructed_word(enc@) == Some(x.word@) && x.magnitude
                == reconstructed_magnitude(enc@) && x.magnitude <= 0x7fff_ffff,
            None => reconstructed_word(enc@) is None,
        },
{
    let len: usize = enc.len();
    if len == 1 && enc[0] == 128 {
        let word: Vec<u8> = vec![0u8, 0u8, 0u8, 0u8];
        assert(word@ =~= seq![0u8, 0u8, 0u8, 0u8]);
        return Some(Reconstructed { word, magnitude: 0 });
    }
    if len > 4 {
        return None;
    }
    if len == 0 {
        let word: Vec<u8> = vec![0u8, 0u8, 0u8, 0u8];
        assert(word@ =~= pad_to_three(magnitude_bytes(enc@)).push(0u8));
        return Some(Reconstructed { word, magnitude: 0 });
    }
    let last: u8 = enc[len - 1];
    let top: u8 = if last >= 128 { last - 128 } else { last };
    let sign: u8 = if last >= 128 { 128 } else { 0 };
    if top == 0 && (len < 2 || enc[len - 2] < 128) {
        return None;
    }
    if len == 4 {
        let word: Vec<u8> = vec![enc[0], enc[1], enc[2], enc[3]];
        assert(word@ =~= enc@);
        let magnitude: u32 = enc[0] as u32 + 256 * (enc[1] as u32) + 65536 * (enc[2] as u32) + 16777216 * (top as u32);
        Some(Reconstructed { word, magnitude })
    } else if len == 3 {
        let word: Vec<u8> = vec![enc[0], enc[1], top, sign];
        assert(word@ =~= pad_to_three(magnitude_bytes(enc@)).push(sign));
        let magnitude: u32 = enc[0] as u32 + 256 * (enc[1] as u32) + 65536 * (top as u32);
        Some(Reconstructed { word, magnitude })
    } else if len == 2 {
        let word: Vec<u8> = vec![enc[0], top, 0u8, sign];
        assert(word@ =~= pad_to_three(magnitude_bytes(enc@)).push(sign));
        let magnitude: u32 = enc[0] as u32 + 256 * (top as u32);
        Some(Reconstructed { word, magnitude })
    } else {
        let word: Vec<u8> = vec![top, 0u8, 0u8, sign];
        assert(word@ =~= pad_to_three(magnitude_bytes(enc@)).push(sign));
        Some(Reconstructed { word, magnitude: top as u32 })
    }
}

/// Whether `a` is the stretch of `bytes` that starts at `from`.
fn matches_at(bytes: &[u8; 32], from: usize, a: &Vec<u8>) -> (same: bool)
    requires
        from <= 32,
    ensures
        same == (from + a@.len() <= 32 && a@ == bytes@.subrange(from as int, from + a@.len())),
{
    if a.len() > 32 - from {
        return false;
    }
    let mut k: usize = 0;
    while k < a.len()
        invariant
            k <= a@.len(),
            from + a@.len() <= 32,
            a@.subrange(0, k as int) == bytes@.subrange(from as int, from + k),
        decreases a@.len() - k,
    {
        if a[k] != bytes[from + k] {
            assert(a@[k as int] != bytes@.subrange(from as int, from + a@.len())[k as int]);
            return false;
        }
        assert(a@.subrange(0, k + 1) =~= bytes@.subrange(from as int, from + k + 1)) by {
            assert(a@.subrange(0, k + 1) =~= a@.subrange(0, k as int).push(a@[k as int]));
            assert(bytes@.subrange(from as int, from + k + 1) =~= bytes@.subrange(
                from as int,
                from + k,
            ).push(bytes@[from + k]));
        }
        k += 1;
    }
    assert(a@.subrange(0, a@.len() as int) =~= a@);
    true
}

/// Runs the reconstruct-and-reduce fragment for `n` words on plain values:
/// the hash that lies on top of the stack and the hint beneath it. Returns the
/// `n` field elements, first word first, or `None` where the script aborts.
pub fn unpack_multi_m31(n: usize, hash: &[u8; 32], hint: &DrawHints) -> (r: Option<Vec<M31>>)
    requires
        1 <= n <= 8,
    ensures
        match r {
            Some(values) => unpacked(n as nat, hash@, hint.encodings_view(), hint.remainder@)
                == Some(values@),
            None => unpacked(n as nat, hash@, hint.encodings_view(), hint.remainder@) is None,
        },
{
    let ghost encs = hint.encodings_view();
    proof {
        lemma_accepts_word_by_word(n as nat, hash@, encs, hint.remainder@);
    }
    if hint.encodings.len() != n {
        return None;
    }
    let mut values: Vec<M31> = Vec::new();
    let mut i: usize = 0;
    while i < n
        invariant
            i <= n <= 8,
            encs == hint.encodings_view(),
            encs.len() == n,
            values@.len() == i,
            accepts(n as nat, hash@, encs, hint.remainder@) == matches_word_by_word(
                n as nat,
                hash@,
                encs,
                hint.remainder@,
            ),
            forall|j: int| 0 <= j < i ==> reconstructed_word(#[trigger] encs[j]) == Some(window(hash@, j)),
            forall|j: int| 0 <= j < i ==> (#[trigger] values@[j]) == reconstructed_values(encs)[j],
        decreases n - i,
    {
        assert(encs[i as int] == hint.encodings@[i as int]@);
        match reconstruct(&hint.encodings[i]) {
            None => {
                return None;
            },
            Some(x) => {
                if !matches_at(hash, 4 * i, &x.word) {
                    proof {
                        lemma_reconstructed_word_shape(encs[i as int]);
                    }
                    return None;
                }
                proof {
                    lemma_reconstructed_word_shape(encs[i as int]);
                    assert(x.word@ == window(hash@, i as int));
                }
                values.push(M31(reduce_magnitude(x.magnitude)));
            },
        }
        i += 1;
    }
    if n < 8 {
        if hint.remainder.len() != 32 - 4 * n || !matches_at(hash, 4 * n, &hint.remainder) {
            return None;
        }
    }
    assert(values@ =~= reconstructed_values(encs));
    Some(values)
}

/// Runs the fragment that squeezes an extension element on plain values: the
/// digest on top of the stack and the hint beneath it. Returns the next
/// digest and the element, or `None` where the script aborts.
pub fn draw_felt_with_hint(digest: &[u8; 32], hint: &DrawHints) -> (r: Option<([u8; 32], QM31)>)
    ensures
        r is Some <==> accepts(4, squeeze_hash(digest@), hint.encodings_view(), hint.remainder@),
        r is Some ==> r.unwrap().0@ == squeezed(digest@) && r.unwrap().1.coordinates() == Seq::new(
            4,
            |i: int| reconstructed_values(hint.encodings_view())[i].0,
        ),
{
    let (hash, next) = squeeze_digest(digest);
    match unpack_multi_m31(4, &hash, hint) {
        None => None,
        Some(values) => {
            let felt = QM31::from_m31(values[0], values[1], values[2], values[3]);
            assert(felt.coordinates() =~= Seq::new(
                4,
                |i: int| reconstructed_values(hint.encodings_view())[i].0,
            ));
            Some((next, felt))
        },
    }
}

/// Runs the fragment that squeezes five query indices of `logn` bits on plain
/// values. Returns the next digest and the indices, first drawn first, or
/// `None` where the script aborts.
pub fn draw_5numbers_with_hint(digest: &[u8; 32], logn: usize, hint: &DrawHints) -> (r: Option<
    ([u8; 32], Vec<u32>),
>)
    ensures
        r is Some <==> accepts(5, squeeze_hash(digest@), hint.encodings_view(), hint.remainder@),
        r is Some ==> r.unwrap().0@ == squeezed(digest@) && r.unwrap().1@ == trimmed_values(
            reconstructed_values(hint.encodings_view()),
            logn,
        ),
{
    let (hash, next) = squeeze_digest(digest);
    match unpack_multi_m31(5, &hash, hint) {
        None => None,
        Some(values) => {
            let mut queries: Vec<u32> = Vec::new();
            let mut i: usize = 0;
            while i < 5
                invariant
                    i <= 5,
                    values@.len() == 5,
                    queries@.len() == i,
                    forall|j: int|
                        0 <= j < i ==> (#[trigger] queries@[j]) == trimmed_values(values@, logn)[j],
                decreases 5 - i,
            {
                queries.push(trim_m31(values[i].0, logn));
                i += 1;
            }
            assert(queries@ =~= trimmed_values(values@, logn));
            Some((next, queries))
        },
    }
}

/// Four-byte words put together: the length, and where each byte ends up.
proof fn lemma_joined_words(words: Seq<Seq<u8>>, k: nat)
    requires
        k <= words.len(),
        forall|i: int| 0 <= i < k ==> (#[trigger] words[i]).len() == 4,
    ensures
        joined(words.take(k as int)).len() == 4 * k,
        forall|at: int|
            0 <= at < 4 * k ==> (#[trigger] joined(words.take(k as int))[at]) == words[at / 4][at
                % 4],
    decreases k,
{
    if k > 0 {
        lemma_joined_words(words, (k - 1) as nat);
        assert(words.take(k as int).drop_last() =~= words.take(k - 1));
        assert(words.take(k as int).last() == words[k - 1]);
    }
}

/// The equality check on the joined words is the check word by word.
pub proof fn lemma_accepts_word_by_word(
    n: nat,
    hash: Seq<u8>,
    encodings: Seq<Seq<u8>>,
    remainder: Seq<u8>,
)
    requires
        hash.len() == 32,
        1 <= n <= 8,
    ensures
        accepts(n, hash, encodings, remainder) == matches_word_by_word(
            n,
            hash,
            encodings,
            remainder,
        ),
{
    let words = rebuilt_words(encodings);
    let tail = if n % 8 != 0 {
        remainder
    } else {
        Seq::empty()
    };
    if encodings.len() == n && (forall|i: int|
        0 <= i < n ==> reconstructed_word(#[trigger] encodings[i]) is Some) {
        assert forall|i: int| 0 <= i < n implies (#[trigger] words[i]).len() == 4 by {
            lemma_reconstructed_word_shape(encodings[i]);
        }
        lemma_joined_words(words, n);
        assert(words.take(n as int) =~= words);
        let all = joined(words);
        if accepts(n, hash, encodings, remainder) {
            assert(all + tail == hash);
            assert forall|i: int| 0 <= i < n implies reconstructed_word(#[trigger] encodings[i])
                == Some(window(hash, i)) by {
                assert forall|j: int| 0 <= j < 4 implies words[i][j] == window(hash, i)[j] by {
                    let at = 4 * i + j;
                    assert(at / 4 == i && at % 4 == j);
                    assert(all[at] == words[at / 4][at % 4]);
                    assert((all + tail)[at] == all[at]);
                }
                assert(words[i] =~= window(hash, i));
            }
            if n < 8 {
                assert(remainder =~= hint_remainder(hash, n)) by {
                    assert(remainder.len() == 32 - 4 * n);
                    assert forall|j: int| 0 <= j < 32 - 4 * n implies remainder[j] == hash[4 * n
                        + j] by {
                        assert((all + tail)[4 * n + j] == tail[j]);
                    }
                }
            }
        }
        if matches_word_by_word(n, hash, encodings, remainder) {
            assert forall|at: int| 0 <= at < 4 * n implies all[at] == hash[at] by {
                let i = at / 4;
                assert(reconstructed_word(encodings[i]) == Some(window(hash, i)));
                assert(words[i] == window(hash, i));
                assert(window(hash, i)[at % 4] == hash[4 * i + at % 4]);
            }
            assert(all + tail =~= hash);
        }
    }
}

/// A rebuilt word has four bytes.
pub proof fn lemma_reconstructed_word_shape(e: Seq<u8>)
    requires
        reconstructed_word(e) is Some,
    ensures
        reconstructed_word(e).unwrap().len() == 4,
{
}

/// Round trip for one word: the fragment rebuilds every word but negative zero
/// from its encoding, with the magnitude of the word.
pub proof fn lemma_encoding_reconstructs(w: Seq<u8>)
    requires
        w.len() == 4,
        !is_negative_zero(w),
    ensures
        reconstructed_word(encode_word(w)) == Some(w),
        reconstructed_magnitude(encode_word(w)) == word_magnitude(w),
{
    let e = encode_word(w);
    assert(reconstructed_word(e).unwrap() =~= w);
}

/// The encoding of a word is a number of the script machine, and the number
/// it is: the magnitude and the sign of the word.
pub proof fn lemma_encoding_is_the_number_of_the_word(w: Seq<u8>)
    requires
        w.len() == 4,
        !is_negative_zero(w),
    ensures
        is_minimal_number(encode_word(w)),
        number_magnitude(encode_word(w)) == word_magnitude(w),
        number_is_negative(encode_word(w)) == (w[3] >= 128),
{
}

/// What the fragment rebuilds is never negative zero; its magnitude is the
/// magnitude of the rebuilt word; and the encoding is the one that belongs to
/// that word, except that the literal 0x80 stands in for the empty encoding
/// of zero.
pub proof fn lemma_reconstruction_is_canonical(e: Seq<u8>)
    requires
        reconstructed_word(e) is Some,
    ensures
        ({
            let w = reconstructed_word(e).unwrap();
            &&& w.len() == 4
            &&& !is_negative_zero(w)
            &&& reconstructed_magnitude(e) == word_magnitude(w)
            &&& (e == encode_word(w) || (is_negative_zero_literal(e) && encode_word(w).len() == 0))
        }),
{
    let w = reconstructed_word(e).unwrap();
    if !is_negative_zero_literal(e) {
        assert(e =~= encode_word(w));
    }
}

} // verus!
