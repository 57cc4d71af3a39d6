//! The host side of the transcript: a running SHA-256 digest that absorbs
//! commitments and field elements and from which field elements and query
//! indices are squeezed, together with the hints that let a script replay
//! every squeeze.

use crate::encoding::le_bytes;
use crate::field::{M31, QM31};
use crate::hash::{sha256, sha256_of};
use crate::hint::{generate_hints, hint_encodings, hint_remainder, hint_values, DrawHints};
use vstd::prelude::*;

verus! {

/// The byte form of an extension element: its four coordinates, each as a
/// little-endian word, in the reverse of the order in which they are built.
pub open spec fn felt_bytes(x: QM31) -> Seq<u8> {
    le_bytes(x.1.1.0) + le_bytes(x.1.0.0) + le_bytes(x.0.1.0) + le_bytes(x.0.0.0)
}

/// The digest after absorbing the bytes `x`.
pub open spec fn absorbed(digest: Seq<u8>, x: Seq<u8>) -> Seq<u8> {
    sha256(x + digest)
}

/// The hash that a squeeze draws its words from.
pub open spec fn squeeze_hash(digest: Seq<u8>) -> Seq<u8> {
    sha256(digest)
}

/// The digest after a squeeze: the hash of the drawn hash and one zero byte.
pub open spec fn squeezed(digest: Seq<u8>) -> Seq<u8> {
    sha256(squeeze_hash(digest).push(0u8))
}

/// The low `logn` bits of a value.
pub open spec fn trimmed(v: u32, logn: usize) -> u32 {
    if logn >= 32 {
        v
    } else {
        v % (1u32 << logn)
    }
}

/// The query indices of drawn field elements: each one trimmed to `logn` bits.
pub open spec fn trimmed_values(values: Seq<M31>, logn: usize) -> Seq<u32> {
    Seq::new(values.len(), |i: int| trimmed(values[i].0, logn))
}

/// One operation on a channel.
pub enum Step {
    /// Absorb a 32-byte commitment.
    MixDigest([u8; 32]),
    /// Absorb an extension element.
    MixFelt(QM31),
    /// Squeeze: draw words from the digest.
    Draw,
}

/// The digest after one operation.
pub open spec fn digest_after_step(digest: Seq<u8>, step: Step) -> Seq<u8> {
    match step {
        Step::MixDigest(x) => absorbed(digest, x@),
        Step::MixFelt(x) => absorbed(digest, felt_bytes(x)),
        Step::Draw => squeezed(digest),
    }
}

/// The digest after a sequence of operations.
pub open spec fn digest_after(digest: Seq<u8>, steps: Seq<Step>) -> Seq<u8>
    decreases steps.len(),
{
    if steps.len() == 0 {
        digest
    } else {
        digest_after_step(digest_after(digest, steps.drop_last()), steps.last())
    }
}

/// Keeps the low `logn` bits of a value.
pub fn trim_m31(v: u32, logn: usize) -> (r: u32)
    ensures
        r == trimmed(v, logn),
        logn < 32 ==> r < (1u32 << logn),
{
    if logn >= 32 {
        v
    } else {
        let k: u32 = logn as u32;
        assert((1u32 << k) > 0) by (bit_vector)
            requires
                k < 32,
        ;
        v % (1u32 << k)
    }
}

/// Writes a value as four bytes, lowest first, behind `out`.
fn push_le_bytes(out: &mut Vec<u8>, v: u32)
    ensures
        final(out)@ == old(out)@ + le_bytes(v),
{
    out.push((v % 256) as u8);
    out.push((v / 256 % 256) as u8);
    out.push((v / 65536 % 256) as u8);
    out.push((v / 16777216) as u8);
    assert(out@ =~= old(out)@ + le_bytes(v));
}

/// Writes the bytes of a digest behind `out`.
fn push_digest(out: &mut Vec<u8>, digest: &[u8; 32])
    ensures
        final(out)@ == old(out)@ + digest@,
{
    let mut k: usize = 0;
    while k < 32
        invariant
            k <= 32,
            out@ == old(out)@ + digest@.subrange(0, k as int),
        decreases 32 - k,
    {
        out.push(digest[k]);
        assert(out@ =~= old(out)@ + digest@.subrange(0, k + 1));
        k += 1;
    }
    assert(digest@.subrange(0, 32) =~= digest@);
}

/// The byte form of an extension element.
pub fn serialize_felt(x: &QM31) -> (bytes: Vec<u8>)
    ensures
        bytes@ == felt_bytes(*x),
{
    let mut bytes: Vec<u8> = Vec::new();
    push_le_bytes(&mut bytes, x.1.1.0);
    push_le_bytes(&mut bytes, x.1.0.0);
    push_le_bytes(&mut bytes, x.0.1.0);
    push_le_bytes(&mut bytes, x.0.0.0);
    assert(bytes@ =~= felt_bytes(*x));
    bytes
}

/// One squeeze of a digest: the hash that the words are drawn from, and the
/// digest that follows.
pub fn squeeze_digest(digest: &[u8; 32]) -> (r: ([u8; 32], [u8; 32]))
    ensures
        r.0@ == squeeze_hash(digest@),
        r.1@ == squeezed(digest@),
{
    let mut data: Vec<u8> = Vec::new();
    push_digest(&mut data, digest);
    assert(data@ =~= digest@);
    let hash: [u8; 32] = sha256_of(&data);
    let mut next: Vec<u8> = Vec::new();
    push_digest(&mut next, &hash);
    next.push(0u8);
    assert(next@ =~= hash@.push(0u8));
    (hash, sha256_of(&next))
}

/// A transcript: one digest, changed only by absorbing and squeezing.
pub struct Sha256Channel {
    /// The current digest.
    pub digest: [u8; 32],
}

impl Sha256Channel {
    /// A channel that starts at `digest`.
    pub fn new(digest: [u8; 32]) -> (channel: Sha256Channel)
        ensures
            channel.digest == digest,
    {
        Sha256Channel { digest }
    }

    /// The current digest.
    pub fn digest(&self) -> (d: [u8; 32])
        ensures
            d == self.digest,
    {
        self.digest
    }

    /// Absorbs a commitment: the new digest is the hash of the commitment
    /// followed by the old digest.
    pub fn mix_digest(&mut self, x: &[u8; 32])
        ensures
            final(self).digest@ == absorbed(old(self).digest@, x@),
            final(self).digest@ == sha256(x@ + old(self).digest@),
    {
        let mut data: Vec<u8> = Vec::new();
        push_digest(&mut data, x);
        push_digest(&mut data, &self.digest);
        self.digest = sha256_of(&data);
    }

    /// Absorbs an extension element: the new digest is the hash of the byte
    /// form of the element followed by the old digest.
    pub fn mix_felt(&mut self, x: &QM31)
        ensures
            final(self).digest@ == absorbed(old(self).digest@, felt_bytes(*x)),
    {
        let mut data: Vec<u8> = serialize_felt(x);
        push_digest(&mut data, &self.digest);
        self.digest = sha256_of(&data);
    }

    /// Squeezes `N` base field elements and records the hint for them.
    pub fn draw_m31_and_hints<const N: usize>(&mut self) -> (r: (Vec<M31>, DrawHints))
        requires
            N <= 8,
        ensures
            final(self).digest@ == squeezed(old(self).digest@),
            final(self).digest@ == sha256(sha256(old(self).digest@).push(0u8)),
            r.0@ == hint_values(squeeze_hash(old(self).digest@), N as nat),
            r.1.encodings_view() == hint_encodings(squeeze_hash(old(self).digest@), N as nat),
            r.1.remainder@ == hint_remainder(squeeze_hash(old(self).digest@), N as nat),
            r.1.has_shape(N as nat),
            forall|i: int| 0 <= i < N ==> (#[trigger] r.0@[i]).is_reduced(),
    {
        let (hash, next) = squeeze_digest(&self.digest);
        self.digest = next;
        generate_hints::<N>(&hash)
    }

    /// Squeezes one extension element and records the hint for it. The four
    /// drawn values are its coordinates in the order in which they are built.
    pub fn draw_felt_and_hints(&mut self) -> (r: (QM31, DrawHints))
        ensures
            final(self).digest@ == squeezed(old(self).digest@),
            r.0.coordinates() == Seq::new(
                4,
                |i: int| hint_values(squeeze_hash(old(self).digest@), 4)[i].0,
            ),
            r.0.is_reduced(),
            r.1.encodings_view() == hint_encodings(squeeze_hash(old(self).digest@), 4),
            r.1.remainder@ == hint_remainder(squeeze_hash(old(self).digest@), 4),
            r.1.has_shape(4),
    {
        let (values, hints) = self.draw_m31_and_hints::<4>();
        let felt: QM31 = QM31::from_m31(values[0], values[1], values[2], values[3]);
        assert(felt.coordinates() =~= Seq::new(
            4,
            |i: int| hint_values(squeeze_hash(old(self).digest@), 4)[i].0,
        ));
        (felt, hints)
    }

    /// Squeezes five query indices of `logn` bits each and records the hint
    /// for the five field elements they are trimmed from.
    pub fn draw_5queries(&mut self, logn: usize) -> (r: (Vec<u32>, DrawHints))
        ensures
            final(self).digest@ == squeezed(old(self).digest@),
            r.0@ == trimmed_values(hint_values(squeeze_hash(old(self).digest@), 5), logn),
            logn < 32 ==> forall|i: int| 0 <= i < 5 ==> (#[trigger] r.0@[i]) < (1u32 << logn),
            r.1.encodings_view() == hint_encodings(squeeze_hash(old(self).digest@), 5),
            r.1.remainder@ == hint_remainder(squeeze_hash(old(self).digest@), 5),
            r.1.has_shape(5),
    {
        let (values, hints) = self.draw_m31_and_hints::<5>();
        let mut queries: Vec<u32> = Vec::new();
        let mut i: usize = 0;
        while i < 5
            invariant
                i <= 5,
                values@.len() == 5,
                queries@.len() == i,
                forall|j: int| 0 <= j < i ==> (#[trigger] queries@[j]) == trimmed(values@[j].0, logn),
                logn < 32 ==> forall|j: int| 0 <= j < i ==> (#[trigger] queries@[j]) < (1u32 << logn),
            decreases 5 - i,
        {
            queries.push(trim_m31(values[i].0, logn));
            i += 1;
        }
        assert(queries@ =~= trimmed_values(values@, logn));
        (queries, hints)
    }
}

/// Determinism: channels that start at the same digest and go through the
/// same operations end at the same digest, and so does every prefix of the
/// operations; the values and hints of a squeeze are functions of the digest
/// before it, so they agree as well.
pub proof fn lemma_same_steps_same_transcript(a: Sha256Channel, b: Sha256Channel, steps: Seq<Step>, n: nat)
    requires
        a.digest@ == b.digest@,
    ensures
        digest_after(a.digest@, steps) == digest_after(b.digest@, steps),
        forall|k: int|
            0 <= k <= steps.len() ==> digest_after(a.digest@, #[trigger] steps.take(k))
                == digest_after(b.digest@, steps.take(k)),
        hint_values(squeeze_hash(digest_after(a.digest@, steps)), n) == hint_values(
            squeeze_hash(digest_after(b.digest@, steps)),
            n,
        ),
        hint_encodings(squeeze_hash(digest_after(a.digest@, steps)), n) == hint_encodings(
            squeeze_hash(digest_after(b.digest@, steps)),
            n,
        ),
        hint_remainder(squeeze_hash(digest_after(a.digest@, steps)), n) == hint_remainder(
            squeeze_hash(digest_after(b.digest@, steps)),
            n,
        ),
{
}

} // verus!
