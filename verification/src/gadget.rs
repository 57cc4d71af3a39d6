//! The script fragments of the channel: absorbing a commitment or a field
//! element into the digest on the stack, and squeezing field elements or query
//! indices out of it with the help of a hint.

use crate::hint::DrawHints;
use crate::opcodes::{OP_0, OP_1SUB, OP_2, OP_2SWAP, OP_3, OP_4, OP_ABS, OP_CAT, OP_DEPTH, OP_DROP, OP_DUP, OP_ELSE, OP_ENDIF, OP_EQUAL, OP_EQUALVERIFY, OP_FROMALTSTACK, OP_GREATERTHANOREQUAL, OP_IF, OP_LESSTHAN, OP_NOT, OP_NOTIF, OP_PUSHBYTES_1, OP_PUSHBYTES_2, OP_PUSHBYTES_4, OP_ROLL, OP_ROT, OP_SHA256, OP_SIZE, OP_SUB, OP_SWAP, OP_TOALTSTACK};
use crate::script::{data_push, number_push, repeated, Script};
use vstd::prelude::*;

verus! {

/// Fills a non-negative number of the script machine up to its four-byte
/// little-endian word.
pub open spec fn pad_to_four_script() -> Seq<u8> {
    seq![
        OP_SIZE, OP_4, OP_LESSTHAN, OP_IF,
        OP_SIZE, OP_2, OP_LESSTHAN, OP_IF, OP_PUSHBYTES_2, 0u8, 0u8, OP_CAT, OP_ENDIF,
        OP_SIZE, OP_3, OP_LESSTHAN, OP_IF, OP_PUSHBYTES_1, 0u8, OP_CAT, OP_ENDIF,
        OP_PUSHBYTES_1, 0u8, OP_CAT,
        OP_ENDIF,
    ]
}

/// Replaces the four coordinates of an extension element on the stack by its
/// byte form: each coordinate as a four-byte word, the deepest first.
pub open spec fn serialize_felt_script() -> Seq<u8> {
    pad_to_four_script() + repeated(
        seq![OP_SWAP] + pad_to_four_script() + seq![OP_SWAP, OP_CAT],
        3,
    )
}

/// Keeps the low `logn` bits of a field element: from bit 30 down to bit
/// `logn`, subtracts the bit where it is set.
pub open spec fn trim_bits_script(logn: u32, top: u32) -> Seq<u8>
    decreases top,
{
    if top <= logn {
        Seq::empty()
    } else {
        let bit = 1u32 << ((top - 1) as u32);
        seq![OP_DUP] + number_push(bit) + seq![OP_GREATERTHANOREQUAL, OP_IF] + number_push(bit)
            + seq![OP_SUB, OP_ENDIF] + trim_bits_script(logn, (top - 1) as u32)
    }
}

/// The trimming of a field element to `logn` bits.
pub open spec fn trim_m31_script(logn: usize) -> Seq<u8> {
    if logn >= 31 {
        Seq::empty()
    } else {
        trim_bits_script(logn as u32, 31)
    }
}

/// Absorbing a commitment.
pub open spec fn mix_digest_script() -> Seq<u8> {
    seq![OP_CAT, OP_SHA256]
}

/// Absorbing an extension element.
pub open spec fn mix_felt_script() -> Seq<u8> {
    seq![OP_TOALTSTACK] + serialize_felt_script() + seq![OP_FROMALTSTACK, OP_CAT, OP_SHA256]
}

/// The start of a squeeze: replaces the digest by the next digest and, on top
/// of it, the hash that the words are drawn from.
pub open spec fn squeeze_script() -> Seq<u8> {
    seq![OP_SHA256, OP_DUP, OP_PUSHBYTES_1, 0u8, OP_CAT, OP_SHA256, OP_SWAP]
}

/// Rebuilding a four-byte word from a native integer.
pub open spec fn reconstruct_script() -> Seq<u8> {
    seq![
        OP_DUP, OP_PUSHBYTES_1, 0x80u8, OP_EQUAL,
        OP_IF,
        OP_DROP,
        OP_0, OP_TOALTSTACK,
        OP_PUSHBYTES_4, 0u8, 0u8, 0u8, 0u8,
        OP_ELSE,
        OP_DUP, OP_ABS,
        OP_DUP, OP_TOALTSTACK,
        OP_SIZE, OP_4, OP_LESSTHAN,
        OP_IF,
        OP_DUP, OP_ROT,
        OP_EQUAL, OP_TOALTSTACK,
        OP_SIZE, OP_2, OP_LESSTHAN, OP_IF, OP_PUSHBYTES_2, 0u8, 0u8, OP_CAT, OP_ENDIF,
        OP_SIZE, OP_3, OP_LESSTHAN, OP_IF, OP_PUSHBYTES_1, 0u8, OP_CAT, OP_ENDIF,
        OP_FROMALTSTACK,
        OP_IF,
        OP_PUSHBYTES_1, 0u8,
        OP_ELSE,
        OP_PUSHBYTES_1, 0x80u8,
        OP_ENDIF,
        OP_CAT,
        OP_ELSE,
        OP_DROP,
        OP_ENDIF,
        OP_ENDIF,
    ]
}

/// Reducing the magnitude on top of the side stack to a field element on the
/// stack: zero stays, anything else loses one.
pub open spec fn reduce_script() -> Seq<u8> {
    seq![OP_FROMALTSTACK, OP_DUP, OP_NOT, OP_NOTIF, OP_1SUB, OP_ENDIF]
}

/// Unpacking `n` field elements from the hash on top of the stack: pull the
/// `n` encodings up from the bottom, rebuild each word, join the words and,
/// for fewer than eight words, the remainder from the bottom, compare with
/// the hash, then reduce each magnitude kept on the side stack.
pub open spec fn unpack_multi_m31_script(n: nat) -> Seq<u8>
    recommends
        1 <= n <= 8,
{
    repeated(seq![OP_DEPTH, OP_1SUB, OP_ROLL], n) + repeated(
        number_push((n - 1) as u32) + seq![OP_ROLL] + reconstruct_script(),
        n,
    ) + repeated(seq![OP_CAT], (n - 1) as nat) + (if n % 8 != 0 {
        seq![OP_DEPTH, OP_1SUB, OP_ROLL, OP_CAT]
    } else {
        Seq::empty()
    }) + seq![OP_EQUALVERIFY] + repeated(reduce_script(), n)
}

/// Squeezing an extension element.
pub open spec fn draw_felt_with_hint_script() -> Seq<u8> {
    squeeze_script() + unpack_multi_m31_script(4)
}

/// Squeezing five query indices of `logn` bits: after the five field elements
/// are unpacked, each is trimmed, and the first drawn ends up deepest.
pub open spec fn draw_5numbers_with_hint_script(logn: usize) -> Seq<u8> {
    let trim = trim_m31_script(logn);
    squeeze_script() + unpack_multi_m31_script(5) + trim + seq![OP_SWAP] + trim + seq![OP_2SWAP]
        + trim + seq![OP_SWAP] + trim + seq![OP_4, OP_ROLL] + trim
}

/// The pushes of a sequence of byte strings, one after the other.
pub open spec fn data_pushes(items: Seq<Seq<u8>>) -> Seq<u8>
    decreases items.len(),
{
    if items.len() == 0 {
        Seq::empty()
    } else {
        data_pushes(items.drop_last()) + data_push(items.last())
    }
}

/// The script that puts a hint for `n` words on the stack: the encodings,
/// first word first, and for fewer than eight words the remainder on top.
pub open spec fn draw_hint_script(n: nat, encodings: Seq<Seq<u8>>, remainder: Seq<u8>) -> Seq<u8> {
    data_pushes(encodings) + (if n % 8 != 0 {
        data_push(remainder)
    } else {
        Seq::empty()
    })
}

/// The size of a repeated byte string.
pub proof fn lemma_repeated_size(s: Seq<u8>, k: nat)
    ensures
        repeated(s, k).len() == k * s.len(),
    decreases k,
{
    if k > 0 {
        lemma_repeated_size(s, (k - 1) as nat);
        assert(k * s.len() == (k - 1) * s.len() + s.len()) by (nonlinear_arith);
    } else {
        assert(k * s.len() == 0) by (nonlinear_arith)
            requires
                k == 0,
        ;
    }
}

/// The size of the fragment that unpacks `n` field elements: 68 bytes for
/// every word, and 4 more where a remainder is joined.
pub proof fn lemma_unpack_multi_m31_size(n: nat)
    requires
        1 <= n <= 8,
    ensures
        reconstruct_script().len() == 56,
        unpack_multi_m31_script(n).len() == 68 * n + (if n < 8 {
            4int
        } else {
            0int
        }),
{
    let pull = seq![OP_DEPTH, OP_1SUB, OP_ROLL];
    let rebuild = number_push((n - 1) as u32) + seq![OP_ROLL] + reconstruct_script();
    let join = seq![OP_CAT];
    let reduce = reduce_script();
    assert(number_push((n - 1) as u32).len() == 1);
    assert(rebuild.len() == 58);
    lemma_repeated_size(pull, n);
    lemma_repeated_size(rebuild, n);
    lemma_repeated_size(join, (n - 1) as nat);
    lemma_repeated_size(reduce, n);
    assert(n * 3 == 3 * n && n * 58 == 58 * n && n * 6 == 6 * n && (n - 1) * 1 == n - 1)
        by (nonlinear_arith);
}

/// A script made of the given bytes.
fn script_of(bytes: Vec<u8>) -> (s: Script)
    ensures
        s@ == bytes@,
{
    Script { bytes }
}

/// The script that fills a non-negative number up to four bytes.
pub fn pad_to_four_gadget() -> (s: Script)
    ensures
        s@ == pad_to_four_script(),
{
    let s = script_of(
        vec![
            OP_SIZE, OP_4, OP_LESSTHAN, OP_IF,
            OP_SIZE, OP_2, OP_LESSTHAN, OP_IF, OP_PUSHBYTES_2, 0u8, 0u8, OP_CAT, OP_ENDIF,
            OP_SIZE, OP_3, OP_LESSTHAN, OP_IF, OP_PUSHBYTES_1, 0u8, OP_CAT, OP_ENDIF,
            OP_PUSHBYTES_1, 0u8, OP_CAT,
            OP_ENDIF,
        ],
    );
    assert(s@ =~= pad_to_four_script());
    s
}

/// The script that turns the four coordinates of an extension element on the
/// stack into its byte form.
pub fn serialize_felt_gadget() -> (s: Script)
    ensures
        s@ == serialize_felt_script(),
{
    let pad = pad_to_four_gadget();
    let mut step = Script::new();
    step.push_opcode(OP_SWAP);
    step.push_script(&pad);
    step.push_opcode(OP_SWAP);
    step.push_opcode(OP_CAT);
    assert(step@ =~= seq![OP_SWAP] + pad_to_four_script() + seq![OP_SWAP, OP_CAT]);
    let mut s = Script::new();
    s.push_script(&pad);
    s.push_repeated(&step, 3);
    assert(s@ =~= serialize_felt_script());
    s
}

/// The script that keeps the low `logn` bits of the field element on top of
/// the stack.
pub fn trim_m31_gadget(logn: usize) -> (s: Script)
    ensures
        s@ == trim_m31_script(logn),
{
    let mut s = Script::new();
    if logn >= 31 {
        return s;
    }
    let low: u32 = logn as u32;
    let mut top: u32 = 31;
    assert(s@ + trim_bits_script(low, top) =~= trim_bits_script(low, 31));
    while top > low
        invariant
            low <= top <= 31,
            s@ + trim_bits_script(low, top) == trim_bits_script(low, 31),
        decreases top,
    {
        let k: u32 = top - 1;
        assert((1u32 << k) <= 0x7fff_ffff) by (bit_vector)
            requires
                k < 31,
        ;
        let bit: u32 = 1u32 << k;
        let ghost before = s@;
        s.push_opcode(OP_DUP);
        s.push_number(bit);
        s.push_opcode(OP_GREATERTHANOREQUAL);
        s.push_opcode(OP_IF);
        s.push_number(bit);
        s.push_opcode(OP_SUB);
        s.push_opcode(OP_ENDIF);
        assert(s@ =~= before + (seq![OP_DUP] + number_push(bit) + seq![
            OP_GREATERTHANOREQUAL,
            OP_IF,
        ] + number_push(bit) + seq![OP_SUB, OP_ENDIF]));
        assert(s@ + trim_bits_script(low, k) =~= before + trim_bits_script(low, top));
        top = k;
    }
    assert(s@ + trim_bits_script(low, top) =~= s@);
    s
}

/// Gadget for a channel.
pub struct Sha256ChannelGadget;

impl Sha256ChannelGadget {
    /// Absorb a commitment. Stack before: the commitment, the digest on top.
    /// Stack after: the new digest.
    pub fn mix_digest() -> (s: Script)
        ensures
            s@ == mix_digest_script(),
    {
        let s = script_of(vec![OP_CAT, OP_SHA256]);
        assert(s@ =~= mix_digest_script());
        s
    }

    /// Absorb an extension element. Stack before: the four coordinates, the
    /// digest on top. Stack after: the new digest.
    pub fn mix_felt() -> (s: Script)
        ensures
            s@ == mix_felt_script(),
    {
        let mut s = Script::new();
        s.push_opcode(OP_TOALTSTACK);
        s.push_script(&serialize_felt_gadget());
        s.push_opcode(OP_FROMALTSTACK);
        s.push_opcode(OP_CAT);
        s.push_opcode(OP_SHA256);
        assert(s@ =~= mix_felt_script());
        s
    }

    /// The start of a squeeze.
    fn squeeze() -> (s: Script)
        ensures
            s@ == squeeze_script(),
    {
        let s = script_of(vec![OP_SHA256, OP_DUP, OP_PUSHBYTES_1, 0u8, OP_CAT, OP_SHA256, OP_SWAP]);
        assert(s@ =~= squeeze_script());
        s
    }

    /// Squeeze an extension element using hints. Stack before: the hint at
    /// the bottom, the digest on top. Stack after: the new digest and, on top
    /// of it, the four coordinates, the first drawn on top.
    pub fn draw_felt_with_hint() -> (s: Script)
        ensures
            s@ == draw_felt_with_hint_script(),
    {
        let mut s = Self::squeeze();
        s.push_script(&Self::unpack_multi_m31::<4>());
        s
    }

    /// Squeeze five queries of `logn` bits each, using hints. Stack after: the
    /// new digest and, on top of it, the five indices, the first drawn deepest.
    pub fn draw_5numbers_with_hint(logn: usize) -> (s: Script)
        ensures
            s@ == draw_5numbers_with_hint_script(logn),
    {
        let trim = trim_m31_gadget(logn);
        let mut s = Self::squeeze();
        s.push_script(&Self::unpack_multi_m31::<5>());
        s.push_script(&trim);
        s.push_opcode(OP_SWAP);
        s.push_script(&trim);
        s.push_opcode(OP_2SWAP);
        s.push_script(&trim);
        s.push_opcode(OP_SWAP);
        s.push_script(&trim);
        s.push_opcode(OP_4);
        s.push_opcode(OP_ROLL);
        s.push_script(&trim);
        assert(s@ =~= draw_5numbers_with_hint_script(logn));
        s
    }

    /// Push the hint for drawing `N` field elements from a hash.
    pub fn push_draw_hint<const N: usize>(e: &DrawHints) -> (s: Script)
        requires
            1 <= N <= 8,
            e.has_shape(N as nat),
            forall|i: int| 0 <= i < N ==> (#[trigger] e.encodings@[i])@.len() <= u32::MAX,
        ensures
            s@ == draw_hint_script(N as nat, e.encodings_view(), e.remainder@),
    {
        let ghost encs = e.encodings_view();
        let mut s = Script::new();
        let mut i: usize = 0;
        assert(encs.take(0) =~= Seq::<Seq<u8>>::empty());
        while i < N
            invariant
                i <= N,
                e.encodings@.len() == N,
                encs == e.encodings_view(),
                forall|j: int| 0 <= j < N ==> (#[trigger] e.encodings@[j])@.len() <= u32::MAX,
                s@ == data_pushes(encs.take(i as int)),
            decreases N - i,
        {
            s.push_data(&e.encodings[i]);
            proof {
                let next = encs.take(i + 1);
                assert(next.drop_last() =~= encs.take(i as int));
                assert(next.last() == e.encodings@[i as int]@);
            }
            i += 1;
        }
        assert(encs.take(N as int) =~= encs);
        if N % 8 != 0 {
            s.push_data(&e.remainder);
        }
        assert(s@ =~= draw_hint_script(N as nat, encs, e.remainder@));
        s
    }

    /// Reconstruct a 4-byte representation from a native integer: take the
    /// magnitude, pad it, and put the sign into the last byte.
    pub fn reconstruct() -> (s: Script)
        ensures
            s@ == reconstruct_script(),
    {
        let s = script_of(
            vec![
                OP_DUP, OP_PUSHBYTES_1, 0x80u8, OP_EQUAL,
                OP_IF,
                OP_DROP,
                OP_0, OP_TOALTSTACK,
                OP_PUSHBYTES_4, 0u8, 0u8, 0u8, 0u8,
                OP_ELSE,
                OP_DUP, OP_ABS,
                OP_DUP, OP_TOALTSTACK,
                OP_SIZE, OP_4, OP_LESSTHAN,
                OP_IF,
                OP_DUP, OP_ROT,
                OP_EQUAL, OP_TOALTSTACK,
                OP_SIZE, OP_2, OP_LESSTHAN, OP_IF, OP_PUSHBYTES_2, 0u8, 0u8, OP_CAT, OP_ENDIF,
                OP_SIZE, OP_3, OP_LESSTHAN, OP_IF, OP_PUSHBYTES_1, 0u8, OP_CAT, OP_ENDIF,
                OP_FROMALTSTACK,
                OP_IF,
                OP_PUSHBYTES_1, 0u8,
                OP_ELSE,
                OP_PUSHBYTES_1, 0x80u8,
                OP_ENDIF,
                OP_CAT,
                OP_ELSE,
                OP_DROP,
                OP_ENDIF,
                OP_ENDIF,
            ],
        );
        assert(s@ =~= reconstruct_script());
        s
    }

    /// Unpack `N` field elements and put them on the stack.
    pub fn unpack_multi_m31<const N: usize>() -> (s: Script)
        requires
            1 <= N <= 8,
        ensures
            s@ == unpack_multi_m31_script(N as nat),
    {
        let pull = script_of(vec![OP_DEPTH, OP_1SUB, OP_ROLL]);
        assert(pull@ =~= seq![OP_DEPTH, OP_1SUB, OP_ROLL]);
        let mut rebuild = Script::new();
        rebuild.push_number((N - 1) as u32);
        rebuild.push_opcode(OP_ROLL);
        rebuild.push_script(&Self::reconstruct());
        assert(rebuild@ =~= number_push((N - 1) as u32) + seq![OP_ROLL] + reconstruct_script());
        let join = script_of(vec![OP_CAT]);
        assert(join@ =~= seq![OP_CAT]);
        let reduce = script_of(vec![OP_FROMALTSTACK, OP_DUP, OP_NOT, OP_NOTIF, OP_1SUB, OP_ENDIF]);
        assert(reduce@ =~= reduce_script());

        let mut s = Script::new();
        s.push_repeated(&pull, N);
        s.push_repeated(&rebuild, N);
        s.push_repeated(&join, N - 1);
        if N % 8 != 0 {
            s.push_opcode(OP_DEPTH);
            s.push_opcode(OP_1SUB);
            s.push_opcode(OP_ROLL);
            s.push_opcode(OP_CAT);
        }
        s.push_opcode(OP_EQUALVERIFY);
        s.push_repeated(&reduce, N);
        assert(s@ =~= unpack_multi_m31_script(N as nat));
        s
    }
}

} // verus!
