//! Absorbing an extension element on the script machine: a run of the bytes
//! of the fragment leaves the digest that the channel computes.

use crate::channel::{absorbed, felt_bytes};
use crate::encoding::le_bytes;
use crate::field::QM31;
use crate::gadget::{mix_felt_script, pad_to_four_script};
use crate::hash::sha256;
use crate::machine::{all_taken, lemma_advance, max_element_len, number_bytes, number_value, push, run, truth, Branches, Stack};
use crate::opcodes::{OP_2, OP_3, OP_4, OP_CAT, OP_ENDIF, OP_FROMALTSTACK, OP_IF, OP_LESSTHAN, OP_PUSHBYTES_1, OP_PUSHBYTES_2, OP_SHA256, OP_SIZE, OP_SWAP, OP_TOALTSTACK};
use crate::reconstruct_proof::{inside, machine, one, two};
use crate::replay::is_minimal_number;
use crate::script::repeated;
use vstd::prelude::*;

verus! {

/// Whether `s` holds the padding fragment from position `b` on.
#[verifier::opaque]
pub open spec fn holds_padding(s: Seq<u8>, b: int) -> bool {
    0 <= b && b + 25 <= s.len() && s.subrange(b, b + 25) == pad_to_four_script()
}

/// A number of at most four bytes, filled up with zero bytes to four.
pub open spec fn padded(x: Seq<u8>) -> Seq<u8> {
    let a1 = if x.len() < 2 {
        x + seq![0u8, 0u8]
    } else {
        x
    };
    let a2 = if a1.len() < 3 {
        a1 + seq![0u8]
    } else {
        a1
    };
    if x.len() < 4 {
        a2 + seq![0u8]
    } else {
        x
    }
}

/// The bytes of the padding fragment, where a script holds it.
proof fn lemma_padding_bytes(s: Seq<u8>, b: int)
    requires
        holds_padding(s, b),
    ensures
        0 <= b && b + 25 <= s.len(),
        s[b] == OP_SIZE && s[b + 1] == OP_4 && s[b + 2] == OP_LESSTHAN && s[b + 3] == OP_IF,
        s[b + 4] == OP_SIZE && s[b + 5] == OP_2 && s[b + 6] == OP_LESSTHAN && s[b + 7] == OP_IF,
        s[b + 8] == OP_PUSHBYTES_2 && s[b + 11] == OP_CAT && s[b + 12] == OP_ENDIF,
        s[b + 13] == OP_SIZE && s[b + 14] == OP_3 && s[b + 15] == OP_LESSTHAN && s[b + 16]
            == OP_IF,
        s[b + 17] == OP_PUSHBYTES_1 && s[b + 19] == OP_CAT && s[b + 20] == OP_ENDIF,
        s[b + 21] == OP_PUSHBYTES_1 && s[b + 23] == OP_CAT && s[b + 24] == OP_ENDIF,
        s.subrange(b + 9, b + 11) == seq![0u8, 0u8],
        s.subrange(b + 18, b + 19) == seq![0u8],
        s.subrange(b + 22, b + 23) == seq![0u8],
{
    reveal(holds_padding);
    let p = s.subrange(b, b + 25);
    assert(p[0] == s[b] && p[1] == s[b + 1] && p[2] == s[b + 2] && p[3] == s[b + 3]);
    assert(p[4] == s[b + 4] && p[5] == s[b + 5] && p[6] == s[b + 6] && p[7] == s[b + 7]);
    assert(p[8] == s[b + 8] && p[9] == s[b + 9] && p[10] == s[b + 10] && p[11] == s[b + 11]);
    assert(p[12] == s[b + 12] && p[13] == s[b + 13] && p[14] == s[b + 14] && p[15] == s[b + 15]);
    assert(p[16] == s[b + 16] && p[17] == s[b + 17] && p[18] == s[b + 18] && p[19] == s[b + 19]);
    assert(p[20] == s[b + 20] && p[21] == s[b + 21] && p[22] == s[b + 22] && p[23] == s[b + 23]);
    assert(p[24] == s[b + 24]);
    assert(s.subrange(b + 9, b + 11) =~= seq![0u8, 0u8]);
    assert(s.subrange(b + 18, b + 19) =~= seq![0u8]);
    assert(s.subrange(b + 22, b + 23) =~= seq![0u8]);
}

/// The sizes up to four, as the machine writes and reads them.
proof fn lemma_size(k: int)
    requires
        0 <= k <= 4,
    ensures
        is_minimal_number(number_bytes(k)),
        number_value(number_bytes(k)) == k,
        is_minimal_number(seq![2u8]) && number_value(seq![2u8]) == 2,
        is_minimal_number(seq![3u8]) && number_value(seq![3u8]) == 3,
        is_minimal_number(seq![4u8]) && number_value(seq![4u8]) == 4,
{
    let expected = if k == 0 {
        Seq::<u8>::empty()
    } else {
        seq![k as u8]
    };
    assert(number_bytes(k) =~= expected);
}

/// The padding of a number that has four bytes already: nothing changes.
proof fn lemma_padding_of_four(s: Seq<u8>, b: int, st: Stack, al: Stack, x: Seq<u8>)
    requires
        holds_padding(s, b),
        x.len() == 4,
    ensures
        run(s, b, machine(push(st, x), al, Branches::Closed)) == run(
            s,
            b + 25,
            machine(push(st, x), al, Branches::Closed),
        ),
{
    reveal_with_fuel(all_taken, 4);
    lemma_padding_bytes(s, b);
    lemma_size(4);
    let c = Branches::Closed;
    let sx = push(st, x);
    let m0 = machine(sx, al, c);
    let m1 = machine(push(sx, number_bytes(4)), al, c);
    let m2 = machine(push(push(sx, number_bytes(4)), seq![4u8]), al, c);
    let m3 = machine(push(sx, truth(false)), al, c);
    let m = machine(sx, al, one(false));
    let inner = machine(sx, al, two(false, false));
    lemma_advance(s, b, m0, b + 1, m1);
    lemma_advance(s, b + 1, m1, b + 2, m2);
    lemma_advance(s, b + 2, m2, b + 3, m3);
    lemma_advance(s, b + 3, m3, b + 4, m);
    lemma_advance(s, b + 4, m, b + 5, m);
    lemma_advance(s, b + 5, m, b + 6, m);
    lemma_advance(s, b + 6, m, b + 7, m);
    lemma_advance(s, b + 7, m, b + 8, inner);
    lemma_advance(s, b + 8, inner, b + 11, inner);
    lemma_advance(s, b + 11, inner, b + 12, inner);
    lemma_advance(s, b + 12, inner, b + 13, m);
    lemma_advance(s, b + 13, m, b + 14, m);
    lemma_advance(s, b + 14, m, b + 15, m);
    lemma_advance(s, b + 15, m, b + 16, m);
    lemma_advance(s, b + 16, m, b + 17, inner);
    lemma_advance(s, b + 17, inner, b + 19, inner);
    lemma_advance(s, b + 19, inner, b + 20, inner);
    lemma_advance(s, b + 20, inner, b + 21, m);
    lemma_advance(s, b + 21, m, b + 23, m);
    lemma_advance(s, b + 23, m, b + 24, m);
    lemma_advance(s, b + 24, m, b + 25, m0);
}

/// The padding of a shorter number, up to two bytes.
proof fn lemma_padding_first(s: Seq<u8>, b: int, st: Stack, al: Stack, x: Seq<u8>)
    requires
        holds_padding(s, b),
        x.len() < 4,
    ensures
        run(s, b, machine(push(st, x), al, Branches::Closed)) == run(
            s,
            b + 13,
            machine(
                push(
                    st,
                    if x.len() < 2 {
                        x + seq![0u8, 0u8]
                    } else {
                        x
                    },
                ),
                al,
                one(true),
            ),
        ),
{
    reveal_with_fuel(all_taken, 4);
    lemma_padding_bytes(s, b);
    lemma_size(x.len() as int);
    let c = Branches::Closed;
    let o = one(true);
    let sx = push(st, x);
    let size = number_bytes(x.len() as int);
    let short = x.len() < 2;
    let zeros = seq![0u8, 0u8];
    let m0 = machine(sx, al, c);
    let m1 = machine(push(sx, size), al, c);
    let m2 = machine(push(push(sx, size), seq![4u8]), al, c);
    let m3 = machine(push(sx, truth(true)), al, c);
    let m4 = machine(sx, al, o);
    let m5 = machine(push(sx, size), al, o);
    let m6 = machine(push(push(sx, size), seq![2u8]), al, o);
    let m7 = machine(push(sx, truth(short)), al, o);
    let m8 = machine(sx, al, inside(short, o));
    lemma_advance(s, b, m0, b + 1, m1);
    lemma_advance(s, b + 1, m1, b + 2, m2);
    lemma_advance(s, b + 2, m2, b + 3, m3);
    lemma_advance(s, b + 3, m3, b + 4, m4);
    lemma_advance(s, b + 4, m4, b + 5, m5);
    lemma_advance(s, b + 5, m5, b + 6, m6);
    lemma_advance(s, b + 6, m6, b + 7, m7);
    lemma_advance(s, b + 7, m7, b + 8, m8);
    let filled = if short {
        x + zeros
    } else {
        x
    };
    let m12 = machine(push(st, filled), al, inside(short, o));
    if short {
        let m11 = machine(push(sx, zeros), al, inside(short, o));
        lemma_advance(s, b + 8, m8, b + 11, m11);
        lemma_advance(s, b + 11, m11, b + 12, m12);
    } else {
        lemma_advance(s, b + 8, m8, b + 11, m8);
        lemma_advance(s, b + 11, m8, b + 12, m12);
    }
    lemma_advance(s, b + 12, m12, b + 13, machine(push(st, filled), al, o));
}

/// The padding of a shorter number, from two bytes to four.
proof fn lemma_padding_second(s: Seq<u8>, b: int, st: Stack, al: Stack, x: Seq<u8>)
    requires
        holds_padding(s, b),
        2 <= x.len() <= 3,
    ensures
        run(s, b + 13, machine(push(st, x), al, one(true))) == run(
            s,
            b + 25,
            machine(
                push(
                    st,
                    (if x.len() < 3 {
                        x + seq![0u8]
                    } else {
                        x
                    }) + seq![0u8],
                ),
                al,
                Branches::Closed,
            ),
        ),
{
    reveal_with_fuel(all_taken, 4);
    lemma_padding_bytes(s, b);
    lemma_size(x.len() as int);
    let o = one(true);
    let sx = push(st, x);
    let size = number_bytes(x.len() as int);
    let short = x.len() < 3;
    let zero = seq![0u8];
    let m13 = machine(sx, al, o);
    let m14 = machine(push(sx, size), al, o);
    let m15 = machine(push(push(sx, size), seq![3u8]), al, o);
    let m16 = machine(push(sx, truth(short)), al, o);
    let m17 = machine(sx, al, inside(short, o));
    lemma_advance(s, b + 13, m13, b + 14, m14);
    lemma_advance(s, b + 14, m14, b + 15, m15);
    lemma_advance(s, b + 15, m15, b + 16, m16);
    lemma_advance(s, b + 16, m16, b + 17, m17);
    let filled = if short {
        x + zero
    } else {
        x
    };
    let m20 = machine(push(st, filled), al, inside(short, o));
    if short {
        let m19 = machine(push(sx, zero), al, inside(short, o));
        lemma_advance(s, b + 17, m17, b + 19, m19);
        lemma_advance(s, b + 19, m19, b + 20, m20);
    } else {
        lemma_advance(s, b + 17, m17, b + 19, m17);
        lemma_advance(s, b + 19, m17, b + 20, m20);
    }
    let m21 = machine(push(st, filled), al, o);
    let m23 = machine(push(push(st, filled), zero), al, o);
    let m24 = machine(push(st, filled + zero), al, o);
    lemma_advance(s, b + 20, m20, b + 21, m21);
    lemma_advance(s, b + 21, m21, b + 23, m23);
    lemma_advance(s, b + 23, m23, b + 24, m24);
    lemma_advance(s, b + 24, m24, b + 25, machine(push(st, filled + zero), al, Branches::Closed));
}

/// The padding fragment, wherever a script holds it: a number of at most four
/// bytes on top of the stack is filled up to four bytes.
pub proof fn lemma_padding_runs(s: Seq<u8>, b: int, st: Stack, al: Stack, x: Seq<u8>)
    requires
        holds_padding(s, b),
        x.len() <= 4,
    ensures
        run(s, b, machine(push(st, x), al, Branches::Closed)) == run(
            s,
            b + 25,
            machine(push(st, padded(x)), al, Branches::Closed),
        ),
{
    if x.len() == 4 {
        lemma_padding_of_four(s, b, st, al, x);
        assert(padded(x) == x);
    } else {
        let x1 = if x.len() < 2 {
            x + seq![0u8, 0u8]
        } else {
            x
        };
        let x2 = if x1.len() < 3 {
            x1 + seq![0u8]
        } else {
            x1
        };
        lemma_padding_first(s, b, st, al, x);
        lemma_padding_second(s, b, st, al, x1);
        assert(padded(x) == x2 + seq![0u8]);
    }
}

/// A field element as a number of the machine is at most four bytes, and
/// filled up to four bytes it is the little-endian word of the element.
pub proof fn lemma_padded_number(v: u32)
    requires
        v <= 0x7fff_ffff,
    ensures
        number_bytes(v as int).len() <= 4,
        padded(number_bytes(v as int)) == le_bytes(v),
{
    assert(padded(number_bytes(v as int)) =~= le_bytes(v));
}

/// One coordinate joined in front of what is there: swap, pad, swap, join.
proof fn lemma_join_runs(s: Seq<u8>, b: int, st: Stack, al: Stack, acc: Seq<u8>, x: Seq<u8>)
    requires
        0 <= b && b + 28 <= s.len(),
        s[b] == OP_SWAP,
        holds_padding(s, b + 1),
        s[b + 26] == OP_SWAP,
        s[b + 27] == OP_CAT,
        x.len() <= 4,
        acc.len() + 4 <= max_element_len(),
    ensures
        run(s, b, machine(push(push(st, x), acc), al, Branches::Closed)) == run(
            s,
            b + 28,
            machine(push(st, padded(x) + acc), al, Branches::Closed),
        ),
{
    reveal_with_fuel(all_taken, 2);
    let c = Branches::Closed;
    let m0 = machine(push(push(st, x), acc), al, c);
    let m1 = machine(push(push(st, acc), x), al, c);
    let m26 = machine(push(push(st, acc), padded(x)), al, c);
    let m27 = machine(push(push(st, padded(x)), acc), al, c);
    let m28 = machine(push(st, padded(x) + acc), al, c);
    lemma_advance(s, b, m0, b + 1, m1);
    lemma_padding_runs(s, b + 1, push(st, acc), al, x);
    lemma_advance(s, b + 26, m26, b + 27, m27);
    lemma_advance(s, b + 27, m27, b + 28, m28);
}

/// Where the parts of the fragment that absorbs an element stand.
pub open spec fn has_mix_felt_layout(s: Seq<u8>) -> bool {
    &&& s.len() == 113
    &&& s[0] == OP_TOALTSTACK
    &&& holds_padding(s, 1)
    &&& s[26] == OP_SWAP && holds_padding(s, 27) && s[52] == OP_SWAP && s[53] == OP_CAT
    &&& s[54] == OP_SWAP && holds_padding(s, 55) && s[80] == OP_SWAP && s[81] == OP_CAT
    &&& s[82] == OP_SWAP && holds_padding(s, 83) && s[108] == OP_SWAP && s[109] == OP_CAT
    &&& s[110] == OP_FROMALTSTACK && s[111] == OP_CAT && s[112] == OP_SHA256
}

/// The fragment that absorbs an element has its parts where they belong.
proof fn lemma_mix_felt_layout()
    ensures
        has_mix_felt_layout(mix_felt_script()),
{
    reveal(holds_padding);
    reveal_with_fuel(repeated, 4);
    let s = mix_felt_script();
    let pad = pad_to_four_script();
    let step = seq![OP_SWAP] + pad + seq![OP_SWAP, OP_CAT];
    assert(pad.len() == 25);
    assert(step.len() == 28);
    assert(repeated(step, 3) =~= step + step + step);
    assert(s =~= seq![OP_TOALTSTACK] + pad + step + step + step + seq![
        OP_FROMALTSTACK,
        OP_CAT,
        OP_SHA256,
    ]);
    assert(s.subrange(1, 26) =~= pad);
    assert(s.subrange(27, 52) =~= pad);
    assert(s.subrange(55, 80) =~= pad);
    assert(s.subrange(83, 108) =~= pad);
}

/// The coordinates of an element as the numbers that lie on the stack.
pub open spec fn with_felt(st: Stack, x: QM31) -> Stack {
    push(
        push(
            push(push(st, number_bytes(x.1.1.0 as int)), number_bytes(x.1.0.0 as int)),
            number_bytes(x.0.1.0 as int),
        ),
        number_bytes(x.0.0.0 as int),
    )
}

/// The four coordinates are serialised and joined, the deepest first.
proof fn lemma_serialize_runs(
    s: Seq<u8>,
    st: Stack,
    al: Stack,
    c11: Seq<u8>,
    c10: Seq<u8>,
    c01: Seq<u8>,
    c00: Seq<u8>,
)
    requires
        has_mix_felt_layout(s),
        c11.len() <= 4 && c10.len() <= 4 && c01.len() <= 4 && c00.len() <= 4,
        padded(c11).len() == 4 && padded(c10).len() == 4 && padded(c01).len() == 4 && padded(
            c00,
        ).len() == 4,
    ensures
        run(s, 1, machine(push(push(push(push(st, c11), c10), c01), c00), al, Branches::Closed))
            == run(
            s,
            110,
            machine(
                push(st, padded(c11) + (padded(c10) + (padded(c01) + padded(c00)))),
                al,
                Branches::Closed,
            ),
        ),
{
    lemma_padding_runs(s, 1, push(push(push(st, c11), c10), c01), al, c00);
    lemma_join_runs(s, 26, push(push(st, c11), c10), al, padded(c00), c01);
    lemma_join_runs(s, 54, push(st, c11), al, padded(c01) + padded(c00), c10);
    lemma_join_runs(s, 82, st, al, padded(c10) + (padded(c01) + padded(c00)), c11);
}

/// The serialised element is joined with the digest and hashed.
proof fn lemma_absorb_runs(s: Seq<u8>, st: Stack, al: Stack, bytes: Seq<u8>, digest: Seq<u8>)
    requires
        has_mix_felt_layout(s),
        bytes.len() + digest.len() <= max_element_len(),
    ensures
        run(s, 110, machine(push(st, bytes), push(al, digest), Branches::Closed)) == Some(
            machine(push(st, sha256(bytes + digest)), al, Branches::Closed),
        ),
{
    reveal_with_fuel(all_taken, 2);
    let c = Branches::Closed;
    let m110 = machine(push(st, bytes), push(al, digest), c);
    let m111 = machine(push(push(st, bytes), digest), al, c);
    let m112 = machine(push(st, bytes + digest), al, c);
    let m113 = machine(push(st, sha256(bytes + digest)), al, c);
    lemma_advance(s, 110, m110, 111, m111);
    lemma_advance(s, 111, m111, 112, m112);
    lemma_advance(s, 112, m112, 113, m113);
    assert(run(s, 113, m113) == Some(m113));
}

/// The byte form of an element, from the padded numbers of its coordinates.
proof fn lemma_felt_bytes(x: QM31)
    requires
        x.is_reduced(),
    ensures
        padded(number_bytes(x.1.1.0 as int)) + (padded(number_bytes(x.1.0.0 as int)) + (padded(
            number_bytes(x.0.1.0 as int),
        ) + padded(number_bytes(x.0.0.0 as int)))) == felt_bytes(x),
        felt_bytes(x).len() == 16,
{
    lemma_padded_number(x.1.1.0);
    lemma_padded_number(x.1.0.0);
    lemma_padded_number(x.0.1.0);
    lemma_padded_number(x.0.0.0);
    let w11 = le_bytes(x.1.1.0);
    let w10 = le_bytes(x.1.0.0);
    let w01 = le_bytes(x.0.1.0);
    let w00 = le_bytes(x.0.0.0);
    assert(w11 + (w10 + (w01 + w00)) =~= felt_bytes(x));
}

/// The whole fragment on a script with its layout.
proof fn lemma_mix_felt_runs_on(s: Seq<u8>, st: Stack, al: Stack, x: QM31, digest: Seq<u8>)
    requires
        has_mix_felt_layout(s),
        x.is_reduced(),
        digest.len() + 16 <= max_element_len(),
    ensures
        run(s, 0, machine(push(with_felt(st, x), digest), al, Branches::Closed)) == Some(
            machine(push(st, sha256(felt_bytes(x) + digest)), al, Branches::Closed),
        ),
{
    reveal_with_fuel(all_taken, 2);
    let c11 = number_bytes(x.1.1.0 as int);
    let c10 = number_bytes(x.1.0.0 as int);
    let c01 = number_bytes(x.0.1.0 as int);
    let c00 = number_bytes(x.0.0.0 as int);
    lemma_padded_number(x.1.1.0);
    lemma_padded_number(x.1.0.0);
    lemma_padded_number(x.0.1.0);
    lemma_padded_number(x.0.0.0);
    lemma_felt_bytes(x);
    let m0 = machine(push(with_felt(st, x), digest), al, Branches::Closed);
    let m1 = machine(with_felt(st, x), push(al, digest), Branches::Closed);
    lemma_advance(s, 0, m0, 1, m1);
    lemma_serialize_runs(s, st, push(al, digest), c11, c10, c01, c00);
    lemma_absorb_runs(s, st, al, felt_bytes(x), digest);
}

/// Absorbing an element on the machine: with the four coordinates of the
/// element and, on top of them, the digest on the stack, the run leaves the
/// digest that the channel computes: the hash of the byte form of the element
/// followed by the digest.
pub proof fn lemma_mix_felt_runs(st: Stack, al: Stack, x: QM31, digest: Seq<u8>)
    requires
        x.is_reduced(),
        digest.len() + 16 <= max_element_len(),
    ensures
        run(mix_felt_script(), 0, machine(push(with_felt(st, x), digest), al, Branches::Closed))
            == Some(machine(push(st, absorbed(digest, felt_bytes(x))), al, Branches::Closed)),
{
    lemma_mix_felt_layout();
    lemma_mix_felt_runs_on(mix_felt_script(), st, al, x, digest);
}

} // verus!
