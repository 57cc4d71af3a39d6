//! The reconstruct fragment on the script machine: a run of its bytes does to
//! the top of the stack what the replay of the fragment computes.

use crate::gadget::reconstruct_script;
use crate::machine::{all_taken, depth, item_at, lemma_abort, lemma_advance, number_bytes, number_value, push, run, truth, without, Branches, Machine, Stack};
use crate::opcodes::{OP_0, OP_2, OP_3, OP_4, OP_ABS, OP_CAT, OP_DROP, OP_DUP, OP_ELSE, OP_ENDIF, OP_EQUAL, OP_FROMALTSTACK, OP_IF, OP_LESSTHAN, OP_PUSHBYTES_1, OP_PUSHBYTES_2, OP_PUSHBYTES_4, OP_ROT, OP_SIZE, OP_TOALTSTACK};
use crate::replay::{is_minimal_number, is_negative_zero_literal, magnitude_bytes, number_is_negative, reconstructed_magnitude, reconstructed_word};
use vstd::prelude::*;

verus! {

/// The magnitude that the fragment moves to the side stack, as a number of
/// the script machine.
pub open spec fn kept_magnitude(e: Seq<u8>) -> Seq<u8> {
    if is_negative_zero_literal(e) {
        Seq::empty()
    } else {
        magnitude_bytes(e)
    }
}

/// A machine in the given state.
pub open spec fn machine(stack: Stack, alt: Stack, branches: Branches) -> Machine {
    Machine { stack, alt, branches }
}

/// One open conditional.
pub open spec fn one(a: bool) -> Branches {
    Branches::Open(a, Box::new(Branches::Closed))
}

/// Two conditionals, the inner one first.
pub open spec fn two(a: bool, b: bool) -> Branches {
    Branches::Open(a, Box::new(one(b)))
}

/// A conditional inside the given ones.
pub open spec fn inside(a: bool, outer: Branches) -> Branches {
    Branches::Open(a, Box::new(outer))
}

/// Whether `s` holds the reconstruct fragment from position `b` on.
#[verifier::opaque]
pub open spec fn holds_reconstruct(s: Seq<u8>, at: int) -> bool {
    0 <= at && at + 56 <= s.len() && s.subrange(at, at + 56) == reconstruct_script()
}

/// The bytes of the reconstruct fragment, where a script holds it.
proof fn lemma_reconstruct_bytes(s: Seq<u8>, at: int)
    requires
        holds_reconstruct(s, at),
    ensures
        0 <= at && at + 56 <= s.len(),
        s[at + 0] == OP_DUP && s[at + 1] == OP_PUSHBYTES_1 && s[at + 2] == 0x80u8 && s[at + 3] == OP_EQUAL,
        s[at + 4] == OP_IF && s[at + 5] == OP_DROP && s[at + 6] == OP_0 && s[at + 7] == OP_TOALTSTACK,
        s[at + 8] == OP_PUSHBYTES_4 && s[at + 9] == 0u8 && s[at + 10] == 0u8 && s[at + 11] == 0u8,
        s[at + 12] == 0u8 && s[at + 13] == OP_ELSE && s[at + 14] == OP_DUP && s[at + 15] == OP_ABS,
        s[at + 16] == OP_DUP && s[at + 17] == OP_TOALTSTACK && s[at + 18] == OP_SIZE && s[at + 19] == OP_4,
        s[at + 20] == OP_LESSTHAN && s[at + 21] == OP_IF && s[at + 22] == OP_DUP && s[at + 23] == OP_ROT,
        s[at + 24] == OP_EQUAL && s[at + 25] == OP_TOALTSTACK && s[at + 26] == OP_SIZE && s[at + 27] == OP_2,
        s[at + 28] == OP_LESSTHAN && s[at + 29] == OP_IF && s[at + 30] == OP_PUSHBYTES_2 && s[at + 31] == 0u8,
        s[at + 32] == 0u8 && s[at + 33] == OP_CAT && s[at + 34] == OP_ENDIF && s[at + 35] == OP_SIZE,
        s[at + 36] == OP_3 && s[at + 37] == OP_LESSTHAN && s[at + 38] == OP_IF && s[at + 39] == OP_PUSHBYTES_1,
        s[at + 40] == 0u8 && s[at + 41] == OP_CAT && s[at + 42] == OP_ENDIF && s[at + 43] == OP_FROMALTSTACK,
        s[at + 44] == OP_IF && s[at + 45] == OP_PUSHBYTES_1 && s[at + 46] == 0u8 && s[at + 47] == OP_ELSE,
        s[at + 48] == OP_PUSHBYTES_1 && s[at + 49] == 0x80u8 && s[at + 50] == OP_ENDIF && s[at + 51] == OP_CAT,
        s[at + 52] == OP_ELSE && s[at + 53] == OP_DROP && s[at + 54] == OP_ENDIF && s[at + 55] == OP_ENDIF,
{
    reveal(holds_reconstruct);
    let p = s.subrange(at, at + 56);
    assert(p[0] == s[at + 0] && p[1] == s[at + 1] && p[2] == s[at + 2] && p[3] == s[at + 3]);
    assert(p[4] == s[at + 4] && p[5] == s[at + 5] && p[6] == s[at + 6] && p[7] == s[at + 7]);
    assert(p[8] == s[at + 8] && p[9] == s[at + 9] && p[10] == s[at + 10] && p[11] == s[at + 11]);
    assert(p[12] == s[at + 12] && p[13] == s[at + 13] && p[14] == s[at + 14] && p[15] == s[at + 15]);
    assert(p[16] == s[at + 16] && p[17] == s[at + 17] && p[18] == s[at + 18] && p[19] == s[at + 19]);
    assert(p[20] == s[at + 20] && p[21] == s[at + 21] && p[22] == s[at + 22] && p[23] == s[at + 23]);
    assert(p[24] == s[at + 24] && p[25] == s[at + 25] && p[26] == s[at + 26] && p[27] == s[at + 27]);
    assert(p[28] == s[at + 28] && p[29] == s[at + 29] && p[30] == s[at + 30] && p[31] == s[at + 31]);
    assert(p[32] == s[at + 32] && p[33] == s[at + 33] && p[34] == s[at + 34] && p[35] == s[at + 35]);
    assert(p[36] == s[at + 36] && p[37] == s[at + 37] && p[38] == s[at + 38] && p[39] == s[at + 39]);
    assert(p[40] == s[at + 40] && p[41] == s[at + 41] && p[42] == s[at + 42] && p[43] == s[at + 43]);
    assert(p[44] == s[at + 44] && p[45] == s[at + 45] && p[46] == s[at + 46] && p[47] == s[at + 47]);
    assert(p[48] == s[at + 48] && p[49] == s[at + 49] && p[50] == s[at + 50] && p[51] == s[at + 51]);
    assert(p[52] == s[at + 52] && p[53] == s[at + 53] && p[54] == s[at + 54] && p[55] == s[at + 55]);
}

/// The numbers up to four, as the machine writes them.
proof fn lemma_small_number(k: int)
    requires
        0 <= k <= 4,
    ensures
        is_minimal_number(number_bytes(k)),
        number_value(number_bytes(k)) == k,
{
    let expected = if k == 0 {
        Seq::<u8>::empty()
    } else {
        seq![k as u8]
    };
    assert(number_bytes(k) =~= expected);
}

/// From the start to the first conditional: is the encoding the literal 0x80?
proof fn lemma_literal_test(s: Seq<u8>, at: int, st: Stack, al: Stack, e: Seq<u8>)
    requires
        holds_reconstruct(s, at),
    ensures
        run(s, at + 0, machine(push(st, e), al, Branches::Closed)) == run(s, at + 5,
            machine(push(st, e), al, one(is_negative_zero_literal(e))),
        ),
{
    reveal_with_fuel(all_taken, 4);
    lemma_reconstruct_bytes(s, at);
    let lit = is_negative_zero_literal(e);
    let m0 = machine(push(st, e), al, Branches::Closed);
    let m1 = machine(push(push(st, e), e), al, Branches::Closed);
    let m2 = machine(push(push(push(st, e), e), seq![0x80u8]), al, Branches::Closed);
    let m3 = machine(push(push(st, e), truth(lit)), al, Branches::Closed);
    let m4 = machine(push(st, e), al, one(lit));
    lemma_advance(s, at + 0, m0, at + 1, m1);
    assert(s.subrange(at + 2, at + 3) =~= seq![0x80u8]);
    lemma_advance(s, at + 1, m1, at + 3, m2);
    assert(lit <==> e =~= seq![0x80u8]);
    lemma_advance(s, at + 3, m2, at + 4, m3);
    lemma_advance(s, at + 4, m3, at + 5, m4);
}

/// The branch of the literal: four zero bytes, and zero kept aside.
proof fn lemma_literal_branch(s: Seq<u8>, at: int, st: Stack, al: Stack, e: Seq<u8>)
    requires
        holds_reconstruct(s, at),
    ensures
        run(s, at + 5, machine(push(st, e), al, one(true))) == run(s, at + 14,
            machine(push(st, seq![0u8, 0u8, 0u8, 0u8]), push(al, Seq::empty()), one(false)),
        ),
{
    reveal_with_fuel(all_taken, 4);
    lemma_reconstruct_bytes(s, at);
    let z4 = seq![0u8, 0u8, 0u8, 0u8];
    let none = Seq::<u8>::empty();
    let m5 = machine(push(st, e), al, one(true));
    let m6 = machine(st, al, one(true));
    let m7 = machine(push(st, none), al, one(true));
    let m8 = machine(st, push(al, none), one(true));
    let m13 = machine(push(st, z4), push(al, none), one(true));
    let m14 = machine(push(st, z4), push(al, none), one(false));
    lemma_advance(s, at + 5, m5, at + 6, m6);
    lemma_advance(s, at + 6, m6, at + 7, m7);
    lemma_advance(s, at + 7, m7, at + 8, m8);
    assert(s.subrange(at + 9, at + 13) =~= z4);
    lemma_advance(s, at + 8, m8, at + 13, m13);
    lemma_advance(s, at + 13, m13, at + 14, m14);
}

/// The general branch passed over, up to the conditional on the size.
proof fn lemma_pass_over_head(s: Seq<u8>, at: int, st: Stack, al: Stack)
    requires
        holds_reconstruct(s, at),
    ensures
        run(s, at + 14, machine(st, al, one(false))) == run(s, at + 22, machine(st, al, two(false, false))),
{
    reveal_with_fuel(all_taken, 4);
    lemma_reconstruct_bytes(s, at);
    let m = machine(st, al, one(false));
    lemma_advance(s, at + 14, m, at + 15, m);
    lemma_advance(s, at + 15, m, at + 16, m);
    lemma_advance(s, at + 16, m, at + 17, m);
    lemma_advance(s, at + 17, m, at + 18, m);
    lemma_advance(s, at + 18, m, at + 19, m);
    lemma_advance(s, at + 19, m, at + 20, m);
    lemma_advance(s, at + 20, m, at + 21, m);
    lemma_advance(s, at + 21, m, at + 22, machine(st, al, two(false, false)));
}

/// The padding passed over, first half.
proof fn lemma_pass_over_padding(s: Seq<u8>, at: int, st: Stack, al: Stack, outer: Branches)
    requires
        holds_reconstruct(s, at),
    ensures
        run(s, at + 22, machine(st, al, inside(false, outer))) == run(s, at + 35,
            machine(st, al, inside(false, outer)),
        ),
{
    reveal_with_fuel(all_taken, 4);
    lemma_reconstruct_bytes(s, at);
    let m = machine(st, al, inside(false, outer));
    let inner = machine(st, al, inside(false, inside(false, outer)));
    lemma_advance(s, at + 22, m, at + 23, m);
    lemma_advance(s, at + 23, m, at + 24, m);
    lemma_advance(s, at + 24, m, at + 25, m);
    lemma_advance(s, at + 25, m, at + 26, m);
    lemma_advance(s, at + 26, m, at + 27, m);
    lemma_advance(s, at + 27, m, at + 28, m);
    lemma_advance(s, at + 28, m, at + 29, m);
    lemma_advance(s, at + 29, m, at + 30, inner);
    lemma_advance(s, at + 30, inner, at + 33, inner);
    lemma_advance(s, at + 33, inner, at + 34, inner);
    lemma_advance(s, at + 34, inner, at + 35, m);
}

/// The padding passed over, second half, and the sign byte.
proof fn lemma_pass_over_sign(s: Seq<u8>, at: int, st: Stack, al: Stack, outer: Branches)
    requires
        holds_reconstruct(s, at),
    ensures
        run(s, at + 35, machine(st, al, inside(false, outer))) == run(s, at + 52,
            machine(st, al, inside(false, outer)),
        ),
{
    reveal_with_fuel(all_taken, 4);
    lemma_reconstruct_bytes(s, at);
    let m = machine(st, al, inside(false, outer));
    let inner = machine(st, al, inside(false, inside(false, outer)));
    let other = machine(st, al, inside(true, inside(false, outer)));
    lemma_advance(s, at + 35, m, at + 36, m);
    lemma_advance(s, at + 36, m, at + 37, m);
    lemma_advance(s, at + 37, m, at + 38, m);
    lemma_advance(s, at + 38, m, at + 39, inner);
    lemma_advance(s, at + 39, inner, at + 41, inner);
    lemma_advance(s, at + 41, inner, at + 42, inner);
    lemma_advance(s, at + 42, inner, at + 43, m);
    lemma_advance(s, at + 43, m, at + 44, m);
    lemma_advance(s, at + 44, m, at + 45, inner);
    lemma_advance(s, at + 45, inner, at + 47, inner);
    lemma_advance(s, at + 47, inner, at + 48, other);
    lemma_advance(s, at + 48, other, at + 50, other);
    lemma_advance(s, at + 50, other, at + 51, m);
    lemma_advance(s, at + 51, m, at + 52, m);
}

/// The end of the script where the branch for short numbers was passed over
/// with the outer conditional not taken either.
proof fn lemma_literal_end(s: Seq<u8>, at: int, st: Stack, al: Stack)
    requires
        holds_reconstruct(s, at),
    ensures
        run(s, at + 52, machine(st, al, two(false, false))) == run(s, at + 56, 
            machine(st, al, Branches::Closed),
        ),
{
    reveal_with_fuel(all_taken, 4);
    lemma_reconstruct_bytes(s, at);
    let m52 = machine(st, al, two(false, false));
    let m53 = machine(st, al, two(true, false));
    let m55 = machine(st, al, one(false));
    let end = machine(st, al, Branches::Closed);
    lemma_advance(s, at + 52, m52, at + 53, m53);
    lemma_advance(s, at + 53, m53, at + 54, m53);
    lemma_advance(s, at + 54, m53, at + 55, m55);
    lemma_advance(s, at + 55, m55, at + 56, end);
}

/// The branch of the literal passed over.
proof fn lemma_pass_over_literal(s: Seq<u8>, at: int, st: Stack, al: Stack)
    requires
        holds_reconstruct(s, at),
    ensures
        run(s, at + 5, machine(st, al, one(false))) == run(s, at + 14, machine(st, al, one(true))),
{
    reveal_with_fuel(all_taken, 4);
    lemma_reconstruct_bytes(s, at);
    let m = machine(st, al, one(false));
    lemma_advance(s, at + 5, m, at + 6, m);
    lemma_advance(s, at + 6, m, at + 7, m);
    lemma_advance(s, at + 7, m, at + 8, m);
    lemma_advance(s, at + 8, m, at + 13, m);
    lemma_advance(s, at + 13, m, at + 14, machine(st, al, one(true)));
}

/// The absolute value is taken and kept aside, and its size decides.
proof fn lemma_magnitude(s: Seq<u8>, at: int, st: Stack, al: Stack, e: Seq<u8>)
    requires
        holds_reconstruct(s, at),
        is_minimal_number(e),
    ensures
        run(s, at + 14, machine(push(st, e), al, one(true))) == run(s, at + 22,
            machine(
                push(push(st, e), magnitude_bytes(e)),
                push(al, magnitude_bytes(e)),
                two(e.len() < 4, true),
            ),
        ),
{
    reveal_with_fuel(all_taken, 4);
    lemma_reconstruct_bytes(s, at);
    let a = magnitude_bytes(e);
    let size = number_bytes(a.len() as int);
    lemma_small_number(a.len() as int);
    let four = seq![4u8];
    assert(is_minimal_number(four) && number_value(four) == 4);
    let m14 = machine(push(st, e), al, one(true));
    let m15 = machine(push(push(st, e), e), al, one(true));
    let m16 = machine(push(push(st, e), a), al, one(true));
    let m17 = machine(push(push(push(st, e), a), a), al, one(true));
    let m18 = machine(push(push(st, e), a), push(al, a), one(true));
    let m19 = machine(push(push(push(st, e), a), size), push(al, a), one(true));
    let m20 = machine(push(push(push(push(st, e), a), size), four), push(al, a), one(true));
    let m21 = machine(push(push(push(st, e), a), truth(e.len() < 4)), push(al, a), one(true));
    let m22 = machine(push(push(st, e), a), push(al, a), two(e.len() < 4, true));
    lemma_advance(s, at + 14, m14, at + 15, m15);
    lemma_advance(s, at + 15, m15, at + 16, m16);
    lemma_advance(s, at + 16, m16, at + 17, m17);
    lemma_advance(s, at + 17, m17, at + 18, m18);
    lemma_advance(s, at + 18, m18, at + 19, m19);
    lemma_advance(s, at + 19, m19, at + 20, m20);
    lemma_advance(s, at + 20, m20, at + 21, m21);
    lemma_advance(s, at + 21, m21, at + 22, m22);
}

/// A number that is not minimal stops the script at the absolute value.
proof fn lemma_not_a_number(s: Seq<u8>, at: int, st: Stack, al: Stack, e: Seq<u8>)
    requires
        holds_reconstruct(s, at),
        !is_minimal_number(e),
    ensures
        run(s, at + 14, machine(push(st, e), al, one(true))) is None,
{
    reveal_with_fuel(all_taken, 4);
    lemma_reconstruct_bytes(s, at);
    let m14 = machine(push(st, e), al, one(true));
    let m15 = machine(push(push(st, e), e), al, one(true));
    lemma_advance(s, at + 14, m14, at + 15, m15);
    lemma_abort(s, at + 15, m15);
}

/// The end of the script for a number of four bytes: the absolute value is
/// dropped and the encoding stays.
proof fn lemma_long_end(s: Seq<u8>, at: int, st: Stack, al: Stack, e: Seq<u8>, a: Seq<u8>)
    requires
        holds_reconstruct(s, at),
    ensures
        run(s, at + 52, machine(push(push(st, e), a), al, two(false, true))) == run(s, at + 56, 
            machine(push(st, e), al, Branches::Closed),
        ),
{
    reveal_with_fuel(all_taken, 4);
    lemma_reconstruct_bytes(s, at);
    let m52 = machine(push(push(st, e), a), al, two(false, true));
    let m53 = machine(push(push(st, e), a), al, two(true, true));
    let m54 = machine(push(st, e), al, two(true, true));
    let m55 = machine(push(st, e), al, one(true));
    let end = machine(push(st, e), al, Branches::Closed);
    lemma_advance(s, at + 52, m52, at + 53, m53);
    lemma_advance(s, at + 53, m53, at + 54, m54);
    lemma_advance(s, at + 54, m54, at + 55, m55);
    lemma_advance(s, at + 55, m55, at + 56, end);
}

/// A short number: whether the absolute value is the number itself is kept
/// aside, and the absolute value alone stays on the stack.
proof fn lemma_short_sign_aside(s: Seq<u8>, at: int, st: Stack, al: Stack, e: Seq<u8>, a: Seq<u8>)
    requires
        holds_reconstruct(s, at),
    ensures
        run(s, at + 22, machine(push(push(st, e), a), al, two(true, true))) == run(s, at + 26,
            machine(push(st, a), push(al, truth(a == e)), two(true, true)),
        ),
{
    reveal_with_fuel(all_taken, 4);
    lemma_reconstruct_bytes(s, at);
    reveal_with_fuel(depth, 4);
    reveal_with_fuel(item_at, 4);
    reveal_with_fuel(without, 4);
    let b = two(true, true);
    let m22 = machine(push(push(st, e), a), al, b);
    let m23 = machine(push(push(push(st, e), a), a), al, b);
    let m24 = machine(push(push(push(st, a), a), e), al, b);
    let m25 = machine(push(push(st, a), truth(a == e)), al, b);
    let m26 = machine(push(st, a), push(al, truth(a == e)), b);
    lemma_advance(s, at + 22, m22, at + 23, m23);
    assert(without(m23.stack, 2) == push(push(st, a), a));
    assert(item_at(m23.stack, 2) == e);
    lemma_advance(s, at + 23, m23, at + 24, m24);
    lemma_advance(s, at + 24, m24, at + 25, m25);
    lemma_advance(s, at + 25, m25, at + 26, m26);
}

/// A short number: the magnitude is padded to two bytes where it has fewer.
proof fn lemma_short_first_padding(s: Seq<u8>, at: int, st: Stack, al: Stack, a: Seq<u8>)
    requires
        holds_reconstruct(s, at),
        a.len() < 4,
    ensures
        run(s, at + 26, machine(push(st, a), al, two(true, true))) == run(s, at + 35,
            machine(
                push(
                    st,
                    if a.len() < 2 {
                        a + seq![0u8, 0u8]
                    } else {
                        a
                    },
                ),
                al,
                two(true, true),
            ),
        ),
{
    reveal_with_fuel(all_taken, 4);
    lemma_reconstruct_bytes(s, at);
    let b = two(true, true);
    let size = number_bytes(a.len() as int);
    lemma_small_number(a.len() as int);
    let two_ = seq![2u8];
    assert(is_minimal_number(two_) && number_value(two_) == 2);
    let short = a.len() < 2;
    let zeros = seq![0u8, 0u8];
    let m26 = machine(push(st, a), al, b);
    let m27 = machine(push(push(st, a), size), al, b);
    let m28 = machine(push(push(push(st, a), size), two_), al, b);
    let m29 = machine(push(push(st, a), truth(short)), al, b);
    let m30 = machine(push(st, a), al, inside(short, b));
    lemma_advance(s, at + 26, m26, at + 27, m27);
    lemma_advance(s, at + 27, m27, at + 28, m28);
    lemma_advance(s, at + 28, m28, at + 29, m29);
    lemma_advance(s, at + 29, m29, at + 30, m30);
    assert(s.subrange(at + 31, at + 33) =~= zeros);
    let padded = if short {
        a + zeros
    } else {
        a
    };
    let m34 = machine(push(st, padded), al, inside(short, b));
    if short {
        let m33 = machine(push(push(st, a), zeros), al, inside(short, b));
        lemma_advance(s, at + 30, m30, at + 33, m33);
        lemma_advance(s, at + 33, m33, at + 34, m34);
    } else {
        lemma_advance(s, at + 30, m30, at + 33, m30);
        lemma_advance(s, at + 33, m30, at + 34, m34);
    }
    lemma_advance(s, at + 34, m34, at + 35, machine(push(st, padded), al, b));
}

/// A short number: the magnitude of two or three bytes is padded to three.
proof fn lemma_short_second_padding(s: Seq<u8>, at: int, st: Stack, al: Stack, a: Seq<u8>)
    requires
        holds_reconstruct(s, at),
        2 <= a.len() <= 3,
    ensures
        run(s, at + 35, machine(push(st, a), al, two(true, true))) == run(s, at + 43,
            machine(
                push(
                    st,
                    if a.len() < 3 {
                        a + seq![0u8]
                    } else {
                        a
                    },
                ),
                al,
                two(true, true),
            ),
        ),
{
    reveal_with_fuel(all_taken, 4);
    lemma_reconstruct_bytes(s, at);
    let b = two(true, true);
    let size = number_bytes(a.len() as int);
    lemma_small_number(a.len() as int);
    let three = seq![3u8];
    assert(is_minimal_number(three) && number_value(three) == 3);
    let short = a.len() < 3;
    let zero = seq![0u8];
    let m35 = machine(push(st, a), al, b);
    let m36 = machine(push(push(st, a), size), al, b);
    let m37 = machine(push(push(push(st, a), size), three), al, b);
    let m38 = machine(push(push(st, a), truth(short)), al, b);
    let m39 = machine(push(st, a), al, inside(short, b));
    lemma_advance(s, at + 35, m35, at + 36, m36);
    lemma_advance(s, at + 36, m36, at + 37, m37);
    lemma_advance(s, at + 37, m37, at + 38, m38);
    lemma_advance(s, at + 38, m38, at + 39, m39);
    assert(s.subrange(at + 40, at + 41) =~= zero);
    let padded = if short {
        a + zero
    } else {
        a
    };
    let m42 = machine(push(st, padded), al, inside(short, b));
    if short {
        let m41 = machine(push(push(st, a), zero), al, inside(short, b));
        lemma_advance(s, at + 39, m39, at + 41, m41);
        lemma_advance(s, at + 41, m41, at + 42, m42);
    } else {
        lemma_advance(s, at + 39, m39, at + 41, m39);
        lemma_advance(s, at + 41, m39, at + 42, m42);
    }
    lemma_advance(s, at + 42, m42, at + 43, machine(push(st, padded), al, b));
}

/// A short number: the byte for the sign is joined to the padded magnitude,
/// and the script ends.
proof fn lemma_short_sign(s: Seq<u8>, at: int, st: Stack, al: Stack, a: Seq<u8>, positive: bool)
    requires
        holds_reconstruct(s, at),
        a.len() == 3,
    ensures
        run(s, at + 43, machine(push(st, a), push(al, truth(positive)), two(true, true))) == run(s, at + 56, 
            machine(
                push(
                    st,
                    a + (if positive {
                        seq![0u8]
                    } else {
                        seq![0x80u8]
                    }),
                ),
                al,
                Branches::Closed,
            ),
        ),
{
    reveal_with_fuel(all_taken, 4);
    lemma_reconstruct_bytes(s, at);
    let b = two(true, true);
    let plus = seq![0u8];
    let minus = seq![0x80u8];
    let sign = if positive {
        plus
    } else {
        minus
    };
    assert(s.subrange(at + 46, at + 47) =~= plus);
    assert(s.subrange(at + 49, at + 50) =~= minus);
    let m43 = machine(push(st, a), push(al, truth(positive)), b);
    let m44 = machine(push(push(st, a), truth(positive)), al, b);
    let m45 = machine(push(st, a), al, inside(positive, b));
    lemma_advance(s, at + 43, m43, at + 44, m44);
    lemma_advance(s, at + 44, m44, at + 45, m45);
    let m50 = machine(push(push(st, a), sign), al, inside(!positive, b));
    if positive {
        let m47 = machine(push(push(st, a), plus), al, inside(true, b));
        lemma_advance(s, at + 45, m45, at + 47, m47);
        lemma_advance(s, at + 47, m47, at + 48, m50);
        lemma_advance(s, at + 48, m50, at + 50, m50);
    } else {
        let m48 = machine(push(st, a), al, inside(true, b));
        lemma_advance(s, at + 45, m45, at + 47, m45);
        lemma_advance(s, at + 47, m45, at + 48, m48);
        lemma_advance(s, at + 48, m48, at + 50, m50);
    }
    let m51 = machine(push(push(st, a), sign), al, b);
    let m52 = machine(push(st, a + sign), al, b);
    let m53 = machine(push(st, a + sign), al, two(false, true));
    let m55 = machine(push(st, a + sign), al, one(true));
    let end = machine(push(st, a + sign), al, Branches::Closed);
    lemma_advance(s, at + 50, m50, at + 51, m51);
    lemma_advance(s, at + 51, m51, at + 52, m52);
    lemma_advance(s, at + 52, m52, at + 53, m53);
    lemma_advance(s, at + 53, m53, at + 54, m53);
    lemma_advance(s, at + 54, m53, at + 55, m55);
    lemma_advance(s, at + 55, m55, at + 56, end);
}

/// The word of a short number, as the script puts it together.
pub open spec fn short_word(e: Seq<u8>) -> Seq<u8> {
    let a = magnitude_bytes(e);
    let a1 = if a.len() < 2 {
        a + seq![0u8, 0u8]
    } else {
        a
    };
    let a2 = if a1.len() < 3 {
        a1 + seq![0u8]
    } else {
        a1
    };
    a2 + (if a == e {
        seq![0u8]
    } else {
        seq![0x80u8]
    })
}

/// What the script puts together for a short number is the word of the
/// replay.
proof fn lemma_short_word(e: Seq<u8>)
    requires
        is_minimal_number(e),
        !is_negative_zero_literal(e),
        e.len() < 4,
    ensures
        reconstructed_word(e) == Some(short_word(e)),
{
    let a = magnitude_bytes(e);
    assert((a == e) == !number_is_negative(e)) by {
        if !number_is_negative(e) {
            assert(a =~= e);
        }
    }
    assert(short_word(e) =~= reconstructed_word(e).unwrap());
}

/// The magnitude kept aside is a number of the machine, with the magnitude
/// of the replay as its value.
pub proof fn lemma_kept_magnitude(e: Seq<u8>)
    requires
        reconstructed_word(e) is Some,
    ensures
        is_minimal_number(kept_magnitude(e)),
        number_value(kept_magnitude(e)) == reconstructed_magnitude(e),
{
}

/// The run for the literal 0x80.
proof fn lemma_literal_runs(s: Seq<u8>, at: int, st: Stack, al: Stack, e: Seq<u8>)
    requires
        holds_reconstruct(s, at),
    ensures
        run(s, at + 5, machine(push(st, e), al, one(true))) == run(s, at + 56, 
            machine(
                push(st, seq![0u8, 0u8, 0u8, 0u8]),
                push(al, Seq::empty()),
                Branches::Closed,
            ),
        ),
{
    let w = seq![0u8, 0u8, 0u8, 0u8];
    let al2 = push(al, Seq::<u8>::empty());
    lemma_literal_branch(s, at, st, al, e);
    lemma_pass_over_head(s, at, push(st, w), al2);
    lemma_pass_over_padding(s, at, push(st, w), al2, one(false));
    lemma_pass_over_sign(s, at, push(st, w), al2, one(false));
    lemma_literal_end(s, at, push(st, w), al2);
}

/// The run for a number of four bytes.
proof fn lemma_long_runs(s: Seq<u8>, at: int, st: Stack, al: Stack, e: Seq<u8>)
    requires
        holds_reconstruct(s, at),
        is_minimal_number(e),
        e.len() == 4,
    ensures
        run(s, at + 14, machine(push(st, e), al, one(true))) == run(s, at + 56, 
            machine(push(st, e), push(al, magnitude_bytes(e)), Branches::Closed),
        ),
{
    let a = magnitude_bytes(e);
    let al2 = push(al, a);
    lemma_magnitude(s, at, st, al, e);
    lemma_pass_over_padding(s, at, push(push(st, e), a), al2, one(true));
    lemma_pass_over_sign(s, at, push(push(st, e), a), al2, one(true));
    lemma_long_end(s, at, st, al2, e, a);
}

/// The run for a number of fewer than four bytes.
proof fn lemma_short_runs(s: Seq<u8>, at: int, st: Stack, al: Stack, e: Seq<u8>)
    requires
        holds_reconstruct(s, at),
        is_minimal_number(e),
        e.len() < 4,
    ensures
        run(s, at + 14, machine(push(st, e), al, one(true))) == run(s, at + 56, 
            machine(push(st, short_word(e)), push(al, magnitude_bytes(e)), Branches::Closed),
        ),
{
    let a = magnitude_bytes(e);
    let al2 = push(al, a);
    let a1 = if a.len() < 2 {
        a + seq![0u8, 0u8]
    } else {
        a
    };
    let a2 = if a1.len() < 3 {
        a1 + seq![0u8]
    } else {
        a1
    };
    let al3 = push(al2, truth(a == e));
    lemma_magnitude(s, at, st, al, e);
    lemma_short_sign_aside(s, at, st, al2, e, a);
    lemma_short_first_padding(s, at, st, al3, a);
    lemma_short_second_padding(s, at, st, al3, a1);
    lemma_short_sign(s, at, st, al2, a2, a == e);
}

/// The reconstruct fragment, wherever a script holds it, run on a stack with
/// the encoding `e` on top: where the replay rebuilds a word, the run goes on
/// behind the fragment with that word in place of the encoding and the
/// magnitude on top of the side stack; where the replay aborts, so does the
/// run. What lies beneath on either stack stays.
pub proof fn lemma_reconstruct_runs_at(s: Seq<u8>, at: int, st: Stack, al: Stack, e: Seq<u8>)
    requires
        holds_reconstruct(s, at),
    ensures
        run(s, at, machine(push(st, e), al, Branches::Closed)) == (match reconstructed_word(e) {
            Some(w) => run(
                s,
                at + 56,
                machine(push(st, w), push(al, kept_magnitude(e)), Branches::Closed),
            ),
            None => None,
        }),
{
    lemma_literal_test(s, at, st, al, e);
    if is_negative_zero_literal(e) {
        lemma_literal_runs(s, at, st, al, e);
    } else {
        lemma_pass_over_literal(s, at, push(st, e), al);
        if !is_minimal_number(e) {
            lemma_not_a_number(s, at, st, al, e);
        } else if e.len() == 4 {
            lemma_long_runs(s, at, st, al, e);
        } else {
            lemma_short_runs(s, at, st, al, e);
            lemma_short_word(e);
        }
    }
}

/// The reconstruct fragment as a script of its own: the run ends with the
/// rebuilt word in place of the encoding and the magnitude on top of the side
/// stack, or aborts where the replay does.
pub proof fn lemma_reconstruct_runs(st: Stack, al: Stack, e: Seq<u8>)
    ensures
        run(reconstruct_script(), 0, machine(push(st, e), al, Branches::Closed)) == (
        match reconstructed_word(e) {
            Some(w) => Some(machine(push(st, w), push(al, kept_magnitude(e)), Branches::Closed)),
            None => None,
        }),
{
    let s = reconstruct_script();
    assert(holds_reconstruct(s, 0)) by {
        reveal(holds_reconstruct);
        assert(s.subrange(0, 56) =~= s);
    }
    lemma_reconstruct_runs_at(s, 0, st, al, e);
    if reconstructed_word(e) is Some {
        let end = machine(
            push(st, reconstructed_word(e).unwrap()),
            push(al, kept_magnitude(e)),
            Branches::Closed,
        );
        assert(run(s, 56, end) == Some(end));
    }
}

} // verus!
