//! Unpacking four field elements on the script machine: with nothing but the
//! hint and the hash on the stack, a run of the bytes of the fragment leaves
//! what the replay computes, and aborts where the replay does.

use crate::encoding::{encode_word, is_negative_zero, reduce, window};
use crate::hint::{hint_encodings, hint_remainder, hint_values};
use crate::soundness::{lemma_generated_hint_is_accepted, lemma_negative_zero_is_rejected};
use crate::fragment_runs::{holds_reduce, lemma_reduce_runs_at};
use crate::gadget::{reconstruct_script, reduce_script, unpack_multi_m31_script};
use crate::machine::{all_taken, depth, item_at, lemma_abort, lemma_advance, max_element_len, number_bytes, number_value, push, run, without, Branches, Stack};
use crate::opcodes::{OP_1SUB, OP_3, OP_CAT, OP_DEPTH, OP_EQUALVERIFY, OP_ROLL};
use crate::reconstruct_proof::{holds_reconstruct, kept_magnitude, lemma_kept_magnitude, lemma_reconstruct_runs_at, machine};
use crate::replay::{accepts, is_minimal_number, joined, lemma_encoding_reconstructs, lemma_reconstructed_word_shape, rebuilt_words, reconstructed_magnitude, reconstructed_word};
use crate::script::{number_push, repeated};
use vstd::prelude::*;

verus! {

/// A stack of three items, the top first.
pub open spec fn three(x0: Seq<u8>, x1: Seq<u8>, x2: Seq<u8>) -> Stack {
    push(push(push(Stack::Empty, x2), x1), x0)
}

/// A stack of six items, the top first.
pub open spec fn six(
    x0: Seq<u8>,
    x1: Seq<u8>,
    x2: Seq<u8>,
    x3: Seq<u8>,
    x4: Seq<u8>,
    x5: Seq<u8>,
) -> Stack {
    push(push(push(three(x3, x4, x5), x2), x1), x0)
}

/// The numbers up to sixteen, as the machine writes and reads them.
proof fn lemma_number(k: int)
    requires
        0 <= k <= 16,
    ensures
        is_minimal_number(number_bytes(k)),
        number_value(number_bytes(k)) == k,
{
    let expected = if k == 0 {
        Seq::<u8>::empty()
    } else {
        seq![k as u8]
    };
    assert(number_bytes(k) =~= expected);
}

/// The deepest of six items is pulled to the top.
proof fn lemma_pull_of_six(
    s: Seq<u8>,
    at: int,
    al: Stack,
    x0: Seq<u8>,
    x1: Seq<u8>,
    x2: Seq<u8>,
    x3: Seq<u8>,
    x4: Seq<u8>,
    x5: Seq<u8>,
)
    requires
        0 <= at && at + 3 <= s.len(),
        s[at] == OP_DEPTH && s[at + 1] == OP_1SUB && s[at + 2] == OP_ROLL,
    ensures
        run(s, at, machine(six(x0, x1, x2, x3, x4, x5), al, Branches::Closed)) == run(
            s,
            at + 3,
            machine(six(x5, x0, x1, x2, x3, x4), al, Branches::Closed),
        ),
{
    reveal_with_fuel(all_taken, 2);
    reveal_with_fuel(depth, 8);
    reveal_with_fuel(item_at, 8);
    reveal_with_fuel(without, 8);
    lemma_number(6);
    lemma_number(5);
    let c = Branches::Closed;
    let st = six(x0, x1, x2, x3, x4, x5);
    assert(depth(st) == 6);
    let m0 = machine(st, al, c);
    let m1 = machine(push(st, number_bytes(6)), al, c);
    let m2 = machine(push(st, number_bytes(5)), al, c);
    let m3 = machine(six(x5, x0, x1, x2, x3, x4), al, c);
    lemma_advance(s, at, m0, at + 1, m1);
    lemma_advance(s, at + 1, m1, at + 2, m2);
    assert(item_at(st, 5) == x5);
    assert(without(st, 5) == push(push(push(push(push(Stack::Empty, x4), x3), x2), x1), x0));
    lemma_advance(s, at + 2, m2, at + 3, m3);
}

/// The four encodings are pulled up from the bottom, the first one first.
proof fn lemma_pulls(
    s: Seq<u8>,
    al: Stack,
    h: Seq<u8>,
    rem: Seq<u8>,
    e3: Seq<u8>,
    e2: Seq<u8>,
    e1: Seq<u8>,
    e0: Seq<u8>,
)
    requires
        has_unpack_layout(s),
    ensures
        run(s, 0, machine(six(h, rem, e3, e2, e1, e0), al, Branches::Closed)) == run(
            s,
            12,
            machine(six(e3, e2, e1, e0, h, rem), al, Branches::Closed),
        ),
{
    lemma_pull_of_six(s, 0, al, h, rem, e3, e2, e1, e0);
    lemma_pull_of_six(s, 3, al, e0, h, rem, e3, e2, e1);
    lemma_pull_of_six(s, 6, al, e1, e0, h, rem, e3, e2);
    lemma_pull_of_six(s, 9, al, e2, e1, e0, h, rem, e3);
}

/// The encoding at depth three is rolled to the top and rebuilt.
proof fn lemma_word(
    s: Seq<u8>,
    at: int,
    al: Stack,
    t0: Seq<u8>,
    t1: Seq<u8>,
    t2: Seq<u8>,
    e: Seq<u8>,
    t4: Seq<u8>,
    t5: Seq<u8>,
)
    requires
        0 <= at && at + 58 <= s.len(),
        s[at] == OP_3 && s[at + 1] == OP_ROLL,
        holds_reconstruct(s, at + 2),
    ensures
        run(s, at, machine(six(t0, t1, t2, e, t4, t5), al, Branches::Closed)) == (
        match reconstructed_word(e) {
            Some(w) => run(
                s,
                at + 58,
                machine(six(w, t0, t1, t2, t4, t5), push(al, kept_magnitude(e)), Branches::Closed),
            ),
            None => None,
        }),
{
    reveal_with_fuel(all_taken, 2);
    reveal_with_fuel(depth, 8);
    reveal_with_fuel(item_at, 8);
    reveal_with_fuel(without, 8);
    let c = Branches::Closed;
    let st = six(t0, t1, t2, e, t4, t5);
    let rest = push(push(push(push(push(Stack::Empty, t5), t4), t2), t1), t0);
    let num = seq![3u8];
    assert(is_minimal_number(num) && number_value(num) == 3);
    let m0 = machine(st, al, c);
    let m1 = machine(push(st, num), al, c);
    let m2 = machine(push(rest, e), al, c);
    lemma_advance(s, at, m0, at + 1, m1);
    assert(depth(st) == 6);
    assert(item_at(st, 3) == e);
    assert(without(st, 3) == rest);
    lemma_advance(s, at + 1, m1, at + 2, m2);
    lemma_reconstruct_runs_at(s, at + 2, rest, al, e);
}

/// The four words are joined, the remainder is pulled up and joined to them,
/// and the whole is compared with the hash.
proof fn lemma_check(
    s: Seq<u8>,
    al: Stack,
    w3: Seq<u8>,
    w2: Seq<u8>,
    w1: Seq<u8>,
    w0: Seq<u8>,
    h: Seq<u8>,
    rem: Seq<u8>,
)
    requires
        has_unpack_layout(s),
        w0.len() == 4 && w1.len() == 4 && w2.len() == 4 && w3.len() == 4,
        h.len() == 32,
    ensures
        run(s, 244, machine(six(w3, w2, w1, w0, h, rem), al, Branches::Closed)) == (if (w0 + (w1
            + (w2 + w3))) + rem == h {
            run(s, 252, machine(Stack::Empty, al, Branches::Closed))
        } else {
            None
        }),
{
    reveal_with_fuel(all_taken, 2);
    reveal_with_fuel(depth, 5);
    reveal_with_fuel(item_at, 5);
    reveal_with_fuel(without, 5);
    lemma_number(3);
    lemma_number(2);
    let c = Branches::Closed;
    let tail = push(push(Stack::Empty, rem), h);
    let all = w0 + (w1 + (w2 + w3));
    let m244 = machine(six(w3, w2, w1, w0, h, rem), al, c);
    let m245 = machine(push(push(push(tail, w0), w1), w2 + w3), al, c);
    let m246 = machine(push(push(tail, w0), w1 + (w2 + w3)), al, c);
    let m247 = machine(three(all, h, rem), al, c);
    let m248 = machine(push(three(all, h, rem), number_bytes(3)), al, c);
    let m249 = machine(push(three(all, h, rem), number_bytes(2)), al, c);
    let m250 = machine(three(rem, all, h), al, c);
    lemma_advance(s, 244, m244, 245, m245);
    lemma_advance(s, 245, m245, 246, m246);
    lemma_advance(s, 246, m246, 247, m247);
    assert(depth(three(all, h, rem)) == 3);
    lemma_advance(s, 247, m247, 248, m248);
    lemma_advance(s, 248, m248, 249, m249);
    assert(item_at(three(all, h, rem), 2) == rem);
    assert(without(three(all, h, rem), 2) == push(push(Stack::Empty, h), all));
    lemma_advance(s, 249, m249, 250, m250);
    if all.len() + rem.len() > max_element_len() {
        lemma_abort(s, 250, m250);
    } else {
        let m251 = machine(push(push(Stack::Empty, h), all + rem), al, c);
        lemma_advance(s, 250, m250, 251, m251);
        if all + rem == h {
            lemma_advance(s, 251, m251, 252, machine(Stack::Empty, al, c));
        } else {
            lemma_abort(s, 251, m251);
        }
    }
}

/// The field element of a magnitude kept aside, as it comes to the stack.
pub open spec fn reduced_number(e: Seq<u8>) -> Seq<u8> {
    number_bytes(reduce(reconstructed_magnitude(e)) as int)
}

/// The four magnitudes come back from the side stack, each reduced to its
/// field element, and the script ends.
proof fn lemma_reductions(
    s: Seq<u8>,
    al: Stack,
    e0: Seq<u8>,
    e1: Seq<u8>,
    e2: Seq<u8>,
    e3: Seq<u8>,
)
    requires
        has_unpack_layout(s),
        reconstructed_word(e0) is Some && reconstructed_word(e1) is Some && reconstructed_word(e2)
            is Some && reconstructed_word(e3) is Some,
    ensures
        run(
            s,
            252,
            machine(
                Stack::Empty,
                push(
                    push(push(push(al, kept_magnitude(e0)), kept_magnitude(e1)), kept_magnitude(e2)),
                    kept_magnitude(e3),
                ),
                Branches::Closed,
            ),
        ) == Some(
            machine(
                push(
                    push(
                        push(push(Stack::Empty, reduced_number(e3)), reduced_number(e2)),
                        reduced_number(e1),
                    ),
                    reduced_number(e0),
                ),
                al,
                Branches::Closed,
            ),
        ),
{
    lemma_kept_magnitude(e0);
    lemma_kept_magnitude(e1);
    lemma_kept_magnitude(e2);
    lemma_kept_magnitude(e3);
    let k0 = kept_magnitude(e0);
    let k1 = kept_magnitude(e1);
    let k2 = kept_magnitude(e2);
    let s3 = push(Stack::Empty, reduced_number(e3));
    let s2 = push(s3, reduced_number(e2));
    let s1 = push(s2, reduced_number(e1));
    let s0 = push(s1, reduced_number(e0));
    lemma_reduce_runs_at(s, 252, Stack::Empty, push(push(push(al, k0), k1), k2), kept_magnitude(e3));
    lemma_reduce_runs_at(s, 258, s3, push(push(al, k0), k1), k2);
    lemma_reduce_runs_at(s, 264, s2, push(al, k0), k1);
    lemma_reduce_runs_at(s, 270, s1, al, k0);
    let end = machine(s0, al, Branches::Closed);
    assert(run(s, 276, end) == Some(end));
}

/// Where the parts of the fragment for four words stand.
pub open spec fn has_unpack_layout(s: Seq<u8>) -> bool {
    &&& s.len() == 276
    &&& s[0] == OP_DEPTH && s[1] == OP_1SUB && s[2] == OP_ROLL
    &&& s[3] == OP_DEPTH && s[4] == OP_1SUB && s[5] == OP_ROLL
    &&& s[6] == OP_DEPTH && s[7] == OP_1SUB && s[8] == OP_ROLL
    &&& s[9] == OP_DEPTH && s[10] == OP_1SUB && s[11] == OP_ROLL
    &&& s[12] == OP_3 && s[13] == OP_ROLL && holds_reconstruct(s, 14)
    &&& s[70] == OP_3 && s[71] == OP_ROLL && holds_reconstruct(s, 72)
    &&& s[128] == OP_3 && s[129] == OP_ROLL && holds_reconstruct(s, 130)
    &&& s[186] == OP_3 && s[187] == OP_ROLL && holds_reconstruct(s, 188)
    &&& s[244] == OP_CAT && s[245] == OP_CAT && s[246] == OP_CAT
    &&& s[247] == OP_DEPTH && s[248] == OP_1SUB && s[249] == OP_ROLL && s[250] == OP_CAT
    &&& s[251] == OP_EQUALVERIFY
    &&& holds_reduce(s, 252) && holds_reduce(s, 258) && holds_reduce(s, 264) && holds_reduce(
        s,
        270,
    )
}

/// The fragment for four words has its parts where they belong.
proof fn lemma_unpack_layout()
    ensures
        has_unpack_layout(unpack_multi_m31_script(4)),
{
    reveal(holds_reconstruct);
    reveal(holds_reduce);
    reveal_with_fuel(repeated, 5);
    let s = unpack_multi_m31_script(4);
    let pull = seq![OP_DEPTH, OP_1SUB, OP_ROLL];
    let rec = reconstruct_script();
    let red = reduce_script();
    assert(number_push(3) =~= seq![OP_3]);
    let rebuild = seq![OP_3] + seq![OP_ROLL] + rec;
    assert(rec.len() == 56);
    assert(rebuild.len() == 58);
    let cat = seq![OP_CAT];
    assert(repeated(pull, 4) =~= pull + pull + pull + pull);
    assert(repeated(rebuild, 4) =~= rebuild + rebuild + rebuild + rebuild);
    assert(repeated(cat, 3) =~= cat + cat + cat);
    assert(repeated(red, 4) =~= red + red + red + red);
    assert(s =~= (pull + pull + pull + pull) + (rebuild + rebuild + rebuild + rebuild) + (cat
        + cat + cat) + seq![OP_DEPTH, OP_1SUB, OP_ROLL, OP_CAT] + seq![OP_EQUALVERIFY] + (red
        + red + red + red));
    assert(s.subrange(14, 70) =~= rec);
    assert(s.subrange(72, 128) =~= rec);
    assert(s.subrange(130, 186) =~= rec);
    assert(s.subrange(188, 244) =~= rec);
    assert(s.subrange(252, 258) =~= red);
    assert(s.subrange(258, 264) =~= red);
    assert(s.subrange(264, 270) =~= red);
    assert(s.subrange(270, 276) =~= red);
}

/// The four rebuilt words put together.
proof fn lemma_joined_four(e0: Seq<u8>, e1: Seq<u8>, e2: Seq<u8>, e3: Seq<u8>)
    ensures
        joined(rebuilt_words(seq![e0, e1, e2, e3])) == reconstructed_word(e0).unwrap() + (
        reconstructed_word(e1).unwrap() + (reconstructed_word(e2).unwrap() + reconstructed_word(
            e3,
        ).unwrap())),
{
    reveal_with_fuel(joined, 6);
    let w0 = reconstructed_word(e0).unwrap();
    let w1 = reconstructed_word(e1).unwrap();
    let w2 = reconstructed_word(e2).unwrap();
    let w3 = reconstructed_word(e3).unwrap();
    let q4 = seq![w0, w1, w2, w3];
    let q3 = seq![w0, w1, w2];
    let q2 = seq![w0, w1];
    let q1 = seq![w0];
    assert(rebuilt_words(seq![e0, e1, e2, e3]) =~= q4);
    assert(q4.drop_last() =~= q3);
    assert(q3.drop_last() =~= q2);
    assert(q2.drop_last() =~= q1);
    assert(q1.drop_last() =~= Seq::<Seq<u8>>::empty());
    assert(joined(q1) =~= w0);
    assert(joined(q2) =~= w0 + w1);
    assert(joined(q3) =~= w0 + w1 + w2);
    assert(joined(q4) =~= w0 + (w1 + (w2 + w3)));
}

/// The four words are rebuilt one after the other; the run aborts at the
/// first encoding that cannot be rebuilt.
proof fn lemma_words(
    s: Seq<u8>,
    al: Stack,
    h: Seq<u8>,
    rem: Seq<u8>,
    e0: Seq<u8>,
    e1: Seq<u8>,
    e2: Seq<u8>,
    e3: Seq<u8>,
)
    requires
        has_unpack_layout(s),
    ensures
        run(s, 12, machine(six(e3, e2, e1, e0, h, rem), al, Branches::Closed)) == (
        if reconstructed_word(e0) is Some && reconstructed_word(e1) is Some && reconstructed_word(
            e2,
        ) is Some && reconstructed_word(e3) is Some {
            run(
                s,
                244,
                machine(
                    six(
                        reconstructed_word(e3).unwrap(),
                        reconstructed_word(e2).unwrap(),
                        reconstructed_word(e1).unwrap(),
                        reconstructed_word(e0).unwrap(),
                        h,
                        rem,
                    ),
                    push(
                        push(
                            push(push(al, kept_magnitude(e0)), kept_magnitude(e1)),
                            kept_magnitude(e2),
                        ),
                        kept_magnitude(e3),
                    ),
                    Branches::Closed,
                ),
            )
        } else {
            None
        }),
{
    lemma_word(s, 12, al, e3, e2, e1, e0, h, rem);
    if reconstructed_word(e0) is Some {
        let w0 = reconstructed_word(e0).unwrap();
        let a0 = push(al, kept_magnitude(e0));
        lemma_word(s, 70, a0, w0, e3, e2, e1, h, rem);
        if reconstructed_word(e1) is Some {
            let w1 = reconstructed_word(e1).unwrap();
            let a1 = push(a0, kept_magnitude(e1));
            lemma_word(s, 128, a1, w1, w0, e3, e2, h, rem);
            if reconstructed_word(e2) is Some {
                let w2 = reconstructed_word(e2).unwrap();
                let a2 = push(a1, kept_magnitude(e2));
                lemma_word(s, 186, a2, w2, w1, w0, e3, h, rem);
            }
        }
    }
}

/// Unpacking four field elements on the machine. The stack holds the four
/// encodings, the first one deepest, above them the remainder, and the hash
/// on top. Where the replay accepts, the run ends with the four field
/// elements on the stack, the first one on top, and the side stack as it
/// was; where the replay aborts, so does the run.
pub proof fn lemma_unpack_four_runs(
    al: Stack,
    h: Seq<u8>,
    rem: Seq<u8>,
    e0: Seq<u8>,
    e1: Seq<u8>,
    e2: Seq<u8>,
    e3: Seq<u8>,
)
    requires
        h.len() == 32,
    ensures
        run(
            unpack_multi_m31_script(4),
            0,
            machine(six(h, rem, e3, e2, e1, e0), al, Branches::Closed),
        ) == (if accepts(4, h, seq![e0, e1, e2, e3], rem) {
            Some(
                machine(
                    push(
                        push(
                            push(push(Stack::Empty, reduced_number(e3)), reduced_number(e2)),
                            reduced_number(e1),
                        ),
                        reduced_number(e0),
                    ),
                    al,
                    Branches::Closed,
                ),
            )
        } else {
            None
        }),
{
    let s = unpack_multi_m31_script(4);
    let encodings = seq![e0, e1, e2, e3];
    lemma_unpack_layout();
    lemma_pulls(s, al, h, rem, e3, e2, e1, e0);
    lemma_words(s, al, h, rem, e0, e1, e2, e3);
    assert(encodings[0] == e0 && encodings[1] == e1 && encodings[2] == e2 && encodings[3] == e3);
    if reconstructed_word(e0) is Some && reconstructed_word(e1) is Some && reconstructed_word(e2)
        is Some && reconstructed_word(e3) is Some {
        let w0 = reconstructed_word(e0).unwrap();
        let w1 = reconstructed_word(e1).unwrap();
        let w2 = reconstructed_word(e2).unwrap();
        let w3 = reconstructed_word(e3).unwrap();
        lemma_reconstructed_word_shape(e0);
        lemma_reconstructed_word_shape(e1);
        lemma_reconstructed_word_shape(e2);
        lemma_reconstructed_word_shape(e3);
        let kept = push(
            push(push(push(al, kept_magnitude(e0)), kept_magnitude(e1)), kept_magnitude(e2)),
            kept_magnitude(e3),
        );
        lemma_check(s, kept, w3, w2, w1, w0, h, rem);
        lemma_joined_four(e0, e1, e2, e3);
        lemma_reductions(s, al, e0, e1, e2, e3);
    }
}

/// Round trip on the machine: for a hash none of whose first four words is
/// negative zero, a run of the fragment on the hash and the hint recorded for
/// it ends with the four field elements that the host computed, the first one
/// on top.
pub proof fn lemma_recorded_hint_runs(al: Stack, h: Seq<u8>)
    requires
        h.len() == 32,
        forall|i: int| 0 <= i < 4 ==> !is_negative_zero(#[trigger] window(h, i)),
    ensures
        run(
            unpack_multi_m31_script(4),
            0,
            machine(
                six(
                    h,
                    hint_remainder(h, 4),
                    hint_encodings(h, 4)[3],
                    hint_encodings(h, 4)[2],
                    hint_encodings(h, 4)[1],
                    hint_encodings(h, 4)[0],
                ),
                al,
                Branches::Closed,
            ),
        ) == Some(
            machine(
                push(
                    push(
                        push(
                            push(Stack::Empty, number_bytes(hint_values(h, 4)[3].0 as int)),
                            number_bytes(hint_values(h, 4)[2].0 as int),
                        ),
                        number_bytes(hint_values(h, 4)[1].0 as int),
                    ),
                    number_bytes(hint_values(h, 4)[0].0 as int),
                ),
                al,
                Branches::Closed,
            ),
        ),
{
    let e = hint_encodings(h, 4);
    lemma_generated_hint_is_accepted(h, 4);
    assert(e =~= seq![e[0], e[1], e[2], e[3]]);
    lemma_unpack_four_runs(al, h, hint_remainder(h, 4), e[0], e[1], e[2], e[3]);
    assert forall|i: int| 0 <= i < 4 implies reduced_number(#[trigger] e[i]) == number_bytes(
        hint_values(h, 4)[i].0 as int,
    ) by {
        assert(!is_negative_zero(window(h, i)));
        lemma_encoding_reconstructs(window(h, i));
        assert(e[i] == encode_word(window(h, i)));
    }
    assert(reduced_number(e[0]) == number_bytes(hint_values(h, 4)[0].0 as int));
    assert(reduced_number(e[1]) == number_bytes(hint_values(h, 4)[1].0 as int));
    assert(reduced_number(e[2]) == number_bytes(hint_values(h, 4)[2].0 as int));
    assert(reduced_number(e[3]) == number_bytes(hint_values(h, 4)[3].0 as int));
}

/// Negative zero on the machine: where one of the first four words of the
/// hash is negative zero, the run aborts whatever the hint holds.
pub proof fn lemma_negative_zero_stops_the_run(
    al: Stack,
    h: Seq<u8>,
    rem: Seq<u8>,
    e0: Seq<u8>,
    e1: Seq<u8>,
    e2: Seq<u8>,
    e3: Seq<u8>,
    i: int,
)
    requires
        h.len() == 32,
        0 <= i < 4,
        is_negative_zero(window(h, i)),
    ensures
        run(
            unpack_multi_m31_script(4),
            0,
            machine(six(h, rem, e3, e2, e1, e0), al, Branches::Closed),
        ) is None,
{
    lemma_negative_zero_is_rejected(h, 4, seq![e0, e1, e2, e3], rem, i);
    lemma_unpack_four_runs(al, h, rem, e0, e1, e2, e3);
}

} // verus!
