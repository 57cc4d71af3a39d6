//! The short fragments on the script machine: absorbing a commitment, the
//! start of a squeeze, and the reduction of a magnitude to a field element.

use crate::channel::{absorbed, squeeze_hash, squeezed};
use crate::encoding::reduce;
use crate::gadget::{mix_digest_script, reduce_script, squeeze_script};
use crate::hash::sha256;
use crate::opcodes::{OP_1SUB, OP_DUP, OP_ENDIF, OP_FROMALTSTACK, OP_NOT, OP_NOTIF};
use crate::machine::{all_taken, lemma_advance, max_element_len, number_bytes, number_value, push, run, truth, Branches, Stack};
use crate::reconstruct_proof::{machine, one};
use crate::replay::is_minimal_number;
use vstd::prelude::*;

verus! {

/// Absorbing on the machine: with a commitment and, on top of it, the digest
/// on the stack, the run leaves the hash of the commitment followed by the
/// digest.
pub proof fn lemma_mix_digest_runs(st: Stack, al: Stack, x: Seq<u8>, digest: Seq<u8>)
    requires
        x.len() + digest.len() <= max_element_len(),
    ensures
        run(mix_digest_script(), 0, machine(push(push(st, x), digest), al, Branches::Closed))
            == Some(machine(push(st, absorbed(digest, x)), al, Branches::Closed)),
{
    reveal_with_fuel(all_taken, 2);
    let s = mix_digest_script();
    let m0 = machine(push(push(st, x), digest), al, Branches::Closed);
    let m1 = machine(push(st, x + digest), al, Branches::Closed);
    let m2 = machine(push(st, sha256(x + digest)), al, Branches::Closed);
    lemma_advance(s, 0, m0, 1, m1);
    lemma_advance(s, 1, m1, 2, m2);
    assert(run(s, 2, m2) == Some(m2));
}

/// The start of a squeeze on the machine: the digest on top of the stack is
/// replaced by the next digest and, on top of it, the hash that the words are
/// drawn from.
pub proof fn lemma_squeeze_runs(st: Stack, al: Stack, digest: Seq<u8>)
    ensures
        squeeze_hash(digest).len() < max_element_len() ==> run(
            squeeze_script(),
            0,
            machine(push(st, digest), al, Branches::Closed),
        ) == Some(
            machine(push(push(st, squeezed(digest)), squeeze_hash(digest)), al, Branches::Closed),
        ),
{
    if squeeze_hash(digest).len() < max_element_len() {
        reveal_with_fuel(all_taken, 2);
        let s = squeeze_script();
        let h = sha256(digest);
        let zero = seq![0u8];
        let c = Branches::Closed;
        let m0 = machine(push(st, digest), al, c);
        let m1 = machine(push(st, h), al, c);
        let m2 = machine(push(push(st, h), h), al, c);
        let m4 = machine(push(push(push(st, h), h), zero), al, c);
        let m5 = machine(push(push(st, h), h + zero), al, c);
        let m6 = machine(push(push(st, h), sha256(h + zero)), al, c);
        let m7 = machine(push(push(st, sha256(h + zero)), h), al, c);
        lemma_advance(s, 0, m0, 1, m1);
        lemma_advance(s, 1, m1, 2, m2);
        assert(s.subrange(3, 4) =~= zero);
        lemma_advance(s, 2, m2, 4, m4);
        lemma_advance(s, 4, m4, 5, m5);
        lemma_advance(s, 5, m5, 6, m6);
        lemma_advance(s, 6, m6, 7, m7);
        assert(run(s, 7, m7) == Some(m7));
        assert(h + zero =~= h.push(0u8));
    }
}

/// Whether `s` holds the reduction from position `at` on.
#[verifier::opaque]
pub open spec fn holds_reduce(s: Seq<u8>, at: int) -> bool {
    0 <= at && at + 6 <= s.len() && s.subrange(at, at + 6) == reduce_script()
}

/// The reduction on the machine, wherever a script holds it: a magnitude on
/// top of the side stack comes to the stack as the field element it stands
/// for.
pub proof fn lemma_reduce_runs_at(s: Seq<u8>, at: int, st: Stack, al: Stack, a: Seq<u8>)
    requires
        holds_reduce(s, at),
        is_minimal_number(a),
        number_value(a) >= 0,
    ensures
        run(s, at, machine(st, push(al, a), Branches::Closed)) == run(
            s,
            at + 6,
            machine(
                push(st, number_bytes(reduce(number_value(a) as nat) as int)),
                al,
                Branches::Closed,
            ),
        ),
{
    reveal_with_fuel(all_taken, 2);
    assert(0 <= at && at + 6 <= s.len() && s[at] == OP_FROMALTSTACK && s[at + 1] == OP_DUP && s[at
        + 2] == OP_NOT && s[at + 3] == OP_NOTIF && s[at + 4] == OP_1SUB && s[at + 5] == OP_ENDIF)
        by {
        reveal(holds_reduce);
        let p = s.subrange(at, at + 6);
        assert(p[0] == s[at] && p[1] == s[at + 1] && p[2] == s[at + 2] && p[3] == s[at + 3]
            && p[4] == s[at + 4] && p[5] == s[at + 5]);
    }
    let v = number_value(a);
    let c = Branches::Closed;
    let reduced = number_bytes(reduce(v as nat) as int);
    let m0 = machine(st, push(al, a), c);
    let m1 = machine(push(st, a), al, c);
    let m2 = machine(push(push(st, a), a), al, c);
    let m3 = machine(push(push(st, a), truth(v == 0)), al, c);
    let m4 = machine(push(st, a), al, one(v != 0));
    let m5 = machine(push(st, reduced), al, one(v != 0));
    let m6 = machine(push(st, reduced), al, c);
    lemma_advance(s, at, m0, at + 1, m1);
    lemma_advance(s, at + 1, m1, at + 2, m2);
    lemma_advance(s, at + 2, m2, at + 3, m3);
    lemma_advance(s, at + 3, m3, at + 4, m4);
    if v == 0 {
        assert(a =~= Seq::<u8>::empty());
        assert(reduced =~= a);
    }
    lemma_advance(s, at + 4, m4, at + 5, m5);
    lemma_advance(s, at + 5, m5, at + 6, m6);
}

/// The reduction as a script of its own.
pub proof fn lemma_reduce_runs(st: Stack, al: Stack, a: Seq<u8>)
    requires
        is_minimal_number(a),
        number_value(a) >= 0,
    ensures
        run(reduce_script(), 0, machine(st, push(al, a), Branches::Closed)) == Some(
            machine(
                push(st, number_bytes(reduce(number_value(a) as nat) as int)),
                al,
                Branches::Closed,
            ),
        ),
{
    let s = reduce_script();
    assert(holds_reduce(s, 0)) by {
        reveal(holds_reduce);
        assert(s.subrange(0, 6) =~= s);
    }
    lemma_reduce_runs_at(s, 0, st, al, a);
    let end = machine(
        push(st, number_bytes(reduce(number_value(a) as nat) as int)),
        al,
        Branches::Closed,
    );
    assert(run(s, 6, end) == Some(end));
}

} // verus!
