//! The part of the script machine that the fragments use: what each opcode
//! does to the stack and the side stack, and what a run of a script leaves.
//!
//! Numbers are minimally encoded sign-magnitude byte strings of at most four
//! bytes; a conditional takes only the empty string or the single byte 1; a
//! push has to be the shortest one for its data. An opcode that no fragment
//! uses aborts the run, and so does a push with a length field of its own.
//! The limit on the number of stack items is left out.

use crate::encoding::{encode_word, le_bytes};
use crate::hash::sha256;
use crate::opcodes::{OP_0, OP_PUSHDATA1, OP_PUSHDATA2, OP_PUSHDATA4, OP_1NEGATE, OP_1SUB, OP_2SWAP, OP_ABS, OP_CAT, OP_DEPTH, OP_DROP, OP_DUP, OP_ELSE, OP_ENDIF, OP_EQUAL, OP_EQUALVERIFY, OP_FROMALTSTACK, OP_GREATERTHANOREQUAL, OP_IF, OP_LESSTHAN, OP_NOT, OP_NOTIF, OP_RESERVED, OP_ROLL, OP_ROT, OP_SHA256, OP_SIZE, OP_SUB, OP_SWAP, OP_TOALTSTACK};
use crate::replay::{is_minimal_number, magnitude_bytes, number_is_negative, number_magnitude};
use vstd::prelude::*;

verus! {

/// A stack of byte strings, given by its top and what lies beneath.
pub enum Stack {
    /// The empty stack.
    Empty,
    /// A byte string on top of a stack.
    Item(Seq<u8>, Box<Stack>),
}

/// The conditionals that are open, the innermost first, each with whether its
/// current branch is taken.
pub enum Branches {
    /// No conditional is open.
    Closed,
    /// A conditional inside the others.
    Open(bool, Box<Branches>),
}

/// The state of a run.
pub struct Machine {
    /// The stack.
    pub stack: Stack,
    /// The side stack.
    pub alt: Stack,
    /// The open conditionals.
    pub branches: Branches,
}

/// The number of items on a stack.
pub open spec fn depth(s: Stack) -> nat
    decreases s,
{
    match s {
        Stack::Empty => 0,
        Stack::Item(_, rest) => 1 + depth(*rest),
    }
}

/// The item at depth `k`, 0 being the top.
pub open spec fn item_at(s: Stack, k: nat) -> Seq<u8>
    decreases s,
{
    match s {
        Stack::Empty => Seq::empty(),
        Stack::Item(x, rest) => if k == 0 {
            x
        } else {
            item_at(*rest, (k - 1) as nat)
        },
    }
}

/// The stack without the item at depth `k`.
pub open spec fn without(s: Stack, k: nat) -> Stack
    decreases s,
{
    match s {
        Stack::Empty => Stack::Empty,
        Stack::Item(x, rest) => if k == 0 {
            *rest
        } else {
            Stack::Item(x, Box::new(without(*rest, (k - 1) as nat)))
        },
    }
}

/// A stack with one more item on top.
pub open spec fn push(s: Stack, x: Seq<u8>) -> Stack {
    Stack::Item(x, Box::new(s))
}

/// Whether every open conditional is in a branch that is taken.
pub open spec fn all_taken(b: Branches) -> bool
    decreases b,
{
    match b {
        Branches::Closed => true,
        Branches::Open(taken, outer) => taken && all_taken(*outer),
    }
}

/// The longest byte string that may lie on the stack.
pub open spec fn max_element_len() -> int {
    520
}

/// The value of a number.
pub open spec fn number_value(e: Seq<u8>) -> int {
    if number_is_negative(e) {
        -(number_magnitude(e) as int)
    } else {
        number_magnitude(e) as int
    }
}

/// The encoding of a value. A magnitude of 31 bits takes at most four bytes;
/// a result beyond that takes a fifth byte for the sign.
pub open spec fn number_bytes(v: int) -> Seq<u8>
    recommends
        -0x1_0000_0000 < v < 0x1_0000_0000,
{
    let m = if v < 0 {
        -v
    } else {
        v
    };
    let sign = if v < 0 {
        128u8
    } else {
        0u8
    };
    let b = le_bytes(m as u32);
    if m < 0x8000_0000 {
        encode_word(seq![b[0], b[1], b[2], (b[3] + sign) as u8])
    } else {
        b.push(sign)
    }
}

/// The result of a comparison.
pub open spec fn truth(b: bool) -> Seq<u8> {
    if b {
        seq![1u8]
    } else {
        Seq::empty()
    }
}

/// Whether a push of `data` by a length byte is the shortest push of it.
pub open spec fn is_minimal_push(data: Seq<u8>) -> bool {
    data.len() != 0 && !(data.len() == 1 && (1 <= data[0] <= 16 || data[0] == 0x81))
}

/// The machine with another stack.
pub open spec fn with_stack(m: Machine, stack: Stack) -> Machine {
    Machine { stack, alt: m.alt, branches: m.branches }
}

/// An opcode that works on the top item alone; `None` where the script aborts.
pub open spec fn step_one(op: u8, x: Seq<u8>, rest: Stack, m: Machine) -> Option<Machine> {
    if op == OP_TOALTSTACK {
        Some(Machine { stack: rest, alt: push(m.alt, x), branches: m.branches })
    } else if op == OP_DROP {
        Some(with_stack(m, rest))
    } else if op == OP_DUP {
        Some(with_stack(m, push(m.stack, x)))
    } else if op == OP_SIZE {
        Some(with_stack(m, push(m.stack, number_bytes(x.len() as int))))
    } else if op == OP_SHA256 {
        Some(with_stack(m, push(rest, sha256(x))))
    } else if !is_minimal_number(x) {
        None
    } else if op == OP_1SUB {
        Some(with_stack(m, push(rest, number_bytes(number_value(x) - 1))))
    } else if op == OP_ABS {
        Some(with_stack(m, push(rest, magnitude_bytes(x))))
    } else if op == OP_NOT {
        Some(with_stack(m, push(rest, truth(number_value(x) == 0))))
    } else if op == OP_ROLL {
        let k = number_value(x);
        if k < 0 || k >= depth(rest) {
            None
        } else {
            Some(with_stack(m, push(without(rest, k as nat), item_at(rest, k as nat))))
        }
    } else {
        None
    }
}

/// An opcode that works on the two top items, `a` beneath `b`.
pub open spec fn step_two(op: u8, a: Seq<u8>, b: Seq<u8>, rest: Stack, m: Machine) -> Option<
    Machine,
> {
    if op == OP_SWAP {
        Some(with_stack(m, push(push(rest, b), a)))
    } else if op == OP_CAT {
        if a.len() + b.len() > max_element_len() {
            None
        } else {
            Some(with_stack(m, push(rest, a + b)))
        }
    } else if op == OP_EQUAL {
        Some(with_stack(m, push(rest, truth(a == b))))
    } else if op == OP_EQUALVERIFY {
        if a == b {
            Some(with_stack(m, rest))
        } else {
            None
        }
    } else if !is_minimal_number(a) || !is_minimal_number(b) {
        None
    } else if op == OP_SUB {
        Some(with_stack(m, push(rest, number_bytes(number_value(a) - number_value(b)))))
    } else if op == OP_LESSTHAN {
        Some(with_stack(m, push(rest, truth(number_value(a) < number_value(b)))))
    } else if op == OP_GREATERTHANOREQUAL {
        Some(with_stack(m, push(rest, truth(number_value(a) >= number_value(b)))))
    } else {
        None
    }
}

/// One opcode that is neither a push of data nor part of a conditional,
/// carried out; `None` where the script aborts.
pub open spec fn step(op: u8, m: Machine) -> Option<Machine> {
    if op == OP_1NEGATE {
        Some(with_stack(m, push(m.stack, seq![0x81u8])))
    } else if OP_RESERVED < op <= OP_RESERVED + 16 {
        Some(with_stack(m, push(m.stack, seq![(op - OP_RESERVED) as u8])))
    } else if op == OP_DEPTH {
        Some(with_stack(m, push(m.stack, number_bytes(depth(m.stack) as int))))
    } else if op == OP_FROMALTSTACK {
        match m.alt {
            Stack::Empty => None,
            Stack::Item(x, rest) => Some(
                Machine { stack: push(m.stack, x), alt: *rest, branches: m.branches },
            ),
        }
    } else if op == OP_ROT {
        if depth(m.stack) < 3 {
            None
        } else {
            Some(with_stack(m, push(without(m.stack, 2), item_at(m.stack, 2))))
        }
    } else if op == OP_2SWAP {
        if depth(m.stack) < 4 {
            None
        } else {
            Some(
                with_stack(
                    m,
                    push(
                        push(without(without(m.stack, 3), 2), item_at(m.stack, 3)),
                        item_at(m.stack, 2),
                    ),
                ),
            )
        }
    } else if op == OP_SWAP || op == OP_CAT || op == OP_EQUAL || op == OP_EQUALVERIFY || op
        == OP_SUB || op == OP_LESSTHAN || op == OP_GREATERTHANOREQUAL {
        match m.stack {
            Stack::Item(b, below) => match *below {
                Stack::Item(a, rest) => step_two(op, a, b, *rest, m),
                Stack::Empty => None,
            },
            Stack::Empty => None,
        }
    } else {
        match m.stack {
            Stack::Item(x, rest) => step_one(op, x, *rest, m),
            Stack::Empty => None,
        }
    }
}

/// The opening of a conditional: where opcodes are carried out, the top of
/// the stack decides, and it has to be the empty string or the single byte 1.
pub open spec fn open_branch(op: u8, m: Machine) -> Option<Machine> {
    if !all_taken(m.branches) {
        Some(
            Machine {
                stack: m.stack,
                alt: m.alt,
                branches: Branches::Open(false, Box::new(m.branches)),
            },
        )
    } else {
        match m.stack {
            Stack::Empty => None,
            Stack::Item(x, rest) => if x.len() == 0 || (x.len() == 1 && x[0] == 1) {
                Some(
                    Machine {
                        stack: *rest,
                        alt: m.alt,
                        branches: Branches::Open(
                            (x.len() != 0) == (op == OP_IF),
                            Box::new(m.branches),
                        ),
                    },
                )
            } else {
                None
            },
        }
    }
}

/// The opcode at position `pc` carried out: the next position and the next
/// state, or `None` where the script aborts.
pub open spec fn next(script: Seq<u8>, pc: int, m: Machine) -> Option<(int, Machine)>
    recommends
        0 <= pc < script.len(),
{
    let op = script[pc];
    if op == OP_0 {
        Some(
            (
                pc + 1,
                if all_taken(m.branches) {
                    with_stack(m, push(m.stack, Seq::empty()))
                } else {
                    m
                },
            ),
        )
    } else if op <= 75 {
        let data = script.subrange(pc + 1, pc + 1 + op);
        if pc + 1 + op > script.len() {
            None
        } else if !all_taken(m.branches) {
            Some((pc + 1 + op, m))
        } else if !is_minimal_push(data) {
            None
        } else {
            Some((pc + 1 + op, with_stack(m, push(m.stack, data))))
        }
    } else if op == OP_PUSHDATA1 || op == OP_PUSHDATA2 || op == OP_PUSHDATA4 {
        None
    } else if op == OP_IF || op == OP_NOTIF {
        match open_branch(op, m) {
            Some(opened) => Some((pc + 1, opened)),
            None => None,
        }
    } else if op == OP_ELSE {
        match m.branches {
            Branches::Closed => None,
            Branches::Open(taken, outer) => Some(
                (
                    pc + 1,
                    Machine { stack: m.stack, alt: m.alt, branches: Branches::Open(!taken, outer) },
                ),
            ),
        }
    } else if op == OP_ENDIF {
        match m.branches {
            Branches::Closed => None,
            Branches::Open(_, outer) => Some(
                (pc + 1, Machine { stack: m.stack, alt: m.alt, branches: *outer }),
            ),
        }
    } else if !all_taken(m.branches) {
        Some((pc + 1, m))
    } else {
        match step(op, m) {
            Some(stepped) => Some((pc + 1, stepped)),
            None => None,
        }
    }
}

/// What a run of `script` from position `pc` leaves, or `None` where it
/// aborts. A run that ends inside a conditional aborts.
pub open spec fn run(script: Seq<u8>, pc: int, m: Machine) -> Option<Machine>
    decreases script.len() - pc,
{
    if pc < 0 {
        None
    } else if pc >= script.len() {
        if m.branches is Closed {
            Some(m)
        } else {
            None
        }
    } else {
        match next(script, pc, m) {
            Some((pc2, m2)) => if pc2 > pc {
                run(script, pc2, m2)
            } else {
                None
            },
            None => None,
        }
    }
}

/// One opcode further.
pub proof fn lemma_advance(script: Seq<u8>, pc: int, m: Machine, pc2: int, m2: Machine)
    requires
        0 <= pc < script.len(),
        pc2 > pc,
        next(script, pc, m) == Some((pc2, m2)),
    ensures
        run(script, pc, m) == run(script, pc2, m2),
{
}

/// An opcode at which the script aborts.
pub proof fn lemma_abort(script: Seq<u8>, pc: int, m: Machine)
    requires
        0 <= pc < script.len(),
        next(script, pc, m) is None,
    ensures
        run(script, pc, m) is None,
{
}

} // verus!
