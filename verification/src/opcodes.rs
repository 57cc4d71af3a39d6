//! The opcodes of the script machine that the fragments use.

use vstd::prelude::*;

verus! {

/// Pushes the empty byte string, which is the number zero.
pub const OP_0: u8 = 0x00;

/// Pushes the one byte that follows.
pub const OP_PUSHBYTES_1: u8 = 0x01;

/// Pushes the two bytes that follow.
pub const OP_PUSHBYTES_2: u8 = 0x02;

/// Pushes the four bytes that follow.
pub const OP_PUSHBYTES_4: u8 = 0x04;

/// Pushes as many bytes as the next byte says.
pub const OP_PUSHDATA1: u8 = 0x4c;

/// Pushes as many bytes as the next two bytes say.
pub const OP_PUSHDATA2: u8 = 0x4d;

/// Pushes as many bytes as the next four bytes say.
pub const OP_PUSHDATA4: u8 = 0x4e;

/// Pushes the number -1.
pub const OP_1NEGATE: u8 = 0x4f;

/// One below the opcode that pushes the number 1; the numbers up to 16 follow.
pub const OP_RESERVED: u8 = 0x50;

/// Pushes the number 2.
pub const OP_2: u8 = 0x52;

/// Pushes the number 3.
pub const OP_3: u8 = 0x53;

/// Pushes the number 4.
pub const OP_4: u8 = 0x54;

/// Runs what follows if the top of the stack is true.
pub const OP_IF: u8 = 0x63;

/// Runs what follows if the top of the stack is false.
pub const OP_NOTIF: u8 = 0x64;

/// Switches to the other branch.
pub const OP_ELSE: u8 = 0x67;

/// Ends a conditional.
pub const OP_ENDIF: u8 = 0x68;

/// Moves the top of the stack to the side stack.
pub const OP_TOALTSTACK: u8 = 0x6b;

/// Moves the top of the side stack back.
pub const OP_FROMALTSTACK: u8 = 0x6c;

/// Swaps the two top pairs.
pub const OP_2SWAP: u8 = 0x72;

/// Pushes the number of items on the stack.
pub const OP_DEPTH: u8 = 0x74;

/// Removes the top of the stack.
pub const OP_DROP: u8 = 0x75;

/// Duplicates the top of the stack.
pub const OP_DUP: u8 = 0x76;

/// Moves the item at the given depth to the top.
pub const OP_ROLL: u8 = 0x7a;

/// Rotates the three top items.
pub const OP_ROT: u8 = 0x7b;

/// Swaps the two top items.
pub const OP_SWAP: u8 = 0x7c;

/// Joins the two top items.
pub const OP_CAT: u8 = 0x7e;

/// Pushes the length of the top item.
pub const OP_SIZE: u8 = 0x82;

/// Compares the two top items byte by byte.
pub const OP_EQUAL: u8 = 0x87;

/// Compares the two top items and aborts unless they are equal.
pub const OP_EQUALVERIFY: u8 = 0x88;

/// Subtracts one.
pub const OP_1SUB: u8 = 0x8c;

/// Takes the absolute value.
pub const OP_ABS: u8 = 0x90;

/// Turns zero into one and anything else into zero.
pub const OP_NOT: u8 = 0x91;

/// Subtracts the top from the item below it.
pub const OP_SUB: u8 = 0x94;

/// Whether the item below the top is less than the top.
pub const OP_LESSTHAN: u8 = 0x9f;

/// Whether the item below the top is at least the top.
pub const OP_GREATERTHANOREQUAL: u8 = 0xa2;

/// Hashes the top of the stack with SHA-256.
pub const OP_SHA256: u8 = 0xa8;

} // verus!
