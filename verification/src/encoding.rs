//! The native integer format of the script machine, seen from a 4-byte word.
//!
//! A digest is cut into little-endian words. The low 31 bits of a word are a
//! magnitude and the top bit of its last byte is a sign. The script machine
//! writes such a sign-magnitude number in as few bytes as possible; this
//! module computes that encoding and the field element a word stands for.

use vstd::prelude::*;

verus! {

/// A byte without its top bit.
pub open spec fn low7(b: u8) -> int {
    if b >= 128 {
        b - 128
    } else {
        b as int
    }
}

/// The 31-bit magnitude of a little-endian word.
pub open spec fn word_magnitude(w: Seq<u8>) -> nat
    recommends
        w.len() == 4,
{
    (w[0] + 256 * w[1] + 65536 * w[2] + 16777216 * low7(w[3])) as nat
}

/// The word whose magnitude is zero and whose sign bit is set.
pub open spec fn is_negative_zero(w: Seq<u8>) -> bool {
    w.len() == 4 && w[0] == 0 && w[1] == 0 && w[2] == 0 && w[3] == 128
}

/// The field element of a magnitude: zero stays, anything else loses one, so
/// that the modulus itself never comes out.
pub open spec fn reduce(m: nat) -> nat {
    if m == 0 {
        0
    } else {
        (m - 1) as nat
    }
}

/// The shortest sign-magnitude encoding of a word. The top byte of the
/// magnitude carries the sign bit unless its own top bit is taken, in which
/// case one more byte holds the sign. Negative zero is the single byte 0x80.
pub open spec fn encode_word(w: Seq<u8>) -> Seq<u8>
    recommends
        w.len() == 4,
{
    if low7(w[3]) != 0 {
        w
    } else if w[2] != 0 {
        if w[2] >= 128 {
            w
        } else {
            seq![w[0], w[1], (w[2] + w[3]) as u8]
        }
    } else if w[1] != 0 {
        if w[1] >= 128 {
            seq![w[0], w[1], w[3]]
        } else {
            seq![w[0], (w[1] + w[3]) as u8]
        }
    } else if w[0] != 0 {
        if w[0] >= 128 {
            seq![w[0], w[3]]
        } else {
            seq![(w[0] + w[3]) as u8]
        }
    } else if w[3] >= 128 {
        seq![128u8]
    } else {
        Seq::empty()
    }
}

/// The four bytes of a value, lowest first.
pub open spec fn le_bytes(v: u32) -> Seq<u8> {
    seq![(v % 256) as u8, (v / 256 % 256) as u8, (v / 65536 % 256) as u8, (v / 16777216) as u8]
}

/// The word at position `i` of a byte string.
pub open spec fn window(bytes: Seq<u8>, i: int) -> Seq<u8> {
    bytes.subrange(4 * i, 4 * i + 4)
}

/// Reduces a magnitude to a field element.
pub fn reduce_magnitude(m: u32) -> (v: u32)
    ensures
        v == reduce(m as nat),
{
    if m == 0 {
        0
    } else {
        m - 1
    }
}

/// The magnitude of the word at `bytes[at..at + 4]`.
pub fn magnitude_at(bytes: &[u8; 32], at: usize) -> (m: u32)
    requires
        at + 4 <= 32,
    ensures
        m == word_magnitude(bytes@.subrange(at as int, at + 4)),
        m <= 0x7fff_ffff,
{
    let b3: u8 = bytes[at + 3];
    let top: u8 = if b3 >= 128 { b3 - 128 } else { b3 };
    bytes[at] as u32 + 256 * (bytes[at + 1] as u32) + 65536 * (bytes[at + 2] as u32) + 16777216 * (top as u32)
}

/// The native encoding of the word at `bytes[at..at + 4]`.
pub fn encoding_at(bytes: &[u8; 32], at: usize) -> (e: Vec<u8>)
    requires
        at + 4 <= 32,
    ensures
        e@ == encode_word(bytes@.subrange(at as int, at + 4)),
{
    let b0: u8 = bytes[at];
    let b1: u8 = bytes[at + 1];
    let b2: u8 = bytes[at + 2];
    let b3: u8 = bytes[at + 3];
    let ghost w = bytes@.subrange(at as int, at + 4);
    let mut e: Vec<u8> = Vec::new();
    if (b3 != 0 && b3 != 128) || b2 >= 128 {
        e.push(b0);
        e.push(b1);
        e.push(b2);
        e.push(b3);
        assert(e@ =~= w);
    } else if b2 != 0 {
        e.push(b0);
        e.push(b1);
        e.push(b2 + b3);
    } else if b1 != 0 {
        e.push(b0);
        if b1 >= 128 {
            e.push(b1);
            e.push(b3);
        } else {
            e.push(b1 + b3);
        }
    } else if b0 != 0 {
        if b0 >= 128 {
            e.push(b0);
            e.push(b3);
        } else {
            e.push(b0 + b3);
        }
    } else if b3 >= 128 {
        e.push(128);
    }
    assert(e@ =~= encode_word(w));
    e
}

/// The native encoding of a non-negative number.
pub fn encode_number(v: u32) -> (e: Vec<u8>)
    requires
        v <= 0x7fff_ffff,
    ensures
        e@ == encode_word(le_bytes(v)),
        e@.len() <= 4,
{
    let b0: u8 = (v % 256) as u8;
    let b1: u8 = (v / 256 % 256) as u8;
    let b2: u8 = (v / 65536 % 256) as u8;
    let b3: u8 = (v / 16777216) as u8;
    let mut e: Vec<u8> = Vec::new();
    if b3 != 0 || b2 >= 128 {
        e.push(b0);
        e.push(b1);
        e.push(b2);
        e.push(b3);
    } else if b2 != 0 || b1 >= 128 {
        e.push(b0);
        e.push(b1);
        e.push(b2);
    } else if b1 != 0 || b0 >= 128 {
        e.push(b0);
        e.push(b1);
    } else if b0 != 0 {
        e.push(b0);
    }
    assert(e@ =~= encode_word(le_bytes(v)));
    e
}

} // verus!
