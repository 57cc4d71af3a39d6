//! Scripts as byte strings, and the pushes that build them.

use crate::encoding::{encode_number, encode_word, le_bytes};
use crate::field::{M31, QM31};
use crate::opcodes::{OP_0, OP_1NEGATE, OP_PUSHDATA1, OP_PUSHDATA2, OP_PUSHDATA4, OP_RESERVED};
use vstd::prelude::*;

verus! {

/// The shortest script that pushes `data`: an opcode of its own for the empty
/// string, for the numbers 1 to 16 and for -1, else a length prefix and the
/// bytes.
pub open spec fn data_push(data: Seq<u8>) -> Seq<u8>
    recommends
        data.len() <= u32::MAX,
{
    if data.len() == 0 {
        seq![OP_0]
    } else if data.len() == 1 && 1 <= data[0] <= 16 {
        seq![(OP_RESERVED + data[0]) as u8]
    } else if data.len() == 1 && data[0] == 0x81 {
        seq![OP_1NEGATE]
    } else if data.len() <= 75 {
        seq![data.len() as u8] + data
    } else if data.len() <= 0xff {
        seq![OP_PUSHDATA1, data.len() as u8] + data
    } else if data.len() <= 0xffff {
        seq![OP_PUSHDATA2, (data.len() % 256) as u8, (data.len() / 256) as u8] + data
    } else {
        seq![OP_PUSHDATA4] + le_bytes(data.len() as u32) + data
    }
}

/// The script that pushes a non-negative number.
pub open spec fn number_push(v: u32) -> Seq<u8>
    recommends
        v <= 0x7fff_ffff,
{
    data_push(encode_word(le_bytes(v)))
}

/// The script that pushes an extension element: its four coordinates in the
/// reverse of the order in which they are built, so that the first one ends up
/// on top.
pub open spec fn qm31_push(x: QM31) -> Seq<u8>
    recommends
        x.is_reduced(),
{
    number_push(x.1.1.0) + number_push(x.1.0.0) + number_push(x.0.1.0) + number_push(x.0.0.0)
}

/// A byte string, `k` times in a row.
pub open spec fn repeated(s: Seq<u8>, k: nat) -> Seq<u8>
    decreases k,
{
    if k == 0 {
        Seq::empty()
    } else {
        repeated(s, (k - 1) as nat) + s
    }
}

/// A script: the bytes that the script machine runs.
#[derive(Debug)]
pub struct Script {
    /// The opcodes and pushed data, in order.
    pub bytes: Vec<u8>,
}

impl View for Script {
    type V = Seq<u8>;

    open spec fn view(&self) -> Seq<u8> {
        self.bytes@
    }
}

impl Script {
    /// The empty script.
    pub fn new() -> (s: Script)
        ensures
            s@ == Seq::<u8>::empty(),
    {
        Script { bytes: Vec::new() }
    }

    /// The size of the script in bytes.
    pub fn len(&self) -> (n: usize)
        ensures
            n == self@.len(),
    {
        self.bytes.len()
    }

    /// The bytes of the script.
    pub fn as_bytes(&self) -> (bytes: &Vec<u8>)
        ensures
            bytes@ == self@,
    {
        &self.bytes
    }

    /// A copy of the script.
    pub fn clone(&self) -> (s: Script)
        ensures
            s@ == self@,
    {
        let mut s = Script::new();
        s.push_script(self);
        assert(s@ =~= self@);
        s
    }

    /// Appends one opcode.
    pub fn push_opcode(&mut self, op: u8)
        ensures
            final(self)@ == old(self)@.push(op),
    {
        self.bytes.push(op);
    }

    /// Appends raw bytes.
    fn push_raw(&mut self, data: &Vec<u8>)
        ensures
            final(self)@ == old(self)@ + data@,
    {
        let mut k: usize = 0;
        while k < data.len()
            invariant
                k <= data@.len(),
                self@ == old(self)@ + data@.subrange(0, k as int),
            decreases data@.len() - k,
        {
            self.bytes.push(data[k]);
            assert(self@ =~= old(self)@ + data@.subrange(0, k + 1));
            k += 1;
        }
        assert(data@.subrange(0, data@.len() as int) =~= data@);
    }

    /// Appends another script.
    pub fn push_script(&mut self, other: &Script)
        ensures
            final(self)@ == old(self)@ + other@,
    {
        self.push_raw(&other.bytes);
    }

    /// Appends another script `k` times.
    pub fn push_repeated(&mut self, other: &Script, k: usize)
        ensures
            final(self)@ == old(self)@ + repeated(other@, k as nat),
    {
        let mut i: usize = 0;
        assert(self@ =~= old(self)@ + repeated(other@, 0));
        while i < k
            invariant
                i <= k,
                self@ == old(self)@ + repeated(other@, i as nat),
            decreases k - i,
        {
            self.push_script(other);
            assert(self@ =~= old(self)@ + repeated(other@, (i + 1) as nat));
            i += 1;
        }
    }

    /// Appends the shortest push of `data`.
    pub fn push_data(&mut self, data: &Vec<u8>)
        requires
            data@.len() <= u32::MAX,
        ensures
            final(self)@ == old(self)@ + data_push(data@),
    {
        let n: usize = data.len();
        if n == 0 {
            self.bytes.push(OP_0);
            assert(self@ =~= old(self)@ + data_push(data@));
        } else if n == 1 && 1 <= data[0] && data[0] <= 16 {
            self.bytes.push(OP_RESERVED + data[0]);
            assert(self@ =~= old(self)@ + data_push(data@));
        } else if n == 1 && data[0] == 0x81 {
            self.bytes.push(OP_1NEGATE);
            assert(self@ =~= old(self)@ + data_push(data@));
        } else {
            let ghost before = self@;
            if n <= 75 {
                self.bytes.push(n as u8);
                assert(self@ =~= before + seq![n as u8]);
            } else if n <= 0xff {
                self.bytes.push(OP_PUSHDATA1);
                self.bytes.push(n as u8);
                assert(self@ =~= before + seq![OP_PUSHDATA1, n as u8]);
            } else if n <= 0xffff {
                self.bytes.push(OP_PUSHDATA2);
                self.bytes.push((n % 256) as u8);
                self.bytes.push((n / 256) as u8);
                assert(self@ =~= before + seq![OP_PUSHDATA2, (n % 256) as u8, (n / 256) as u8]);
            } else {
                let v: u32 = n as u32;
                self.bytes.push(OP_PUSHDATA4);
                self.bytes.push((v % 256) as u8);
                self.bytes.push((v / 256 % 256) as u8);
                self.bytes.push((v / 65536 % 256) as u8);
                self.bytes.push((v / 16777216) as u8);
                assert(self@ =~= before + (seq![OP_PUSHDATA4] + le_bytes(v)));
            }
            self.push_raw(data);
            assert(self@ =~= old(self)@ + data_push(data@));
        }
    }

    /// Appends the push of a non-negative number.
    pub fn push_number(&mut self, v: u32)
        requires
            v <= 0x7fff_ffff,
        ensures
            final(self)@ == old(self)@ + number_push(v),
    {
        let enc: Vec<u8> = encode_number(v);
        self.push_data(&enc);
    }

    /// Appends the push of a base field element.
    pub fn push_m31(&mut self, x: M31)
        requires
            x.0 <= 0x7fff_ffff,
        ensures
            final(self)@ == old(self)@ + number_push(x.0),
    {
        self.push_number(x.0);
    }

    /// Appends the pushes of the four coordinates of an extension element,
    /// the last one first.
    pub fn push_qm31(&mut self, x: QM31)
        requires
            x.0.0.0 <= 0x7fff_ffff,
            x.0.1.0 <= 0x7fff_ffff,
            x.1.0.0 <= 0x7fff_ffff,
            x.1.1.0 <= 0x7fff_ffff,
        ensures
            final(self)@ == old(self)@ + qm31_push(x),
    {
        self.push_number(x.1.1.0);
        self.push_number(x.1.0.0);
        self.push_number(x.0.1.0);
        self.push_number(x.0.0.0);
        assert(self@ =~= old(self)@ + qm31_push(x));
    }

    /// Appends the push of a 32-byte hash.
    pub fn push_hash(&mut self, hash: &[u8; 32])
        ensures
            final(self)@ == old(self)@ + (seq![32u8] + hash@),
    {
        self.bytes.push(32u8);
        let mut k: usize = 0;
        while k < 32
            invariant
                k <= 32,
                self@ == old(self)@ + (seq![32u8] + hash@.subrange(0, k as int)),
            decreases 32 - k,
        {
            self.bytes.push(hash[k]);
            assert(self@ =~= old(self)@ + (seq![32u8] + hash@.subrange(0, k + 1)));
            k += 1;
        }
        assert(hash@.subrange(0, 32) =~= hash@);
    }
}

} // verus!
