//! Points of the circle curve over the extension field, on the stack: the
//! doubling map, and sampling a random point from one squeezed element, as in
//! Lemma 1 of <https://eprint.iacr.org/2024/278.pdf>.

use crate::field_gadgets::{push_qm31_one, qm31_one_push, CirclePoint, FieldGadgets};
use crate::gadget::{draw_felt_with_hint_script, Sha256ChannelGadget};
use crate::opcodes::{OP_FROMALTSTACK, OP_ROLL, OP_TOALTSTACK};
use crate::script::{number_push, qm31_push, Script};
use vstd::prelude::*;

verus! {

/// Doubling the angle: copy, multiply, double, subtract 1.
pub open spec fn double_x_script(g: &FieldGadgets) -> Seq<u8> {
    g.qm31_copy_0@ + g.qm31_mul@ + g.qm31_double@ + qm31_one_push() + g.qm31_sub@
}

/// The first half of the sampling check: squeeze t, keep the digest, x, y and
/// 2t aside, and leave y, x, t^2 on the stack.
pub open spec fn sampling_setup_script(g: &FieldGadgets) -> Seq<u8> {
    draw_felt_with_hint_script() + number_push(4) + seq![OP_ROLL, OP_TOALTSTACK] + g.qm31_copy_1@
        + g.qm31_toaltstack@ + g.qm31_copy_2@ + g.qm31_toaltstack@ + g.qm31_copy_0@
        + g.qm31_double@ + g.qm31_toaltstack@ + g.qm31_copy_0@ + g.qm31_mul@
}

/// The second half of the sampling check: compare (1+t^2)x with 1-t^2 and
/// (1+t^2)y with 2t, then bring the digest, x and y back.
pub open spec fn sampling_check_script(g: &FieldGadgets) -> Seq<u8> {
    g.qm31_copy_0@ + qm31_one_push() + g.qm31_roll_1@ + g.qm31_sub@ + g.qm31_toaltstack@
        + qm31_one_push() + g.qm31_add@ + g.qm31_copy_0@ + g.qm31_roll_2@ + g.qm31_mul@
        + g.qm31_fromaltstack@ + g.qm31_equalverify@ + g.qm31_mul@ + g.qm31_fromaltstack@
        + g.qm31_equalverify@ + seq![OP_FROMALTSTACK] + g.qm31_fromaltstack@
        + g.qm31_fromaltstack@
}

/// Sampling a point with the hinted coordinates on top of the stack.
pub open spec fn verify_sampling_random_point_script(g: &FieldGadgets) -> Seq<u8> {
    sampling_setup_script(g) + sampling_check_script(g)
}

/// Gadget for points of the circle curve over the extension field.
pub struct CirclePointSecureGadget;

impl CirclePointSecureGadget {
    /// Doubles the angle of a point given by its first coordinate, since
    /// cos(2*theta) = 2*cos(theta)^2-1. Stack before: x. Stack after: 2*x^2-1.
    pub fn double_x(g: &FieldGadgets) -> (s: Script)
        ensures
            s@ == double_x_script(g),
    {
        let mut s = Script::new();
        s.push_script(&g.qm31_copy_0);
        s.push_script(&g.qm31_mul);
        s.push_script(&g.qm31_double);
        push_qm31_one(&mut s);
        s.push_script(&g.qm31_sub);
        assert(s@ =~= double_x_script(g));
        s
    }

    /// Samples a random point over the projective line. Stack before: the
    /// hint of the squeeze at the bottom, then y and x such that
    /// 2*t = y*(1+t^2) and 1-t^2 = x*(1+t^2) for the squeezed t, then the
    /// digest. Stack after: y, x, the next digest.
    pub fn verify_sampling_random_point(g: &FieldGadgets) -> (s: Script)
        ensures
            s@ == verify_sampling_random_point_script(g),
    {
        let mut s = Sha256ChannelGadget::draw_felt_with_hint();  // y,x,channel',t
        s.push_number(4);
        s.push_opcode(OP_ROLL);  // y,x,t,channel'
        s.push_opcode(OP_TOALTSTACK);  // y,x,t; altstack: channel'
        s.push_script(&g.qm31_copy_1);
        s.push_script(&g.qm31_toaltstack);  // altstack: channel',x
        s.push_script(&g.qm31_copy_2);
        s.push_script(&g.qm31_toaltstack);  // altstack: channel',x,y
        s.push_script(&g.qm31_copy_0);
        s.push_script(&g.qm31_double);
        s.push_script(&g.qm31_toaltstack);  // altstack: channel',x,y,2*t
        s.push_script(&g.qm31_copy_0);
        s.push_script(&g.qm31_mul);  // y,x,t^2
        assert(s@ =~= sampling_setup_script(g));
        let mut c = Script::new();
        c.push_script(&g.qm31_copy_0);
        push_qm31_one(&mut c);
        c.push_script(&g.qm31_roll_1);
        c.push_script(&g.qm31_sub);  // y,x,t^2,1-t^2
        c.push_script(&g.qm31_toaltstack);  // altstack: channel',x,y,2*t,1-t^2
        push_qm31_one(&mut c);
        c.push_script(&g.qm31_add);  // y,x,1+t^2
        c.push_script(&g.qm31_copy_0);
        c.push_script(&g.qm31_roll_2);
        c.push_script(&g.qm31_mul);  // y,1+t^2,(1+t^2)*x
        c.push_script(&g.qm31_fromaltstack);
        c.push_script(&g.qm31_equalverify);  // y,1+t^2; altstack: channel',x,y,2*t
        c.push_script(&g.qm31_mul);  // y*(1+t^2)
        c.push_script(&g.qm31_fromaltstack);
        c.push_script(&g.qm31_equalverify);  // altstack: channel',x,y
        c.push_opcode(OP_FROMALTSTACK);
        c.push_script(&g.qm31_fromaltstack);
        c.push_script(&g.qm31_fromaltstack);  // y,x,channel'
        assert(c@ =~= sampling_check_script(g));
        s.push_script(&c);
        s
    }

    /// Push the hinted point: y, then x on top of it.
    pub fn push_random_point_hint(p: &CirclePoint) -> (s: Script)
        requires
            p.x.is_reduced(),
            p.y.is_reduced(),
        ensures
            s@ == qm31_push(p.y) + qm31_push(p.x),
    {
        let mut s = Script::new();
        s.push_qm31(p.y);
        s.push_qm31(p.x);
        s
    }
}

} // verus!
