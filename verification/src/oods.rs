//! Out-of-domain sampling: a random point of the circle curve from one
//! squeezed extension element, as in Lemma 1 of
//! <https://eprint.iacr.org/2024/278.pdf>. The prover hints the point and the
//! script checks it against the element.

use crate::field_gadgets::{CirclePoint, FieldGadgets};
use crate::gadget::{draw_felt_with_hint_script, Sha256ChannelGadget};
use crate::script::{qm31_push, Script};
use vstd::prelude::*;

verus! {

/// The part of the out-of-domain sampling that computes t^2 - 1 and t^2 + 1
/// from the squeezed t.
pub open spec fn random_point_squares_script(g: &FieldGadgets) -> Seq<u8> {
    draw_felt_with_hint_script() + g.qm31_dup@ + g.qm31_square@ + g.qm31_dup@ + g.push_m31_one@
        + g.m31_sub@ + g.qm31_swap@ + g.push_n31_one@ + g.m31_add_n31@ + g.qm31_dup@
}

/// The part of the out-of-domain sampling that pulls the hinted x and y from
/// the bottom of the stack and checks them.
pub open spec fn random_point_check_script(g: &FieldGadgets) -> Seq<u8> {
    g.qm31_from_bottom@ + g.qm31_dup@ + g.qm31_rot@ + g.qm31_mul@ + g.qm31_neg@ + g.qm31_roll_3@
        + g.qm31_equalverify@ + g.qm31_from_bottom@ + g.qm31_dup@ + g.qm31_roll_3@ + g.qm31_mul@
        + g.qm31_roll_3@ + g.qm31_double@ + g.qm31_equalverify@
}

/// Sampling a point with the hinted coordinates at the bottom of the stack.
pub open spec fn get_random_point_script(g: &FieldGadgets) -> Seq<u8> {
    random_point_squares_script(g) + random_point_check_script(g)
}

/// Gadget for out-of-domain sampling.
pub struct OODSGadget;

impl OODSGadget {
    /// Samples a random point over the projective line. Stack before: the
    /// hint of the squeeze at the bottom, above it x = (1-t^2)/(1+t^2) and
    /// y = 2t/(1+t^2) for the squeezed t, and the digest on top. Stack after:
    /// the next digest, x, y.
    pub fn get_random_point(g: &FieldGadgets) -> (s: Script)
        ensures
            s@ == get_random_point_script(g),
    {
        let mut s = Sha256ChannelGadget::draw_felt_with_hint();
        // stack: x, y, channel', t
        s.push_script(&g.qm31_dup);
        s.push_script(&g.qm31_square);
        // t^2 - 1
        s.push_script(&g.qm31_dup);
        s.push_script(&g.push_m31_one);
        s.push_script(&g.m31_sub);
        // t^2 + 1
        s.push_script(&g.qm31_swap);
        s.push_script(&g.push_n31_one);
        s.push_script(&g.m31_add_n31);
        s.push_script(&g.qm31_dup);
        assert(s@ =~= random_point_squares_script(g));
        // stack: x, y, channel', t, t^2 - 1, t^2 + 1, t^2 + 1
        let mut c = Script::new();
        // pull the hint x and verify
        c.push_script(&g.qm31_from_bottom);
        c.push_script(&g.qm31_dup);
        c.push_script(&g.qm31_rot);
        c.push_script(&g.qm31_mul);
        c.push_script(&g.qm31_neg);
        c.push_script(&g.qm31_roll_3);
        c.push_script(&g.qm31_equalverify);
        // stack: y, channel', t, t^2 + 1, x
        // pull the hint y
        c.push_script(&g.qm31_from_bottom);
        c.push_script(&g.qm31_dup);
        c.push_script(&g.qm31_roll_3);
        c.push_script(&g.qm31_mul);
        c.push_script(&g.qm31_roll_3);
        c.push_script(&g.qm31_double);
        c.push_script(&g.qm31_equalverify);
        assert(c@ =~= random_point_check_script(g));
        s.push_script(&c);
        s
    }

    /// Push the hint for sampling a random point: the first coordinate, then
    /// the second.
    pub fn push_random_point_hint(p: &CirclePoint) -> (s: Script)
        requires
            p.x.is_reduced(),
            p.y.is_reduced(),
        ensures
            s@ == qm31_push(p.x) + qm31_push(p.y),
    {
        let mut s = Script::new();
        s.push_qm31(p.x);
        s.push_qm31(p.y);
        s
    }
}

} // verus!
