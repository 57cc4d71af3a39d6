//! The field arithmetic that the sampling gadgets are assembled from.
//!
//! The scripts that add, multiply or compare field elements on the stack come
//! from a gadget library and are taken as given; the sampling gadgets only put
//! them in order.

use crate::field::QM31;
use crate::script::{number_push, Script};
use vstd::prelude::*;

verus! {

/// A point of the circle curve over the extension field.
#[derive(Clone, Copy, Debug, PartialEq, Eq, Structural)]
pub struct CirclePoint {
    /// The first coordinate.
    pub x: QM31,
    /// The second coordinate.
    pub y: QM31,
}

/// The field arithmetic scripts that the sampling gadgets are assembled from.
/// An extension element takes four stack items; positions count elements
/// from the top.
pub struct FieldGadgets {
    /// Adds the two top extension elements.
    pub qm31_add: Script,
    /// Subtracts the top extension element from the one below.
    pub qm31_sub: Script,
    /// Multiplies the two top extension elements.
    pub qm31_mul: Script,
    /// Squares the top extension element.
    pub qm31_square: Script,
    /// Doubles the top extension element.
    pub qm31_double: Script,
    /// Negates the top extension element.
    pub qm31_neg: Script,
    /// Duplicates the top extension element.
    pub qm31_dup: Script,
    /// Swaps the two top extension elements.
    pub qm31_swap: Script,
    /// Rotates the three top extension elements.
    pub qm31_rot: Script,
    /// Copies the extension element at position 0.
    pub qm31_copy_0: Script,
    /// Copies the extension element at position 1.
    pub qm31_copy_1: Script,
    /// Copies the extension element at position 2.
    pub qm31_copy_2: Script,
    /// Moves the extension element at position 1 to the top.
    pub qm31_roll_1: Script,
    /// Moves the extension element at position 2 to the top.
    pub qm31_roll_2: Script,
    /// Moves the extension element at position 3 to the top.
    pub qm31_roll_3: Script,
    /// Moves the extension element at the bottom of the stack to the top.
    pub qm31_from_bottom: Script,
    /// Aborts unless the two top extension elements are equal.
    pub qm31_equalverify: Script,
    /// Moves the top extension element to the side stack.
    pub qm31_toaltstack: Script,
    /// Moves an extension element back from the side stack.
    pub qm31_fromaltstack: Script,
    /// Subtracts the top base element from the one below.
    pub m31_sub: Script,
    /// Adds a negated base element to a base element.
    pub m31_add_n31: Script,
    /// Pushes the base element 1.
    pub push_m31_one: Script,
    /// Pushes the negated base element 1.
    pub push_n31_one: Script,
}

/// The push of the extension element 1.
pub open spec fn qm31_one_push() -> Seq<u8> {
    number_push(0) + number_push(0) + number_push(0) + number_push(1)
}

/// Appends the push of the extension element 1.
pub fn push_qm31_one(s: &mut Script)
    ensures
        final(s)@ == old(s)@ + qm31_one_push(),
{
    s.push_number(0);
    s.push_number(0);
    s.push_number(0);
    s.push_number(1);
    assert(s@ =~= old(s)@ + qm31_one_push());
}

} // verus!
