//! Fiat-Shamir transcript gadgets for verifying a Circle-STARK proof in
//! Bitcoin script.
//!
//! - [`channel`] is the host side: a SHA-256 digest that absorbs and squeezes,
//!   and [`hint`] is what it records for every squeeze.
//! - [`gadget`] builds the script fragments that do the same on the stack,
//!   from the pushes of [`script`]; [`oods`] and [`circle_secure`] assemble
//!   the sampling of a curve point around a squeeze.
//! - [`replay`] computes on plain values what the fragments accept and leave,
//!   and [`soundness`] proves what that guarantees: a recorded hint passes,
//!   a tampered one does not, negative zero never does.
//! - [`machine`] says what the opcodes do. [`reconstruct_proof`],
//!   [`fragment_runs`], [`felt_runs`] and [`unpack_proof`] prove, opcode by
//!   opcode, that the bytes of the reconstruct fragment, of the reduction, of
//!   the two absorbing fragments and of the unpacking of four field elements
//!   run to what the replay and the channel compute.

pub mod hash;
pub mod encoding;
pub mod field;
pub mod hint;
pub mod channel;
pub mod replay;
pub mod opcodes;
pub mod script;
pub mod gadget;
pub mod field_gadgets;
pub mod circle_secure;
pub mod oods;
pub mod machine;
pub mod reconstruct_proof;
pub mod fragment_runs;
pub mod felt_runs;
pub mod unpack_proof;
pub mod soundness;
