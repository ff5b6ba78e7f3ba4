//! The labels of the code that every translated program starts and ends with.
use vstd::prelude::*;

verus! {

/// Initialises the stack pointer.
pub const SETUP: &'static str = "SETUP";
/// The first translated command.
pub const CODE: &'static str = "CODE";
/// The shared routine behind `eq`.
pub const EQ: &'static str = "EQ";
/// The exit of the `eq` routine.
pub const EQ_RET: &'static str = "EQ_RET";
/// The shared routine behind `lt`.
pub const LT: &'static str = "LT";
/// The exit of the `lt` routine.
pub const LT_RET: &'static str = "LT_RET";
/// The shared routine behind `gt`.
pub const GT: &'static str = "GT";
/// The exit of the `gt` routine.
pub const GT_RET: &'static str = "GT_RET";
/// The final endless loop.
pub const END: &'static str = "END";

} // verus!
