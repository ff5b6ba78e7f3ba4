//! The instruction fields, shared with the rest of the crate.
pub use crate::instructions::flags::{CompFlags, DestFlags, JumpFlags};
