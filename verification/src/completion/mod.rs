//! Interactive line editing: completion and the check that an input line
//! is complete.

pub mod engine;
pub mod helper;
