//! The expansions the shell applies to words and lines.

pub mod arithmetic;
pub mod braced;
pub mod command;
pub mod expander;
pub mod fields;
pub mod pipeline;
