//! The script executor's decisions: its `read`, and how it runs, waits for
//! and reports pipelines.

pub mod command;
pub mod control;
pub mod executor;
pub mod pipeline;
pub mod read;

