//! App-permission requests: a daemon forwards "app X wants to do Y"
//! requests of the low-risk tier, and the user allows or denies them from
//! the shell. (Unrelated to Unix file modes.)

pub mod client;
pub mod protocol;
