use vstd::prelude::*;

pub mod outcome;
pub mod parser;
pub mod permissions;
pub mod process;
pub mod shell;
pub mod authentication;
pub mod builtins;
pub mod completion;
pub mod config;
pub mod error;
pub mod execution;
pub mod expansion;
pub mod lexer;
pub mod text;
pub mod vars;

verus! {

} // verus!
