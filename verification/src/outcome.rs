use vstd::prelude::*;

verus! {

/// What running a node produced: a plain exit status, or a control-flow
/// signal that the caller has to act on.
#[derive(Debug, Clone, PartialEq, Eq)]
pub enum ExecOutcome {
    Status(i32),
    Break,
    Return(i32),
    Continue,
    Exit(i32),
    Eval(String),
}

impl ExecOutcome {
    /// The status carried by `Status`, `Return` and `Exit`; zero for the others.
    pub fn status_or_zero(self) -> (r: i32)
        ensures
            r == match self {
                ExecOutcome::Status(s) | ExecOutcome::Return(s) | ExecOutcome::Exit(s) => s,
                _ => 0i32,
            },
    {
        match self {
            ExecOutcome::Status(s) | ExecOutcome::Return(s) | ExecOutcome::Exit(s) => s,
            _ => 0,
        }
    }
}

} // verus!
