//! Starting a process in a process group of its own or of its pipeline.

use vstd::prelude::*;

verus! {

/// Job control: the choices made around forking a process.
pub struct JobControl;

impl JobControl {
    /// The process group a new process joins: `requested`, or where that
    /// is 0 a new group led by the process itself (`pid`).
    pub fn group_for(requested: i32, pid: i32) -> (g: i32)
        ensures
            g == (if requested == 0 {
                pid
            } else {
                requested
            }),
    {
        if requested == 0 {
            pid
        } else {
            requested
        }
    }
}

} // verus!
