//! Exits of child processes.

use vstd::prelude::*;

use crate::sys;

verus! {

/// Exit status of a child process.
#[derive(Debug, Clone, Copy, PartialEq, Eq, Structural)]
pub struct ChildExit {
    /// The process that exited.
    pub pid: i32,
    /// Whether it exited, was killed, or dumped core.
    pub code: i32,
    /// Exit code, or the number of the signal that killed it.
    pub status: i32,
}

impl ChildExit {
    /// Whether the child exited with code zero.
    pub open spec fn succeeded(self) -> bool {
        self.code == 1 && self.status == 0
    }

    /// Whether the child exited with code zero.
    pub fn is_success(&self) -> (r: bool)
        ensures
            r == self.succeeded(),
    {
        self.code == sys::CLD_EXITED && self.status == 0
    }
}

/// A child was successful where it exited, with status zero.
pub proof fn law_when_a_child_was_successful(exit: ChildExit)
    ensures
        exit.succeeded() <==> exit.code == 1 && exit.status == 0,
{
}

} // verus!
