//! The state that the command loop and the reaper share.

use crate::job::{JobView, Jobs};
use vstd::prelude::*;

verus! {

/// The job table and the exit status that was recorded last. The command
/// loop and the reaper work on one value of this type, each holding it
/// for the length of one call.
pub struct Shell {
    pub jobs: Jobs,
    /// The exit status of the process that exited last, or `None` where
    /// the last one was killed by a signal or none has exited yet.
    pub exit_status: Option<i32>,
}

impl Shell {
    /// The job table is well formed.
    pub open spec fn wf(&self) -> bool {
        self.jobs.wf()
    }

    /// A shell without jobs and without a recorded exit status.
    pub fn new() -> (shell: Self)
        ensures
            shell.wf(),
            shell.jobs@ == Seq::<JobView>::empty(),
            shell.exit_status == None::<i32>,
    {
        Shell { jobs: Jobs::new(), exit_status: None }
    }
}

} // verus!
