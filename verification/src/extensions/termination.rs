//! How a process and all it has started are stopped: first politely, then by force.

use vstd::prelude::*;

verus! {

/// How long a process has to stop after each signal, in milliseconds.
pub const TERMINATION_GRACE: u64 = 100;

/// What is to be done to stop a process.
#[derive(Clone, Copy, Debug, PartialEq, Eq, Structural)]
pub enum TerminationStep {
    /// Ask the whole group to stop.
    AskGroup,
    /// See whether the process has stopped.
    AwaitRequest,
    /// Stop the whole group by force.
    KillGroup,
    /// Stop the process by force.
    KillProcess,
    /// See whether the process has stopped.
    AwaitForce,
    /// Look a last time, so that the system can forget the process.
    LastLook,
    Finished,
}

impl TerminationStep {
    /// The step after this one. `stopped` says whether the process was seen to have stopped, and
    /// `expired` whether its time is over.
    pub open spec fn after(self, stopped: bool, expired: bool) -> TerminationStep {
        match self {
            TerminationStep::AskGroup => TerminationStep::AwaitRequest,
            TerminationStep::AwaitRequest => if expired {
                TerminationStep::KillGroup
            } else if stopped {
                TerminationStep::Finished
            } else {
                TerminationStep::AwaitRequest
            },
            TerminationStep::KillGroup => TerminationStep::KillProcess,
            TerminationStep::KillProcess => TerminationStep::AwaitForce,
            TerminationStep::AwaitForce => if expired {
                TerminationStep::LastLook
            } else if stopped {
                TerminationStep::Finished
            } else {
                TerminationStep::AwaitForce
            },
            TerminationStep::LastLook => TerminationStep::Finished,
            TerminationStep::Finished => TerminationStep::Finished,
        }
    }

    /// Begins to stop a process. Where processes have no groups, it is stopped by force at once.
    pub fn terminate_process_tree(has_group: bool) -> (out: Self)
        ensures
            out == (if has_group {
                TerminationStep::AskGroup
            } else {
                TerminationStep::KillProcess
            }),
    {
        if has_group {
            TerminationStep::AskGroup
        } else {
            TerminationStep::KillProcess
        }
    }

    /// The step after this one.
    pub fn next(self, stopped: bool, expired: bool) -> (out: Self)
        ensures
            out == self.after(stopped, expired),
    {
        match self {
            TerminationStep::AskGroup => TerminationStep::AwaitRequest,
            TerminationStep::AwaitRequest => {
                if expired {
                    TerminationStep::KillGroup
                } else if stopped {
                    TerminationStep::Finished
                } else {
                    TerminationStep::AwaitRequest
                }
            },
            TerminationStep::KillGroup => TerminationStep::KillProcess,
            TerminationStep::KillProcess => TerminationStep::AwaitForce,
            TerminationStep::AwaitForce => {
                if expired {
                    TerminationStep::LastLook
                } else if stopped {
                    TerminationStep::Finished
                } else {
                    TerminationStep::AwaitForce
                }
            },
            TerminationStep::LastLook => TerminationStep::Finished,
            TerminationStep::Finished => TerminationStep::Finished,
        }
    }

    /// How many steps are left at most, once the time of every wait is over.
    pub open spec fn left(self) -> nat {
        match self {
            TerminationStep::AskGroup => 6,
            TerminationStep::AwaitRequest => 5,
            TerminationStep::KillGroup => 4,
            TerminationStep::KillProcess => 3,
            TerminationStep::AwaitForce => 2,
            TerminationStep::LastLook => 1,
            TerminationStep::Finished => 0,
        }
    }
}

/// A process is never waited for longer than its time: each step after that is nearer to the end.
pub proof fn termination_ends(step: TerminationStep, stopped: bool)
    requires
        step != TerminationStep::Finished,
    ensures
        step.after(stopped, true).left() < step.left(),
        step.after(true, false).left() < step.left(),
{
}

/// A process that stops when it is asked is not stopped by force.
pub proof fn the_willing_are_spared(step: TerminationStep, stopped: bool, expired: bool)
    requires
        step.after(stopped, expired) == TerminationStep::KillGroup,
    ensures
        step == TerminationStep::AwaitRequest && expired,
{
}

/// How long the readers of a process may take to end once it was stopped, in milliseconds.
pub const READER_GRACE: u64 = 150;

/// Whether readers are still waited for: some are running, and their time is not over.
pub fn awaits_readers(all_finished: bool, expired: bool) -> (out: bool)
    ensures
        out == (!all_finished && !expired),
{
    !all_finished && !expired
}

/// A process is first asked to end and given time, then killed with its group and given time again; it is
/// looked at once more before it is given up. One that ends in its time is left alone.
pub proof fn force_follows_the_request(stopped: bool)
    ensures
        TerminationStep::AskGroup.after(stopped, false) is AwaitRequest,
        TerminationStep::AskGroup.after(stopped, true) is AwaitRequest,
        TerminationStep::AwaitRequest.after(stopped, true) is KillGroup,
        TerminationStep::AwaitRequest.after(true, false) is Finished,
        TerminationStep::AwaitRequest.after(false, false) is AwaitRequest,
        TerminationStep::KillGroup.after(stopped, false) is KillProcess,
        TerminationStep::KillGroup.after(stopped, true) is KillProcess,
        TerminationStep::KillProcess.after(stopped, false) is AwaitForce,
        TerminationStep::KillProcess.after(stopped, true) is AwaitForce,
        TerminationStep::AwaitForce.after(stopped, true) is LastLook,
        TerminationStep::AwaitForce.after(true, false) is Finished,
        TerminationStep::AwaitForce.after(false, false) is AwaitForce,
        TerminationStep::LastLook.after(stopped, false) is Finished,
        TerminationStep::LastLook.after(stopped, true) is Finished,
{
}

}
