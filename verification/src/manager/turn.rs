//! The order in which the manager does its work.

use vstd::prelude::*;

use crate::event::loop_::LoopResult;
use crate::manager::lifecycle::is_machine_transition;

verus! {

/// One thing the manager does in a turn of its loop.
#[derive(Debug, Clone, Copy, PartialEq, Eq, Structural)]
pub enum Work {
    /// Take over the jobs that timers and clients asked for, loading their
    /// units.
    TakeSharedJobs,
    /// Load the units that clients asked to be loaded.
    LoadUnits,
    SetProperties,
    ResetFailed,
    /// Announce new jobs before they run.
    AnnounceJobs,
    /// Reap the children that exited meanwhile.
    ReapChildren,
    /// Look for memory exhaustion, so that no exit caused by it is taken for
    /// an ordinary one.
    SyncOom,
    ApplyOom,
    ApplyExits,
    CleanCgroups,
    RetryPidFiles,
    ApplyTimeouts,
    ApplyNotifications,
    ApplyBusNames,
    ExpireWatchdogs,
    /// Run the next job that may run; says whether there was one.
    RunJob,
    ActivateTargets,
    CompleteJobs,
    /// Publish the units before the jobs that are done.
    PublishUnits,
    AnnounceDoneJobs,
    AnnounceStartup,
    Reload,
    /// See what clients asked of the manager itself; says what to end with.
    AskedOfManager,
    /// See whether nothing is left to do; says so.
    CheckIdle,
    /// Sleep until an event; says what the event loop came to.
    Poll,
    /// Take the exits that were seen meanwhile, in the same order as before.
    SyncOomAfterPoll,
    ApplyOomAfterPoll,
    ApplyExitsAfterPoll,
    CleanCgroupsAfterPoll,
    /// Stop everything before a transition of the machine; says what to end
    /// with if everything is down already.
    Shutdown,
    CheckIdleAfterPoll,
    /// Leave the loop.
    End(LoopResult),
}

/// What came of a piece of work, where that matters.
#[derive(Debug, Clone, Copy, PartialEq, Eq, Structural)]
pub enum Outcome {
    Done,
    /// There was a job to run, or there was none.
    Dispatched(bool),
    /// What to end with.
    EndWith(Option<LoopResult>),
    Idle(bool),
    Polled(LoopResult),
}

/// Where a turn stands.
#[derive(Debug, Clone, Copy, PartialEq, Eq, Structural)]
pub struct Turn {
    pub at: Work,
    /// Leave the loop when nothing is left to do.
    pub exit_when_idle: bool,
    /// A job ran in this turn.
    pub dispatched: bool,
    /// What the last sleep came to.
    pub polled: LoopResult,
}

/// What comes next. A turn that ran a job is followed by another at once:
/// the job may have made others runnable without any event.
pub open spec fn next_work(turn: Turn, outcome: Outcome) -> Work {
    match turn.at {
        Work::TakeSharedJobs => Work::LoadUnits,
        Work::LoadUnits => Work::SetProperties,
        Work::SetProperties => Work::ResetFailed,
        Work::ResetFailed => Work::AnnounceJobs,
        Work::AnnounceJobs => Work::ReapChildren,
        Work::ReapChildren => Work::SyncOom,
        Work::SyncOom => Work::ApplyOom,
        Work::ApplyOom => Work::ApplyExits,
        Work::ApplyExits => Work::CleanCgroups,
        Work::CleanCgroups => Work::RetryPidFiles,
        Work::RetryPidFiles => Work::ApplyTimeouts,
        Work::ApplyTimeouts => Work::ApplyNotifications,
        Work::ApplyNotifications => Work::ApplyBusNames,
        Work::ApplyBusNames => Work::ExpireWatchdogs,
        Work::ExpireWatchdogs => Work::RunJob,
        Work::RunJob => Work::ActivateTargets,
        Work::ActivateTargets => Work::CompleteJobs,
        Work::CompleteJobs => Work::PublishUnits,
        Work::PublishUnits => Work::AnnounceDoneJobs,
        Work::AnnounceDoneJobs => Work::AnnounceStartup,
        Work::AnnounceStartup => Work::Reload,
        Work::Reload => Work::AskedOfManager,
        Work::AskedOfManager => match outcome {
            Outcome::EndWith(Some(result)) => Work::End(result),
            _ => if turn.dispatched {
                Work::TakeSharedJobs
            } else if turn.exit_when_idle {
                Work::CheckIdle
            } else {
                Work::Poll
            },
        },
        Work::CheckIdle => if outcome == Outcome::Idle(true) {
            Work::End(LoopResult::Exit)
        } else {
            Work::Poll
        },
        Work::Poll => Work::SyncOomAfterPoll,
        Work::SyncOomAfterPoll => Work::ApplyOomAfterPoll,
        Work::ApplyOomAfterPoll => Work::ApplyExitsAfterPoll,
        Work::ApplyExitsAfterPoll => Work::CleanCgroupsAfterPoll,
        Work::CleanCgroupsAfterPoll => if is_machine_transition(turn.polled) {
            Work::Shutdown
        } else if turn.polled != LoopResult::Continue {
            Work::End(turn.polled)
        } else if turn.exit_when_idle {
            Work::CheckIdleAfterPoll
        } else {
            Work::TakeSharedJobs
        },
        Work::Shutdown => match outcome {
            Outcome::EndWith(Some(result)) => Work::End(result),
            _ => Work::TakeSharedJobs,
        },
        Work::CheckIdleAfterPoll => if outcome == Outcome::Idle(true) {
            Work::End(LoopResult::Exit)
        } else {
            Work::TakeSharedJobs
        },
        Work::End(result) => Work::End(result),
    }
}

/// The turn after a piece of work.
pub open spec fn advanced(turn: Turn, outcome: Outcome) -> Turn {
    Turn {
        at: next_work(turn, outcome),
        exit_when_idle: turn.exit_when_idle,
        dispatched: match (turn.at, outcome) {
            (Work::RunJob, Outcome::Dispatched(dispatched)) => dispatched,
            (Work::RunJob, _) => false,
            _ => turn.dispatched,
        },
        polled: match (turn.at, outcome) {
            (Work::Poll, Outcome::Polled(result)) => result,
            (Work::Poll, _) => LoopResult::Continue,
            _ => turn.polled,
        },
    }
}

impl Turn {
    /// The beginning of the loop.
    pub fn first(exit_when_idle: bool) -> (r: Self)
        ensures
            r == (Turn {
                at: Work::TakeSharedJobs,
                exit_when_idle,
                dispatched: false,
                polled: LoopResult::Continue,
            }),
    {
        Turn { at: Work::TakeSharedJobs, exit_when_idle, dispatched: false, polled: LoopResult::Continue }
    }

    /// Go on after a piece of work; what comes next.
    pub fn advance(&mut self, outcome: Outcome) -> (r: Work)
        ensures
            *final(self) == advanced(*old(self), outcome),
            r == next_work(*old(self), outcome),
    {
        let next = match self.at {
            Work::TakeSharedJobs => Work::LoadUnits,
            Work::LoadUnits => Work::SetProperties,
            Work::SetProperties => Work::ResetFailed,
            Work::ResetFailed => Work::AnnounceJobs,
            Work::AnnounceJobs => Work::ReapChildren,
            Work::ReapChildren => Work::SyncOom,
            Work::SyncOom => Work::ApplyOom,
            Work::ApplyOom => Work::ApplyExits,
            Work::ApplyExits => Work::CleanCgroups,
            Work::CleanCgroups => Work::RetryPidFiles,
            Work::RetryPidFiles => Work::ApplyTimeouts,
            Work::ApplyTimeouts => Work::ApplyNotifications,
            Work::ApplyNotifications => Work::ApplyBusNames,
            Work::ApplyBusNames => Work::ExpireWatchdogs,
            Work::ExpireWatchdogs => Work::RunJob,
            Work::RunJob => {
                self.dispatched = match outcome {
                    Outcome::Dispatched(dispatched) => dispatched,
                    _ => false,
                };
                Work::ActivateTargets
            },
            Work::ActivateTargets => Work::CompleteJobs,
            Work::CompleteJobs => Work::PublishUnits,
            Work::PublishUnits => Work::AnnounceDoneJobs,
            Work::AnnounceDoneJobs => Work::AnnounceStartup,
            Work::AnnounceStartup => Work::Reload,
            Work::Reload => Work::AskedOfManager,
            Work::AskedOfManager => match outcome {
                Outcome::EndWith(Some(result)) => Work::End(result),
                _ => if self.dispatched {
                    Work::TakeSharedJobs
                } else if self.exit_when_idle {
                    Work::CheckIdle
                } else {
                    Work::Poll
                },
            },
            Work::CheckIdle => match outcome {
                Outcome::Idle(true) => Work::End(LoopResult::Exit),
                _ => Work::Poll,
            },
            Work::Poll => {
                self.polled = match outcome {
                    Outcome::Polled(result) => result,
                    _ => LoopResult::Continue,
                };
                Work::SyncOomAfterPoll
            },
            Work::SyncOomAfterPoll => Work::ApplyOomAfterPoll,
            Work::ApplyOomAfterPoll => Work::ApplyExitsAfterPoll,
            Work::ApplyExitsAfterPoll => Work::CleanCgroupsAfterPoll,
            Work::CleanCgroupsAfterPoll => match self.polled {
                LoopResult::Reboot | LoopResult::Poweroff | LoopResult::Halt | LoopResult::Kexec => Work::Shutdown,
                LoopResult::Exit | LoopResult::Reexecute => Work::End(self.polled),
                LoopResult::Continue => if self.exit_when_idle {
                    Work::CheckIdleAfterPoll
                } else {
                    Work::TakeSharedJobs
                },
            },
            Work::Shutdown => match outcome {
                Outcome::EndWith(Some(result)) => Work::End(result),
                _ => Work::TakeSharedJobs,
            },
            Work::CheckIdleAfterPoll => match outcome {
                Outcome::Idle(true) => Work::End(LoopResult::Exit),
                _ => Work::TakeSharedJobs,
            },
            Work::End(result) => Work::End(result),
        };
        self.at = next;
        next
    }
}

/// Exits are never applied without a look for memory exhaustion right before.
pub proof fn law_oom_is_known_before_exits(turn: Turn, outcome: Outcome)
    ensures
        next_work(turn, outcome) == Work::ApplyExits ==> turn.at == Work::ApplyOom,
        next_work(turn, outcome) == Work::ApplyOom ==> turn.at == Work::SyncOom,
        next_work(turn, outcome) == Work::ApplyExitsAfterPoll ==> turn.at == Work::ApplyOomAfterPoll,
        next_work(turn, outcome) == Work::ApplyOomAfterPoll ==> turn.at == Work::SyncOomAfterPoll,
{
}

/// The manager never sleeps in a turn in which it ran a job.
pub proof fn law_no_sleep_after_a_job(turn: Turn, outcome: Outcome)
    requires
        turn.dispatched,
        turn.at == Work::AskedOfManager,
    ensures
        next_work(turn, outcome) != Work::Poll,
        next_work(turn, outcome) != Work::CheckIdle,
{
}

/// A manager that is to stay ends only where it was asked to: never because it
/// is idle.
pub proof fn law_a_real_manager_does_not_leave_when_idle(turn: Turn, outcome: Outcome)
    requires
        !turn.exit_when_idle,
        turn.at != Work::CheckIdle,
        turn.at != Work::CheckIdleAfterPoll,
    ensures
        next_work(turn, outcome) != Work::CheckIdle,
        next_work(turn, outcome) != Work::CheckIdleAfterPoll,
        next_work(turn, outcome) == Work::End(LoopResult::Exit) ==> turn.at == Work::End(LoopResult::Exit) || outcome
            == Outcome::EndWith(Some(LoopResult::Exit)) || turn.polled == LoopResult::Exit,
{
}

/// What a turn does before it may sleep, in this order.
pub open spec fn before_sleep() -> Seq<Work> {
    seq![
        Work::TakeSharedJobs,
        Work::LoadUnits,
        Work::SetProperties,
        Work::ResetFailed,
        Work::AnnounceJobs,
        Work::ReapChildren,
        Work::SyncOom,
        Work::ApplyOom,
        Work::ApplyExits,
        Work::CleanCgroups,
        Work::RetryPidFiles,
        Work::ApplyTimeouts,
        Work::ApplyNotifications,
        Work::ApplyBusNames,
        Work::ExpireWatchdogs,
        Work::RunJob,
        Work::ActivateTargets,
        Work::CompleteJobs,
        Work::PublishUnits,
        Work::AnnounceDoneJobs,
        Work::AnnounceStartup,
        Work::Reload,
        Work::AskedOfManager,
    ]
}

/// What a turn does from its sleep on, in this order.
pub open spec fn after_sleep() -> Seq<Work> {
    seq![Work::Poll, Work::SyncOomAfterPoll, Work::ApplyOomAfterPoll, Work::ApplyExitsAfterPoll, Work::CleanCgroupsAfterPoll]
}

/// A turn does its work in order, whatever comes of each piece.
pub proof fn law_a_turn_does_its_work_in_order(turn: Turn, outcome: Outcome, i: int)
    ensures
        0 <= i < before_sleep().len() - 1 && turn.at == before_sleep()[i] ==> next_work(turn, outcome) == before_sleep()[i + 1],
        0 <= i < after_sleep().len() - 1 && turn.at == after_sleep()[i] ==> next_work(turn, outcome) == after_sleep()[i + 1],
{
}

/// Once its work is done, a turn ends the manager where that was decided; goes
/// round at once where it ran a job; and else sleeps, unless the manager leaves
/// when idle and is.
pub proof fn law_how_a_turn_goes_on(turn: Turn, outcome: Outcome)
    ensures
        turn.at is AskedOfManager ==> {
            let next = next_work(turn, outcome);
            &&& outcome is EndWith && outcome->EndWith_0 is Some ==> next == Work::End(outcome->EndWith_0->0)
            &&& !(outcome is EndWith && outcome->EndWith_0 is Some) && turn.dispatched ==> next is TakeSharedJobs
            &&& !(outcome is EndWith && outcome->EndWith_0 is Some) && !turn.dispatched && turn.exit_when_idle ==> next is CheckIdle
            &&& !(outcome is EndWith && outcome->EndWith_0 is Some) && !turn.dispatched && !turn.exit_when_idle ==> next is Poll
        },
        turn.at is CheckIdle ==> next_work(turn, outcome) == (if outcome == Outcome::Idle(true) {
            Work::End(LoopResult::Exit)
        } else {
            Work::Poll
        }),
        turn.at is CheckIdleAfterPoll ==> next_work(turn, outcome) == (if outcome == Outcome::Idle(true) {
            Work::End(LoopResult::Exit)
        } else {
            Work::TakeSharedJobs
        }),
        turn.at is End ==> next_work(turn, outcome) == turn.at,
{
}

/// What a sleep came to: a transition of the machine first shuts down; any other
/// result ends the manager; else the next turn begins, unless the manager
/// leaves when idle.
pub proof fn law_what_follows_a_sleep(turn: Turn, outcome: Outcome)
    ensures
        turn.at is CleanCgroupsAfterPoll ==> {
            let next = next_work(turn, outcome);
            let p = turn.polled;
            &&& p is Reboot || p is Poweroff || p is Halt || p is Kexec ==> next is Shutdown
            &&& p is Continue && turn.exit_when_idle ==> next is CheckIdleAfterPoll
            &&& p is Continue && !turn.exit_when_idle ==> next is TakeSharedJobs
            &&& !(p is Continue || p is Reboot || p is Poweroff || p is Halt || p is Kexec) ==> next == Work::End(p)
        },
        turn.at is Shutdown ==> next_work(turn, outcome) == (if outcome is EndWith && outcome->EndWith_0 is Some {
            Work::End(outcome->EndWith_0->0)
        } else {
            Work::TakeSharedJobs
        }),
        turn.at is Poll && outcome is Polled ==> advanced(turn, outcome).polled == outcome->Polled_0,
        turn.at is RunJob && outcome is Dispatched ==> advanced(turn, outcome).dispatched == outcome->Dispatched_0,
        !(turn.at is Poll) ==> advanced(turn, outcome).polled == turn.polled,
        !(turn.at is RunJob) ==> advanced(turn, outcome).dispatched == turn.dispatched,
        advanced(turn, outcome).exit_when_idle == turn.exit_when_idle,
        advanced(turn, outcome).at == next_work(turn, outcome),
{
}

} // verus!
