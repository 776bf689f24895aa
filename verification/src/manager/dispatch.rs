//! What running a job means for each type of unit.

use vstd::prelude::*;

use crate::event::source::SourceId;
use crate::job::JobKind;
use crate::manager::records::tracked_pid;
use crate::manager::{lemma_views_insert, Manager};
use crate::service::RecordView;
use crate::text;
use crate::unit::{LoadedUnit, UnitState};

verus! {

/// Why a job cannot be run.
#[derive(Debug, Clone, Copy, PartialEq, Eq, Structural)]
pub enum JobError {
    /// The unit is not loaded.
    NotLoaded,
    /// There is no autofs to mount.
    NoAutofs,
    /// Units of this type are not reloaded.
    NoReload,
    /// An isolate job is a whole transaction.
    NeedsTransaction,
}

impl JobError {
    /// The message about a unit.
    pub open spec fn text(self, name: Seq<char>) -> Seq<char> {
        match self {
            JobError::NotLoaded => "unit '"@ + name + "' not in registry"@,
            JobError::NoAutofs => "automount unit '"@ + name + "' cannot start without an autofs mount"@,
            JobError::NoReload => "unit '"@ + name + "' does not support reload"@,
            JobError::NeedsTransaction => "isolate jobs require transaction context"@,
        }
    }

    /// The message about a unit.
    pub fn message(self, name: &str) -> (r: String)
        ensures
            r@ == self.text(name@),
    {
        let (head, tail) = match self {
            JobError::NotLoaded => ("unit '", "' not in registry"),
            JobError::NoAutofs => ("automount unit '", "' cannot start without an autofs mount"),
            JobError::NoReload => ("unit '", "' does not support reload"),
            JobError::NeedsTransaction => return "isolate jobs require transaction context".to_owned(),
        };
        let mut r = head.to_owned();
        r.push_str(name);
        r.push_str(tail);
        r
    }
}

/// What is left to do for a job.
#[derive(Debug, Clone, Copy, PartialEq, Eq, Structural)]
pub enum JobAction {
    /// Nothing.
    Settled,
    /// Stop the unit and start it again.
    Restart,
    StartService,
    StopService,
    ReloadService,
    OpenSocket,
    CloseSocket,
    ArmTimer,
    ActivateMount,
    DeactivateMount,
    ActivateSwap,
    DeactivateSwap,
    WatchPath,
    /// Stop watching through this source.
    UnwatchPath(SourceId),
}

/// What is left to do to start a unit.
pub open spec fn start_action(loaded: LoadedUnit, state: UnitState) -> Result<JobAction, JobError> {
    match loaded {
        LoadedUnit::Service(_) => Ok(JobAction::StartService),
        LoadedUnit::Socket(_) => if state == UnitState::Inactive || state == UnitState::Failed {
            Ok(JobAction::OpenSocket)
        } else {
            Ok(JobAction::Settled)
        },
        LoadedUnit::Timer(_) => Ok(JobAction::ArmTimer),
        LoadedUnit::Mount(_) => Ok(JobAction::ActivateMount),
        LoadedUnit::Swap(_) => Ok(JobAction::ActivateSwap),
        LoadedUnit::Path(_) => Ok(JobAction::WatchPath),
        LoadedUnit::Automount(_) => Err(JobError::NoAutofs),
        LoadedUnit::Target(_) | LoadedUnit::Slice(_) | LoadedUnit::Scope(_) => Ok(JobAction::Settled),
    }
}

/// What is left to do to stop a unit. A socket is open, or a path watched,
/// where the manager has a record of it.
pub open spec fn stop_action(loaded: LoadedUnit, open_socket: bool, path_source: Option<SourceId>) -> JobAction {
    match loaded {
        LoadedUnit::Service(_) => JobAction::StopService,
        LoadedUnit::Socket(_) => if open_socket {
            JobAction::CloseSocket
        } else {
            JobAction::Settled
        },
        LoadedUnit::Mount(_) => JobAction::DeactivateMount,
        LoadedUnit::Swap(_) => JobAction::DeactivateSwap,
        LoadedUnit::Path(_) => match path_source {
            Some(source) => JobAction::UnwatchPath(source),
            None => JobAction::Settled,
        },
        _ => JobAction::Settled,
    }
}

/// The state that a job itself gives a unit: a target is on its way up, a
/// slice or a scope is up, and a unit with nothing to take down is down.
pub open spec fn state_after(kind: JobKind, loaded: LoadedUnit, state: UnitState, open_socket: bool, path_source: Option<SourceId>) -> UnitState {
    match kind {
        JobKind::Start => match loaded {
            LoadedUnit::Target(_) => UnitState::Activating,
            LoadedUnit::Slice(_) | LoadedUnit::Scope(_) => UnitState::Active,
            _ => state,
        },
        JobKind::Stop => if stop_action(loaded, open_socket, path_source) == JobAction::Settled {
            UnitState::Inactive
        } else {
            state
        },
        _ => state,
    }
}

/// The entry of a map, if there is one.
pub open spec fn entry<V>(map: Map<Seq<char>, V>, name: Seq<char>) -> Option<V> {
    if map.dom().contains(name) {
        Some(map[name])
    } else {
        None
    }
}

/// What is left to do for a job.
pub open spec fn job_plan(m: Manager, kind: JobKind, name: Seq<char>) -> Result<JobAction, JobError> {
    match kind {
        JobKind::Nop => Ok(JobAction::Settled),
        JobKind::Restart => Ok(JobAction::Restart),
        JobKind::Isolate => Err(JobError::NeedsTransaction),
        _ => if m.records().dom().contains(name) {
            let r = m.records()[name];
            match kind {
                JobKind::Start => start_action(r.loaded, r.state),
                JobKind::Stop => Ok(
                    stop_action(
                        r.loaded,
                        m.socket_records@.dom().contains(name),
                        entry(m.path_sources@, name),
                    ),
                ),
                _ => if r.loaded is Service {
                    Ok(JobAction::ReloadService)
                } else {
                    Err(JobError::NoReload)
                },
            }
        } else {
            Err(JobError::NotLoaded)
        },
    }
}

/// What a job itself makes of the unit registry.
pub open spec fn records_after(m: Manager, kind: JobKind, name: Seq<char>) -> Map<Seq<char>, RecordView> {
    let units = m.records();
    if units.dom().contains(name) {
        let r = units[name];
        units.insert(
            name,
            RecordView {
                state: state_after(
                    kind,
                    r.loaded,
                    r.state,
                    m.socket_records@.dom().contains(name),
                    entry(m.path_sources@, name),
                ),
                ..r
            },
        )
    } else {
        units
    }
}

/// What is left to do to start a unit, and the state that the start itself
/// gives it.
fn start_step(loaded: &LoadedUnit, state: UnitState) -> (r: Result<(JobAction, UnitState), JobError>)
    ensures
        match r {
            Ok((action, after)) => start_action(*loaded, state) == Ok::<JobAction, JobError>(action) && after
                == state_after(JobKind::Start, *loaded, state, false, None),
            Err(error) => start_action(*loaded, state) == Err::<JobAction, JobError>(error) && state == state_after(
                JobKind::Start,
                *loaded,
                state,
                false,
                None,
            ),
        },
{
    match loaded {
        LoadedUnit::Service(_) => Ok((JobAction::StartService, state)),
        LoadedUnit::Socket(_) => if state == UnitState::Inactive || state == UnitState::Failed {
            Ok((JobAction::OpenSocket, state))
        } else {
            Ok((JobAction::Settled, state))
        },
        LoadedUnit::Timer(_) => Ok((JobAction::ArmTimer, state)),
        LoadedUnit::Mount(_) => Ok((JobAction::ActivateMount, state)),
        LoadedUnit::Swap(_) => Ok((JobAction::ActivateSwap, state)),
        LoadedUnit::Path(_) => Ok((JobAction::WatchPath, state)),
        LoadedUnit::Automount(_) => Err(JobError::NoAutofs),
        LoadedUnit::Target(_) => Ok((JobAction::Settled, UnitState::Activating)),
        LoadedUnit::Slice(_) | LoadedUnit::Scope(_) => Ok((JobAction::Settled, UnitState::Active)),
    }
}

/// What is left to do to stop a unit.
fn stop_step(loaded: &LoadedUnit, open_socket: bool, path_source: Option<SourceId>) -> (r: JobAction)
    ensures
        r == stop_action(*loaded, open_socket, path_source),
{
    match loaded {
        LoadedUnit::Service(_) => JobAction::StopService,
        LoadedUnit::Socket(_) => if open_socket {
            JobAction::CloseSocket
        } else {
            JobAction::Settled
        },
        LoadedUnit::Mount(_) => JobAction::DeactivateMount,
        LoadedUnit::Swap(_) => JobAction::DeactivateSwap,
        LoadedUnit::Path(_) => match path_source {
            Some(source) => JobAction::UnwatchPath(source),
            None => JobAction::Settled,
        },
        _ => JobAction::Settled,
    }
}

/// How a restart goes on.
#[derive(Debug, Clone, Copy, PartialEq, Eq, Structural)]
pub enum RestartStep {
    /// Start the unit.
    Start,
    /// Stop the unit, then start it.
    StopThenStart,
    /// Stop the unit; it starts again once its processes are gone.
    StopThenWait,
    /// The unit is already on its way down.
    Wait,
}

/// How a restart of a unit goes on. Only a service that runs has to be waited
/// for.
pub open spec fn restart_plan(loaded: LoadedUnit, state: UnitState) -> RestartStep {
    if !(loaded is Service) {
        RestartStep::StopThenStart
    } else {
        match state {
            UnitState::Inactive | UnitState::Failed | UnitState::Maintenance => RestartStep::Start,
            UnitState::Deactivating => RestartStep::Wait,
            UnitState::Active | UnitState::Activating => RestartStep::StopThenWait,
        }
    }
}

impl Manager {
    /// Set the state of a unit, if it is loaded.
    pub(crate) fn set_state(&mut self, name: &str, state: UnitState)
        requires
            old(self).wf(),
        ensures
            final(self).wf(),
            *final(self) == (Manager { units: final(self).units, ..*old(self) }),
            final(self).units.keys() == old(self).units.keys(),
            final(self).records() == if old(self).records().dom().contains(name@) {
                old(self).records().insert(name@, RecordView { state, ..old(self).records()[name@] })
            } else {
                old(self).records()
            },
    {
        let ghost before = *self;
        if let Some(record) = self.units.get_mut(name) {
            record.state = state;
        }
        proof {
            if before.units@.dom().contains(name@) {
                lemma_views_insert(before.units@, name@, self.units@[name@]);
                assert(self.units@ =~= before.units@.insert(name@, self.units@[name@]));
            }
        }
    }

    /// Run a job as far as that is the manager's own doing. What is left to
    /// do, or why the job cannot be run.
    pub fn run_job(&mut self, kind: JobKind, name: &str) -> (r: Result<JobAction, JobError>)
        requires
            old(self).wf(),
        ensures
            final(self).wf(),
            *final(self) == (Manager { units: final(self).units, ..*old(self) }),
            r == job_plan(*old(self), kind, name@),
            final(self).records() == records_after(*old(self), kind, name@),
    {
        let ghost before = *self;
        let ghost same = before.records();
        proof {
            if same.dom().contains(name@) {
                assert(same.insert(name@, RecordView { state: same[name@].state, ..same[name@] }) =~= same);
            }
        }
        if kind == JobKind::Nop {
            return Ok(JobAction::Settled);
        }
        if kind == JobKind::Restart {
            return Ok(JobAction::Restart);
        }
        if kind == JobKind::Isolate {
            return Err(JobError::NeedsTransaction);
        }
        let record = match self.units.get(name) {
            Some(record) => record,
            None => return Err(JobError::NotLoaded),
        };
        if kind == JobKind::Start {
            let (action, state) = match start_step(&record.loaded, record.state) {
                Ok(step) => step,
                Err(error) => return Err(error),
            };
            self.set_state(name, state);
            return Ok(action);
        }
        if kind == JobKind::Stop {
            let path_source = match self.path_sources.get(name) {
                Some(source) => Some(*source),
                None => None,
            };
            let action = stop_step(&record.loaded, self.socket_records.contains(name), path_source);
            if action == JobAction::Settled {
                self.set_state(name, UnitState::Inactive);
            }
            return Ok(action);
        }
        match &record.loaded {
            LoadedUnit::Service(_) => Ok(JobAction::ReloadService),
            _ => Err(JobError::NoReload),
        }
    }

    /// A path unit is watched through a source.
    pub fn path_watched(&mut self, name: &str, source: SourceId)
        requires
            old(self).wf(),
        ensures
            final(self).wf(),
            *final(self) == (Manager { path_sources: final(self).path_sources, ..*old(self) }),
            final(self).path_sources@ == old(self).path_sources@.insert(name@, source),
    {
        self.path_sources.insert(name.to_owned(), source);
    }

    /// A path unit is no longer known to be watched. It is down if its source
    /// was removed.
    pub fn path_unwatched(&mut self, name: &str, removed: bool)
        requires
            old(self).wf(),
        ensures
            final(self).wf(),
            *final(self) == (Manager {
                path_sources: final(self).path_sources,
                units: final(self).units,
                ..*old(self)
            }),
            final(self).path_sources@ == old(self).path_sources@.remove(name@),
            final(self).records() == if removed && old(self).records().dom().contains(name@) {
                old(self).records().insert(
                    name@,
                    RecordView { state: UnitState::Inactive, ..old(self).records()[name@] },
                )
            } else {
                old(self).records()
            },
    {
        self.path_sources.remove(name);
        if removed {
            self.set_state(name, UnitState::Inactive);
        }
    }

    /// Begin to restart a loaded unit. A service that runs is remembered until
    /// it is down.
    pub fn restart_unit(&mut self, name: &str) -> (r: Result<RestartStep, JobError>)
        requires
            old(self).wf(),
        ensures
            final(self).wf(),
            *final(self) == (Manager { restart_pending: final(self).restart_pending, ..*old(self) }),
            match r {
                Ok(step) => old(self).records().dom().contains(name@) && step == restart_plan(
                    old(self).records()[name@].loaded,
                    old(self).records()[name@].state,
                ),
                Err(error) => error == JobError::NotLoaded && !old(self).records().dom().contains(name@),
            },
            final(self).restart_pending@ == if r == Ok::<RestartStep, JobError>(RestartStep::StopThenWait) || r == Ok::<
                RestartStep,
                JobError,
            >(RestartStep::Wait) {
                old(self).restart_pending@.insert(name@, ())
            } else {
                old(self).restart_pending@
            },
    {
        let record = match self.units.get(name) {
            Some(record) => record,
            None => return Err(JobError::NotLoaded),
        };
        match &record.loaded {
            LoadedUnit::Service(_) => {},
            _ => return Ok(RestartStep::StopThenStart),
        }
        let step = match record.state {
            UnitState::Inactive | UnitState::Failed | UnitState::Maintenance => return Ok(RestartStep::Start),
            UnitState::Deactivating => RestartStep::Wait,
            UnitState::Active | UnitState::Activating => RestartStep::StopThenWait,
        };
        self.restart_pending.insert(name.to_owned(), ());
        Ok(step)
    }

    /// Go on with a restart after the stop. Whether to start the unit now: not
    /// while it has a process, whose exit will start it.
    pub fn restart_after_stop(&mut self, name: &str) -> (r: bool)
        requires
            old(self).wf(),
        ensures
            final(self).wf(),
            *final(self) == (Manager { restart_pending: final(self).restart_pending, ..*old(self) }),
            r == !(old(self).records().dom().contains(name@) && tracked_pid(old(self).records()[name@]) is Some),
            final(self).restart_pending@ == if r {
                old(self).restart_pending@.remove(name@)
            } else {
                old(self).restart_pending@
            },
    {
        let waiting = match self.units.get(name) {
            Some(record) => record.active_pid.is_some() || record.control_pid.is_some(),
            None => false,
        };
        if !waiting {
            self.restart_pending.remove(name);
        }
        !waiting
    }
}

/// What running a job comes to. Nothing is to be done for a job that takes its
/// unit nowhere; a restart is planned on its own; an isolate job needs its
/// transaction. Any other needs its unit, and only services reload.
pub proof fn law_what_running_a_job_comes_to(m: Manager, kind: JobKind, name: Seq<char>)
    ensures
        ({
            let plan = job_plan(m, kind, name);
            let there = m.records().dom().contains(name);
            let loaded = m.records()[name].loaded;
            &&& kind is Nop ==> plan == Ok::<JobAction, JobError>(JobAction::Settled)
            &&& kind is Restart ==> plan == Ok::<JobAction, JobError>(JobAction::Restart)
            &&& kind is Isolate ==> plan == Err::<JobAction, JobError>(JobError::NeedsTransaction)
            &&& (kind is Start || kind is Stop || kind is Reload) && !there ==> plan == Err::<JobAction, JobError>(JobError::NotLoaded)
            &&& kind is Reload && there && loaded is Service ==> plan == Ok::<JobAction, JobError>(JobAction::ReloadService)
            &&& kind is Reload && there && !(loaded is Service) ==> plan == Err::<JobAction, JobError>(JobError::NoReload)
            &&& kind is Stop && there ==> plan is Ok
            &&& kind is Start && there ==> (plan is Err <==> loaded is Automount)
        }),
{
}

/// What starts a unit, by its type: a service is started, a timer armed, a
/// mount or swap activated, a path watched, and a socket opened that is down or
/// failed. A target, slice or scope needs nothing. An automount cannot start.
pub proof fn law_what_starts_a_unit(m: Manager, name: Seq<char>)
    requires
        m.records().dom().contains(name),
    ensures
        ({
            let loaded = m.records()[name].loaded;
            let state = m.records()[name].state;
            let plan = job_plan(m, JobKind::Start, name);
            let down = state is Inactive || state is Failed;
            &&& plan == Ok::<JobAction, JobError>(JobAction::StartService) <==> loaded is Service
            &&& plan == Ok::<JobAction, JobError>(JobAction::ArmTimer) <==> loaded is Timer
            &&& plan == Ok::<JobAction, JobError>(JobAction::ActivateMount) <==> loaded is Mount
            &&& plan == Ok::<JobAction, JobError>(JobAction::ActivateSwap) <==> loaded is Swap
            &&& plan == Ok::<JobAction, JobError>(JobAction::WatchPath) <==> loaded is Path
            &&& plan == Ok::<JobAction, JobError>(JobAction::OpenSocket) <==> loaded is Socket && down
            &&& plan == Ok::<JobAction, JobError>(JobAction::Settled) <==> loaded is Target || loaded is Slice || loaded is Scope || (
            loaded is Socket && !down)
            &&& plan == Err::<JobAction, JobError>(JobError::NoAutofs) <==> loaded is Automount
        }),
{
}

/// What stops a unit, by its type: a service is stopped, a mount or swap
/// deactivated, a socket closed that is open, and a path no longer watched that
/// is watched. Anything else is down with that.
pub proof fn law_what_stops_a_unit(m: Manager, name: Seq<char>)
    requires
        m.records().dom().contains(name),
    ensures
        ({
            let r = m.records()[name];
            let loaded = r.loaded;
            let plan = job_plan(m, JobKind::Stop, name);
            let open = m.socket_records@.dom().contains(name);
            let watched = m.path_sources@.dom().contains(name);
            let needs_work = loaded is Service || loaded is Mount || loaded is Swap || (loaded is Socket && open) || (loaded is Path && watched);
            &&& plan == Ok::<JobAction, JobError>(JobAction::StopService) <==> loaded is Service
            &&& plan == Ok::<JobAction, JobError>(JobAction::DeactivateMount) <==> loaded is Mount
            &&& plan == Ok::<JobAction, JobError>(JobAction::DeactivateSwap) <==> loaded is Swap
            &&& plan == Ok::<JobAction, JobError>(JobAction::CloseSocket) <==> loaded is Socket && open
            &&& loaded is Path && watched ==> plan == Ok::<JobAction, JobError>(JobAction::UnwatchPath(m.path_sources@[name]))
            &&& plan == Ok::<JobAction, JobError>(JobAction::Settled) <==> !needs_work
            &&& !needs_work ==> records_after(m, JobKind::Stop, name)[name].state is Inactive
            &&& needs_work ==> records_after(m, JobKind::Stop, name)[name].state == r.state
        }),
{
}

/// Running a job changes the state of its own unit at most: a target that
/// starts is on its way, a slice or scope that starts is up. What takes work
/// keeps its state until the work is done.
pub proof fn law_what_running_a_job_changes(m: Manager, kind: JobKind, name: Seq<char>, other: Seq<char>)
    ensures
        ({
            let before = m.records();
            let after = records_after(m, kind, name);
            &&& after.dom() == before.dom()
            &&& other != name ==> after[other] == before[other]
            &&& before.dom().contains(name) ==> after[name] == (RecordView { state: after[name].state, ..before[name] })
            &&& kind is Start && before.dom().contains(name) ==> after[name].state == (if before[name].loaded is Target {
                UnitState::Activating
            } else if before[name].loaded is Slice || before[name].loaded is Scope {
                UnitState::Active
            } else {
                before[name].state
            })
            &&& !(kind is Start || kind is Stop) ==> after == before
        }),
{
    let before = m.records();
    let after = records_after(m, kind, name);
    assert(after.dom() =~= before.dom());
    if !(kind is Start || kind is Stop) {
        assert(after =~= before);
    }
}

/// How a unit restarts: a service that rests starts, one that is up stops
/// first, and one that is going down is waited for; any other unit stops and
/// starts.
pub proof fn law_how_a_unit_restarts(loaded: LoadedUnit, state: UnitState)
    ensures
        restart_plan(loaded, state) is StopThenStart <==> !(loaded is Service),
        restart_plan(loaded, state) is Start <==> loaded is Service && (state is Inactive || state is Failed || state is Maintenance),
        restart_plan(loaded, state) is Wait <==> loaded is Service && state is Deactivating,
        restart_plan(loaded, state) is StopThenWait <==> loaded is Service && (state is Active || state is Activating),
{
}

/// What is noted for a name is what is there for it, if anything.
pub proof fn law_what_is_noted_for_a_name<V>(map: Map<Seq<char>, V>, name: Seq<char>)
    ensures
        entry(map, name) is Some <==> map.dom().contains(name),
        map.dom().contains(name) ==> entry(map, name) == Some(map[name]),
{
}

/// What is said of a job that cannot be run.
pub proof fn law_what_is_said_of_a_job_that_cannot_be_run(name: Seq<char>)
    ensures
        JobError::NotLoaded.text(name) == "unit '"@ + name + "' not in registry"@,
        JobError::NoAutofs.text(name) == "automount unit '"@ + name + "' cannot start without an autofs mount"@,
        JobError::NoReload.text(name) == "unit '"@ + name + "' does not support reload"@,
        JobError::NeedsTransaction.text(name) == "isolate jobs require transaction context"@,
{
}

} // verus!
