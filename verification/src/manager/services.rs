//! Starting and stopping services.

use vstd::prelude::*;

use crate::event::source::SourceId;
use crate::kill_context::{policy_of, KillOperation, KillPolicy};
use crate::manager::dispatch::entry;
use crate::manager::records::{
    effective_notify_access, forking_pid_file_pending, notify_access_of, pid_file_pending, service_of, stop_timeout, stop_timeout_for_record, tracked_pid,
    watchdog_at_rest, NS_PER_SEC,
};
use crate::manager::{lemma_views_insert, Manager};
use crate::service::RecordView;
use crate::text;
use crate::unit::{LoadedUnit, NotifyAccess, UnitState};

verus! {

/// The service that a socket starts: the one it names, else the one named like
/// the socket.
pub open spec fn triggered_service(socket: Seq<char>, service: Seq<char>) -> Seq<char> {
    if service.len() > 0 {
        service
    } else if ".socket"@.is_suffix_of(socket) {
        socket.take(socket.len() - ".socket"@.len()) + ".service"@
    } else {
        socket + ".service"@
    }
}

/// The service that a socket starts.
pub fn triggered_service_name(socket: &str, service: &str) -> (r: String)
    ensures
        r@ == triggered_service(socket@, service@),
{
    if !service.is_empty() {
        return service.to_owned();
    }
    let chars = text::chars_of(socket);
    let mut r = if text::ends_with(socket, ".socket") {
        proof {
            reveal_strlit(".socket");
        }
        text::substring(chars.as_slice(), 0, chars.len() - 7)
    } else {
        socket.to_owned()
    };
    assert(".socket"@.is_suffix_of(socket@) ==> r@ =~= socket@.take(socket@.len() - ".socket"@.len()));
    r.push_str(".service");
    r
}

/// Whether a loaded socket unit starts `service`.
pub open spec fn triggers(units: Map<Seq<char>, RecordView>, socket: Seq<char>, service: Seq<char>) -> bool {
    units.dom().contains(socket) && match units[socket].loaded {
        LoadedUnit::Socket(unit) => triggered_service(socket, unit.specific.service@) == service,
        _ => false,
    }
}

/// The descriptors of the first `n` open sockets that start `service`.
pub open spec fn fds_of_first(m: Manager, service: Seq<char>, n: int) -> Seq<i32>
    decreases n,
{
    if n <= 0 {
        Seq::empty()
    } else {
        let socket = m.socket_records.keys()[n - 1];
        if triggers(m.records(), socket, service) {
            fds_of_first(m, service, n - 1) + m.socket_records@[socket].listen_fds@
        } else {
            fds_of_first(m, service, n - 1)
        }
    }
}

/// The event sources of the first `n` open sockets that start `service`.
pub open spec fn sources_of_first(m: Manager, service: Seq<char>, n: int) -> Seq<SourceId>
    decreases n,
{
    if n <= 0 {
        Seq::empty()
    } else {
        let socket = m.socket_records.keys()[n - 1];
        if triggers(m.records(), socket, service) {
            sources_of_first(m, service, n - 1) + m.socket_records@[socket].source_ids@
        } else {
            sources_of_first(m, service, n - 1)
        }
    }
}

/// The descriptors that a service inherits: those of every open socket that
/// starts it.
pub open spec fn inherited_fds(m: Manager, service: Seq<char>) -> Seq<i32> {
    fds_of_first(m, service, m.socket_records.keys().len() as int)
}

/// The event sources of every open socket that starts a service.
pub open spec fn trigger_sources(m: Manager, service: Seq<char>) -> Seq<SourceId> {
    sources_of_first(m, service, m.socket_records.keys().len() as int)
}

/// Whether a start has anything to do: the unit is loaded, and down or failed.
pub open spec fn to_be_started(units: Map<Seq<char>, RecordView>, name: Seq<char>) -> bool {
    units.dom().contains(name) && (units[name].state == UnitState::Inactive || units[name].state == UnitState::Failed)
}

/// How a start begins.
#[derive(Debug)]
pub struct StartPlan {
    /// The timer of an earlier start, to be removed.
    pub stale_timeout: Option<SourceId>,
    /// The descriptors that the service inherits.
    pub listen_fds: Vec<i32>,
}

/// What came of realizing the control group of a service.
#[derive(Debug, Clone, Copy, PartialEq, Eq, Structural)]
pub enum CgroupOutcome {
    Realized,
    /// It could not be created.
    NotCreated,
    /// Its limits could not be set.
    NotControlled,
}

/// How a start goes on after the control group.
#[derive(Debug, Clone, Copy, PartialEq, Eq, Structural)]
pub enum CgroupUse {
    /// In the control group.
    Inside,
    /// Without one.
    Without,
    /// Not at all: the unit asked for limits that cannot be had.
    Refused,
}

/// Whether a unit asks for limits.
pub open spec fn asks_for_limits(units: Map<Seq<char>, RecordView>, name: Seq<char>) -> bool {
    units.dom().contains(name) && match service_of(units[name].loaded) {
        Some(section) => section.resource_control_configured,
        None => false,
    }
}

/// A record whose service could not get its resources.
pub open spec fn without_resources(r: RecordView) -> RecordView {
    RecordView { state: UnitState::Failed, service_result: "resources"@, ..r }
}

/// A record at the moment before its service is spawned.
pub open spec fn about_to_run(r: RecordView, monotonic: Option<i64>, realtime: Option<i64>) -> RecordView {
    let started: i64 = match monotonic {
        Some(ns) => ns,
        None => 0,
    };
    watchdog_at_rest(
        RecordView {
            status_text: None,
            status_errno: None,
            last_start_ns: started,
            exec_main_start_monotonic_ns: Some(started),
            exec_main_start_realtime_ns: realtime,
            exec_main_exit_realtime_ns: None,
            exec_main_exit_monotonic_ns: None,
            ..r
        },
    )
}

/// How long a service may take to start.
pub open spec fn start_timeout(loaded: LoadedUnit, default_secs: u64) -> u128 {
    match service_of(loaded) {
        Some(section) => match section.timeout_start_sec {
            Some(ns) => ns,
            None => (default_secs * NS_PER_SEC) as u128,
        },
        None => (default_secs * NS_PER_SEC) as u128,
    }
}

/// The process that a spawned service is known by, and who may notify for it.
#[derive(Debug, Clone, Copy)]
pub struct Spawned {
    /// The main process, else the control process.
    pub pid: Option<i32>,
    /// The main process to expect notifications for.
    pub notifies: Option<(i32, NotifyAccess)>,
}

/// The process that a spawned service is known by.
pub open spec fn spawned(units: Map<Seq<char>, RecordView>, name: Seq<char>) -> Spawned {
    if units.dom().contains(name) {
        Spawned {
            pid: tracked_pid(units[name]),
            notifies: match (units[name].active_pid, service_of(units[name].loaded)) {
                (Some(pid), Some(section)) => match notify_access_of(section) {
                    Some(access) => Some((pid, access)),
                    None => None,
                },
                _ => None,
            },
        }
    } else {
        Spawned { pid: None, notifies: None }
    }
}

/// A record whose service is up and must feed its watchdog from now on.
pub open spec fn watched_from(r: RecordView, now: Option<i64>, now_realtime: Option<i64>) -> RecordView {
    match service_of(r.loaded) {
        Some(section) if r.state == UnitState::Active && section.watchdog_sec is Some => RecordView {
            watchdog_timestamp_ns: now,
            watchdog_timestamp_realtime_ns: now_realtime,
            ..r
        },
        _ => r,
    }
}

/// How a stop begins.
#[derive(Debug, Clone, Copy)]
pub struct StopPlan {
    /// Timers to be removed.
    pub stale_start_timeout: Option<SourceId>,
    pub stale_stop_timeout: Option<SourceId>,
    /// The process before the stop.
    pub old_pid: Option<i32>,
    /// How the service is signalled, and its main and control process.
    pub kill: Option<(KillPolicy, Option<i32>, Option<i32>)>,
    pub operation: KillOperation,
}

/// How a service is signalled, and its processes. Nothing for other units.
pub open spec fn kill_policy(units: Map<Seq<char>, RecordView>, name: Seq<char>) -> Option<
    (KillPolicy, Option<i32>, Option<i32>),
> {
    if units.dom().contains(name) {
        match service_of(units[name].loaded) {
            Some(section) => Some((policy_of(section), units[name].active_pid, units[name].control_pid)),
            None => None,
        }
    } else {
        None
    }
}

/// How a stop goes on once the service was told to stop.
#[derive(Debug, Clone, Copy, PartialEq, Eq, Structural)]
pub enum StopStep {
    /// The service has no process any more; the process it had is forgotten.
    Gone,
    /// Signal the rest of the control group and wait at most this long.
    Await(u128),
    /// Signal the rest of the control group; nothing is waited for.
    SignalOnly,
}

/// Whether a unit has no process, or is not loaded.
pub open spec fn is_gone(units: Map<Seq<char>, RecordView>, name: Seq<char>) -> bool {
    units.dom().contains(name) ==> tracked_pid(units[name]) is None
}

/// How a stop goes on. Only a service that had a process before is waited for.
pub open spec fn stop_step(units: Map<Seq<char>, RecordView>, name: Seq<char>, old_pid: Option<i32>, default_secs: u64) -> StopStep {
    if is_gone(units, name) {
        StopStep::Gone
    } else if old_pid is Some {
        StopStep::Await(stop_timeout(units[name].loaded, default_secs))
    } else {
        StopStep::SignalOnly
    }
}

/// The registry with one record put through `f`, if it is there.
pub open spec fn with_record(units: Map<Seq<char>, RecordView>, name: Seq<char>, f: spec_fn(RecordView) -> RecordView) -> Map<
    Seq<char>,
    RecordView,
> {
    if units.dom().contains(name) {
        units.insert(name, f(units[name]))
    } else {
        units
    }
}

fn append_all<T: Copy>(to: &mut Vec<T>, from: &Vec<T>)
    ensures
        final(to)@ == old(to)@ + from@,
{
    let ghost before = to@;
    let mut i: usize = 0;
    while i < from.len()
        invariant
            i <= from@.len(),
            to@ == before + from@.take(i as int),
        decreases from@.len() - i,
    {
        to.push(from[i]);
        assert(to@ =~= before + from@.take(i + 1));
        i += 1;
    }
    assert(from@.take(i as int) =~= from@);
}

impl Manager {
    fn socket_triggers(&self, socket: &str, service: &str) -> (r: bool)
        requires
            self.wf(),
        ensures
            r == triggers(self.records(), socket@, service@),
    {
        match self.units.get(socket) {
            Some(record) => match &record.loaded {
                LoadedUnit::Socket(unit) => {
                    let triggered = triggered_service_name(socket, unit.specific.service.as_str());
                    text::same(triggered.as_str(), service)
                },
                _ => false,
            },
            None => false,
        }
    }

    /// The descriptors that a service inherits.
    pub fn collect_listen_fds_for(&self, service: &str) -> (r: Vec<i32>)
        requires
            self.wf(),
        ensures
            r@ == inherited_fds(*self, service@),
    {
        let mut fds: Vec<i32> = Vec::new();
        let mut i: usize = 0;
        while i < self.socket_records.len()
            invariant
                self.wf(),
                i <= self.socket_records.keys().len(),
                fds@ == fds_of_first(*self, service@, i as int),
            decreases self.socket_records.keys().len() - i,
        {
            if self.socket_triggers(self.socket_records.key_at(i).as_str(), service) {
                append_all(&mut fds, &self.socket_records.value_at(i).listen_fds);
            }
            i += 1;
        }
        fds
    }

    /// The event sources of every open socket that starts a service: while it
    /// runs they are off.
    pub fn trigger_socket_sources(&self, service: &str) -> (r: Vec<SourceId>)
        requires
            self.wf(),
        ensures
            r@ == trigger_sources(*self, service@),
    {
        let mut sources: Vec<SourceId> = Vec::new();
        let mut i: usize = 0;
        while i < self.socket_records.len()
            invariant
                self.wf(),
                i <= self.socket_records.keys().len(),
                sources@ == sources_of_first(*self, service@, i as int),
            decreases self.socket_records.keys().len() - i,
        {
            if self.socket_triggers(self.socket_records.key_at(i).as_str(), service) {
                append_all(&mut sources, &self.socket_records.value_at(i).source_ids);
            }
            i += 1;
        }
        sources
    }

    /// The timer of a service that no longer has to start in time.
    pub fn cancel_start_timeout(&mut self, name: &str) -> (r: Option<SourceId>)
        requires
            old(self).wf(),
        ensures
            final(self).wf(),
            *final(self) == (Manager { start_timeouts: final(self).start_timeouts, ..*old(self) }),
            r == entry(old(self).start_timeouts@, name@),
            final(self).start_timeouts@ == old(self).start_timeouts@.remove(name@),
    {
        self.start_timeouts.remove(name)
    }

    /// The timer of a service that no longer has to stop in time.
    pub fn cancel_stop_timeout(&mut self, name: &str) -> (r: Option<SourceId>)
        requires
            old(self).wf(),
        ensures
            final(self).wf(),
            *final(self) == (Manager { stop_timeouts: final(self).stop_timeouts, ..*old(self) }),
            r == entry(old(self).stop_timeouts@, name@),
            final(self).stop_timeouts@ == old(self).stop_timeouts@.remove(name@),
    {
        self.stop_timeouts.remove(name)
    }

    /// Begin to start a service that is down or failed; nothing for another
    /// unit. The service counts as on its way up before its control group is
    /// realized, so that the group is not taken for a stale one.
    pub fn start_service(&mut self, name: &str) -> (r: Option<StartPlan>)
        requires
            old(self).wf(),
        ensures
            final(self).wf(),
            match r {
                Some(plan) => {
                    &&& to_be_started(old(self).records(), name@)
                    &&& plan.stale_timeout == entry(old(self).start_timeouts@, name@)
                    &&& plan.listen_fds@ == inherited_fds(*old(self), name@)
                    &&& *final(self) == (Manager {
                        units: final(self).units,
                        start_timeouts: final(self).start_timeouts,
                        ..*old(self)
                    })
                    &&& final(self).start_timeouts@ == old(self).start_timeouts@.remove(name@)
                    &&& final(self).records() == old(self).records().insert(
                        name@,
                        RecordView { state: UnitState::Activating, ..old(self).records()[name@] },
                    )
                },
                None => !to_be_started(old(self).records(), name@) && *final(self) == *old(self),
            },
    {
        let state = match self.units.get(name) {
            Some(record) => record.state,
            None => return None,
        };
        if state != UnitState::Inactive && state != UnitState::Failed {
            return None;
        }
        let listen_fds = self.collect_listen_fds_for(name);
        let stale_timeout = self.cancel_start_timeout(name);
        self.set_state(name, UnitState::Activating);
        Some(StartPlan { stale_timeout, listen_fds })
    }

    /// Whether a unit asks for limits.
    pub fn resource_control_requested(&self, name: &str) -> (r: bool)
        requires
            self.wf(),
        ensures
            r == asks_for_limits(self.records(), name@),
    {
        match self.units.get(name) {
            Some(record) => match &record.loaded {
                LoadedUnit::Service(service) => service.specific.resource_control_configured,
                _ => false,
            },
            None => false,
        }
    }

    fn fail_for_resources(&mut self, name: &str)
        requires
            old(self).wf(),
        ensures
            final(self).wf(),
            *final(self) == (Manager { units: final(self).units, ..*old(self) }),
            final(self).records() == with_record(old(self).records(), name@, |r: RecordView| without_resources(r)),
    {
        let ghost before = *self;
        if let Some(record) = self.units.get_mut(name) {
            record.state = UnitState::Failed;
            record.service_result = "resources".to_owned();
        }
        proof {
            if before.units@.dom().contains(name@) {
                lemma_views_insert(before.units@, name@, self.units@[name@]);
            }
        }
    }

    /// Take what came of realizing the control group of a service. A unit that
    /// asks for limits fails where they cannot be had.
    pub fn prepare_service_cgroup(&mut self, name: &str, outcome: CgroupOutcome) -> (r: CgroupUse)
        requires
            old(self).wf(),
        ensures
            final(self).wf(),
            *final(self) == (Manager { units: final(self).units, ..*old(self) }),
            r == if outcome == CgroupOutcome::Realized {
                CgroupUse::Inside
            } else if asks_for_limits(old(self).records(), name@) {
                CgroupUse::Refused
            } else {
                CgroupUse::Without
            },
            final(self).records() == if r == CgroupUse::Refused {
                with_record(old(self).records(), name@, |r: RecordView| without_resources(r))
            } else {
                old(self).records()
            },
    {
        if outcome == CgroupOutcome::Realized {
            return CgroupUse::Inside;
        }
        if !self.resource_control_requested(name) {
            return CgroupUse::Without;
        }
        self.fail_for_resources(name);
        CgroupUse::Refused
    }

    /// A spawned process could not be moved into its control group. Whether
    /// the start fails: only where the unit asks for limits.
    pub fn attach_failed(&mut self, name: &str) -> (r: bool)
        requires
            old(self).wf(),
        ensures
            final(self).wf(),
            *final(self) == (Manager { units: final(self).units, ..*old(self) }),
            r == asks_for_limits(old(self).records(), name@),
            final(self).records() == if r {
                with_record(old(self).records(), name@, |r: RecordView| without_resources(r))
            } else {
                old(self).records()
            },
    {
        let requested = self.resource_control_requested(name);
        if requested {
            self.fail_for_resources(name);
        }
        requested
    }

    /// Prepare the record of a service that is about to be spawned. Whether it
    /// may be: its run needs an identifier.
    pub fn begin_activation(
        &mut self,
        name: &str,
        monotonic: Option<i64>,
        realtime: Option<i64>,
        invocation_id: Option<[u8; 16]>,
    ) -> (r: bool)
        requires
            old(self).wf(),
        ensures
            final(self).wf(),
            *final(self) == (Manager { units: final(self).units, ..*old(self) }),
            r == (old(self).records().dom().contains(name@) && invocation_id is Some),
            final(self).records() == with_record(
                old(self).records(),
                name@,
                |r: RecordView|
                    RecordView {
                        invocation_id: if invocation_id is Some {
                            invocation_id
                        } else {
                            r.invocation_id
                        },
                        ..about_to_run(r, monotonic, realtime)
                    },
            ),
    {
        let ghost before = *self;
        let started: i64 = match monotonic {
            Some(ns) => ns,
            None => 0,
        };
        let mut known = false;
        if let Some(record) = self.units.get_mut(name) {
            record.status_text = None;
            record.status_errno = None;
            record.last_start_ns = started;
            record.exec_main_start_monotonic_ns = Some(started);
            record.exec_main_start_realtime_ns = realtime;
            record.exec_main_exit_realtime_ns = None;
            record.exec_main_exit_monotonic_ns = None;
            record.watchdog_timestamp_ns = None;
            record.watchdog_timestamp_realtime_ns = None;
            record.watchdog_triggered = false;
            if invocation_id.is_some() {
                record.invocation_id = invocation_id;
            }
            known = true;
        }
        proof {
            if before.units@.dom().contains(name@) {
                lemma_views_insert(before.units@, name@, self.units@[name@]);
            }
        }
        known && invocation_id.is_some()
    }

    /// The services whose main process is awaited in a file.
    pub fn pending_pid_files(&self) -> (r: Vec<String>)
        requires
            self.wf(),
        ensures
            text::views(r@) == self.units.keys().filter(|name: Seq<char>| pid_file_pending(self.records()[name])),
    {
        let ghost units = self.records();
        let ghost keys = self.units.keys();
        let ghost wanted = |name: Seq<char>| pid_file_pending(units[name]);
        let mut out: Vec<String> = Vec::new();
        let mut i: usize = 0;
        proof {
            assert(keys.take(0) =~= Seq::<Seq<char>>::empty());
            reveal_with_fuel(Seq::filter, 1);
            assert(text::views(out@) =~= keys.take(0).filter(wanted));
        }
        while i < self.units.len()
            invariant
                self.wf(),
                units == self.records(),
                keys == self.units.keys(),
                wanted == (|name: Seq<char>| pid_file_pending(units[name])),
                i <= keys.len(),
                text::views(out@) == keys.take(i as int).filter(wanted),
            decreases keys.len() - i,
        {
            let name = self.units.key_at(i);
            let ghost prior = out@;
            proof {
                assert(keys.take(i + 1) =~= keys.take(i as int).push(name@));
                keys.take(i as int).lemma_filter_push(name@, wanted);
            }
            if forking_pid_file_pending(self.units.value_at(i)) {
                out.push(name.clone());
                assert(text::views(out@) =~= text::views(prior).push(name@));
            }
            i += 1;
        }
        assert(keys.take(i as int) =~= keys);
        assert(wanted =~= |name: Seq<char>| pid_file_pending(self.records()[name]));
        out
    }

    /// The process that a spawned service is known by.
    pub fn spawned_process(&self, name: &str) -> (r: Spawned)
        requires
            self.wf(),
        ensures
            r == spawned(self.records(), name@),
    {
        let record = match self.units.get(name) {
            Some(record) => record,
            None => return Spawned { pid: None, notifies: None },
        };
        let pid = match record.active_pid {
            Some(pid) => Some(pid),
            None => record.control_pid,
        };
        let notifies = match (&record.loaded, record.active_pid) {
            (LoadedUnit::Service(service), Some(pid)) => match effective_notify_access(&service.specific) {
                Some(access) => Some((pid, access)),
                None => None,
            },
            _ => None,
        };
        Spawned { pid, notifies }
    }

    /// Take that a service was spawned. How long it may take to start, where
    /// it is not up yet; a service that is up must feed its watchdog.
    pub fn service_spawned(&mut self, name: &str, now: Option<i64>, now_realtime: Option<i64>) -> (r: Option<u128>)
        requires
            old(self).wf(),
        ensures
            final(self).wf(),
            *final(self) == (Manager { units: final(self).units, ..*old(self) }),
            r == if old(self).records().dom().contains(name@) && old(self).records()[name@].state
                == UnitState::Activating {
                Some(start_timeout(old(self).records()[name@].loaded, old(self).default_timeout_start_sec))
            } else {
                None
            },
            final(self).records() == with_record(
                old(self).records(),
                name@,
                |r: RecordView| watched_from(r, now, now_realtime),
            ),
    {
        let ghost before = *self;
        let default_timeout: u128 = self.default_timeout_start_sec as u128 * NS_PER_SEC;
        let mut timeout: Option<u128> = None;
        if let Some(record) = self.units.get_mut(name) {
            if record.state == UnitState::Activating {
                timeout = match &record.loaded {
                    LoadedUnit::Service(service) => match service.specific.timeout_start_sec {
                        Some(ns) => Some(ns),
                        None => Some(default_timeout),
                    },
                    _ => Some(default_timeout),
                };
            } else if record.state == UnitState::Active {
                let watched = match &record.loaded {
                    LoadedUnit::Service(service) => service.specific.watchdog_sec.is_some(),
                    _ => false,
                };
                if watched {
                    record.watchdog_timestamp_ns = now;
                    record.watchdog_timestamp_realtime_ns = now_realtime;
                }
            }
        }
        proof {
            if before.units@.dom().contains(name@) {
                lemma_views_insert(before.units@, name@, self.units@[name@]);
            }
        }
        timeout
    }

    /// The timer within which a service must start was armed.
    pub fn start_timeout_armed(&mut self, name: &str, source: SourceId)
        requires
            old(self).wf(),
        ensures
            final(self).wf(),
            *final(self) == (Manager { start_timeouts: final(self).start_timeouts, ..*old(self) }),
            final(self).start_timeouts@ == old(self).start_timeouts@.insert(name@, source),
    {
        self.start_timeouts.insert(name.to_owned(), source);
    }

    /// How a service is signalled, and its main and control process.
    pub fn service_kill_policy(&self, name: &str) -> (r: Option<(KillPolicy, Option<i32>, Option<i32>)>)
        requires
            self.wf(),
        ensures
            r == kill_policy(self.records(), name@),
    {
        match self.units.get(name) {
            Some(record) => match &record.loaded {
                LoadedUnit::Service(service) => Some(
                    (KillPolicy::from_service(&service.specific), record.active_pid, record.control_pid),
                ),
                _ => None,
            },
            None => None,
        }
    }

    fn rest_watchdog_of(&mut self, name: &str)
        requires
            old(self).wf(),
        ensures
            final(self).wf(),
            *final(self) == (Manager { units: final(self).units, ..*old(self) }),
            final(self).records() == with_record(old(self).records(), name@, |r: RecordView| watchdog_at_rest(r)),
    {
        let ghost before = *self;
        if let Some(record) = self.units.get_mut(name) {
            record.watchdog_timestamp_ns = None;
            record.watchdog_timestamp_realtime_ns = None;
            record.watchdog_triggered = false;
        }
        proof {
            if before.units@.dom().contains(name@) {
                lemma_views_insert(before.units@, name@, self.units@[name@]);
            }
        }
    }

    /// Begin to stop a service: its timers and its watchdog are off, and it is
    /// signalled as for a restart where one is pending.
    pub fn stop_service(&mut self, name: &str) -> (r: StopPlan)
        requires
            old(self).wf(),
        ensures
            final(self).wf(),
            *final(self) == (Manager {
                units: final(self).units,
                start_timeouts: final(self).start_timeouts,
                stop_timeouts: final(self).stop_timeouts,
                ..*old(self)
            }),
            final(self).start_timeouts@ == old(self).start_timeouts@.remove(name@),
            final(self).stop_timeouts@ == old(self).stop_timeouts@.remove(name@),
            final(self).records() == with_record(old(self).records(), name@, |r: RecordView| watchdog_at_rest(r)),
            r == (StopPlan {
                stale_start_timeout: entry(old(self).start_timeouts@, name@),
                stale_stop_timeout: entry(old(self).stop_timeouts@, name@),
                old_pid: if old(self).records().dom().contains(name@) {
                    tracked_pid(old(self).records()[name@])
                } else {
                    None
                },
                kill: kill_policy(old(self).records(), name@),
                operation: if old(self).restart_pending@.dom().contains(name@) {
                    KillOperation::Restart
                } else {
                    KillOperation::Terminate
                },
            }),
    {
        let stale_start_timeout = self.cancel_start_timeout(name);
        let stale_stop_timeout = self.cancel_stop_timeout(name);
        let old_pid = match self.units.get(name) {
            Some(record) => match record.active_pid {
                Some(pid) => Some(pid),
                None => record.control_pid,
            },
            None => None,
        };
        let kill = self.service_kill_policy(name);
        let operation = if self.restart_pending.contains(name) {
            KillOperation::Restart
        } else {
            KillOperation::Terminate
        };
        self.rest_watchdog_of(name);
        StopPlan { stale_start_timeout, stale_stop_timeout, old_pid, kill, operation }
    }

    /// Go on with a stop once the service was told to stop, where it had the
    /// process `old_pid` before.
    pub fn service_told_to_stop(&mut self, name: &str, old_pid: Option<i32>) -> (r: StopStep)
        requires
            old(self).wf(),
        ensures
            final(self).wf(),
            *final(self) == (Manager { units: final(self).units, ..*old(self) }),
            r == stop_step(old(self).records(), name@, old_pid, old(self).default_timeout_stop_sec),
            final(self).records() == if r == StopStep::Gone {
                with_record(old(self).records(), name@, |r: RecordView| watchdog_at_rest(r))
            } else {
                old(self).records()
            },
    {
        let waited = match self.units.get(name) {
            Some(record) => stop_timeout_for_record(record, self.default_timeout_stop_sec),
            None => None,
        };
        match waited {
            None => {
                self.rest_watchdog_of(name);
                StopStep::Gone
            },
            Some((_, timeout)) => if old_pid.is_some() {
                StopStep::Await(timeout)
            } else {
                StopStep::SignalOnly
            },
        }
    }
}

/// The service that a socket starts: the one that it names, else the one of
/// its own name.
pub proof fn law_a_socket_starts_its_service(base: Seq<char>, service: Seq<char>)
    ensures
        service.len() > 0 ==> triggered_service(base, service) == service,
        triggered_service(base + ".socket"@, Seq::empty()) == base + ".service"@,
        !".socket"@.is_suffix_of(base) ==> triggered_service(base, Seq::empty()) == base + ".service"@,
{
    let whole = base + ".socket"@;
    assert(whole.subrange(whole.len() - ".socket"@.len(), whole.len() as int) =~= ".socket"@);
    assert(".socket"@.is_suffix_of(whole));
    assert(whole.take(whole.len() - ".socket"@.len()) =~= base);
}

proof fn lemma_fds_of_first(m: Manager, service: Seq<char>, n: int, fd: i32, source: SourceId)
    requires
        0 <= n <= m.socket_records.keys().len(),
    ensures
        fds_of_first(m, service, n).contains(fd) <==> exists|k: int|
            0 <= k < n && triggers(m.records(), #[trigger] m.socket_records.keys()[k], service)
                && m.socket_records@[m.socket_records.keys()[k]].listen_fds@.contains(fd),
        sources_of_first(m, service, n).contains(source) <==> exists|k: int|
            0 <= k < n && triggers(m.records(), #[trigger] m.socket_records.keys()[k], service)
                && m.socket_records@[m.socket_records.keys()[k]].source_ids@.contains(source),
    decreases n,
{
    let keys = m.socket_records.keys();
    if n > 0 {
        lemma_fds_of_first(m, service, n - 1, fd, source);
        let socket = keys[n - 1];
        let fds = m.socket_records@[socket].listen_fds@;
        let ids = m.socket_records@[socket].source_ids@;
        if triggers(m.records(), socket, service) {
            lemma_added(fds_of_first(m, service, n - 1), fds, fd);
            lemma_added(sources_of_first(m, service, n - 1), ids, source);
        }
        if exists|k: int| 0 <= k < n - 1 && triggers(m.records(), #[trigger] keys[k], service) && m.socket_records@[keys[k]].listen_fds@.contains(fd) {
            let k = choose|k: int| 0 <= k < n - 1 && triggers(m.records(), #[trigger] keys[k], service) && m.socket_records@[keys[k]].listen_fds@.contains(fd);
            assert(triggers(m.records(), keys[k], service));
        }
        if exists|k: int| 0 <= k < n - 1 && triggers(m.records(), #[trigger] keys[k], service) && m.socket_records@[keys[k]].source_ids@.contains(source) {
            let k = choose|k: int| 0 <= k < n - 1 && triggers(m.records(), #[trigger] keys[k], service) && m.socket_records@[keys[k]].source_ids@.contains(source);
            assert(triggers(m.records(), keys[k], service));
        }
        if exists|k: int| 0 <= k < n && triggers(m.records(), #[trigger] keys[k], service) && m.socket_records@[keys[k]].listen_fds@.contains(fd) {
            let k = choose|k: int| 0 <= k < n && triggers(m.records(), #[trigger] keys[k], service) && m.socket_records@[keys[k]].listen_fds@.contains(fd);
            if k < n - 1 {
                assert(triggers(m.records(), keys[k], service));
            }
        }
        if exists|k: int| 0 <= k < n && triggers(m.records(), #[trigger] keys[k], service) && m.socket_records@[keys[k]].source_ids@.contains(source) {
            let k = choose|k: int| 0 <= k < n && triggers(m.records(), #[trigger] keys[k], service) && m.socket_records@[keys[k]].source_ids@.contains(source);
            if k < n - 1 {
                assert(triggers(m.records(), keys[k], service));
            }
        }
    }
}

proof fn lemma_added<A>(a: Seq<A>, b: Seq<A>, x: A)
    ensures
        (a + b).contains(x) <==> a.contains(x) || b.contains(x),
{
    let all = a + b;
    if a.contains(x) {
        let k = choose|k: int| 0 <= k < a.len() && a[k] == x;
        assert(all[k] == x);
    }
    if b.contains(x) {
        let k = choose|k: int| 0 <= k < b.len() && b[k] == x;
        assert(all[a.len() + k] == x);
    }
    if all.contains(x) {
        let k = choose|k: int| 0 <= k < all.len() && all[k] == x;
        if k < a.len() {
            assert(a[k] == x);
        } else {
            assert(b[k - a.len()] == x);
        }
    }
}

/// A service inherits exactly what is open for the loaded sockets that start
/// it, and their event sources are the ones that its start concerns.
pub proof fn law_a_service_inherits_its_sockets(m: Manager, service: Seq<char>, fd: i32, source: SourceId)
    requires
        m.wf(),
    ensures
        inherited_fds(m, service).contains(fd) <==> exists|socket: Seq<char>| {
            &&& #[trigger] m.socket_records@.dom().contains(socket)
            &&& m.records().dom().contains(socket)
            &&& m.records()[socket].loaded is Socket
            &&& triggered_service(socket, m.records()[socket].loaded->Socket_0.specific.service@) == service
            &&& m.socket_records@[socket].listen_fds@.contains(fd)
        },
        trigger_sources(m, service).contains(source) <==> exists|socket: Seq<char>| {
            &&& #[trigger] m.socket_records@.dom().contains(socket)
            &&& m.records().dom().contains(socket)
            &&& m.records()[socket].loaded is Socket
            &&& triggered_service(socket, m.records()[socket].loaded->Socket_0.specific.service@) == service
            &&& m.socket_records@[socket].source_ids@.contains(source)
        },
{
    let keys = m.socket_records.keys();
    m.socket_records.lemma_keys();
    lemma_fds_of_first(m, service, keys.len() as int, fd, source);
    if inherited_fds(m, service).contains(fd) {
        let k = choose|k: int| 0 <= k < keys.len() && triggers(m.records(), #[trigger] keys[k], service) && m.socket_records@[keys[k]].listen_fds@.contains(fd);
        assert(keys.contains(keys[k]));
        assert(m.socket_records@.dom().contains(keys[k]));
    }
    if trigger_sources(m, service).contains(source) {
        let k = choose|k: int| 0 <= k < keys.len() && triggers(m.records(), #[trigger] keys[k], service) && m.socket_records@[keys[k]].source_ids@.contains(source);
        assert(keys.contains(keys[k]));
        assert(m.socket_records@.dom().contains(keys[k]));
    }
    assert forall|socket: Seq<char>| #[trigger] m.socket_records@.dom().contains(socket) && triggers(m.records(), socket, service) implies exists|k: int|
        0 <= k < keys.len() && #[trigger] keys[k] == socket by {
        assert(keys.contains(socket));
    }
}

/// Only a unit that is down or failed is started.
pub proof fn law_only_units_that_are_down_start(units: Map<Seq<char>, RecordView>, name: Seq<char>)
    ensures
        to_be_started(units, name) <==> units.dom().contains(name) && (units[name].state is Inactive || units[name].state is Failed),
{
}

/// A service that runs anew has no status, no exit and no watchdog yet, and
/// started now. Nothing else of it changes.
pub proof fn law_what_a_new_run_begins_with(r: RecordView, monotonic: i64, realtime: Option<i64>)
    ensures
        about_to_run(r, Some(monotonic), realtime) == (RecordView {
            status_text: None,
            status_errno: None,
            last_start_ns: monotonic,
            exec_main_start_monotonic_ns: Some(monotonic),
            exec_main_start_realtime_ns: realtime,
            exec_main_exit_realtime_ns: None,
            exec_main_exit_monotonic_ns: None,
            watchdog_timestamp_ns: None,
            watchdog_timestamp_realtime_ns: None,
            watchdog_triggered: false,
            ..r
        }),
        about_to_run(r, None, realtime) == about_to_run(r, Some(0), realtime),
{
}

/// A service that asks for limits and cannot have them fails for want of
/// resources; nothing else of it changes. One that asks for none may do
/// without.
pub proof fn law_limits_that_cannot_be_had(units: Map<Seq<char>, RecordView>, name: Seq<char>, r: RecordView)
    ensures
        asks_for_limits(units, name) <==> units.dom().contains(name) && units[name].loaded is Service
            && units[name].loaded->Service_0.specific.resource_control_configured,
        without_resources(r).state is Failed,
        without_resources(r).service_result == "resources"@,
        without_resources(r) == (RecordView { state: UnitState::Failed, service_result: "resources"@, ..r }),
{
}

/// How long a service may take to start: as long as it says, else as long as
/// the manager does.
pub proof fn law_how_long_a_start_may_take(loaded: LoadedUnit, default_secs: u64)
    ensures
        loaded is Service && loaded->Service_0.specific.timeout_start_sec is Some ==> Some(start_timeout(loaded, default_secs))
            == loaded->Service_0.specific.timeout_start_sec,
        !(loaded is Service && loaded->Service_0.specific.timeout_start_sec is Some) ==> start_timeout(loaded, default_secs)
            == default_secs * 1_000_000_000,
{
    assert(0 <= default_secs * 1_000_000_000 <= u64::MAX * 1_000_000_000) by (nonlinear_arith)
        requires
            0 <= default_secs <= u64::MAX,
    ;
}

/// Of a service that was started, the process that is followed is the main
/// one, else the control process; and the main one may notify as the service
/// allows.
pub proof fn law_which_process_is_followed(units: Map<Seq<char>, RecordView>, name: Seq<char>)
    ensures
        ({
            let r = units[name];
            let there = units.dom().contains(name);
            let s = spawned(units, name);
            &&& !there ==> s.pid is None && s.notifies is None
            &&& there && r.active_pid is Some ==> s.pid == r.active_pid
            &&& there && r.active_pid is None ==> s.pid == r.control_pid
            &&& there ==> (s.notifies is Some <==> r.active_pid is Some && r.loaded is Service && notify_access_of(
                r.loaded->Service_0.specific,
            ) is Some)
            &&& s.notifies is Some ==> Some((s.notifies->0).0) == r.active_pid && Some((s.notifies->0).1) == notify_access_of(
                r.loaded->Service_0.specific,
            )
        }),
{
}

/// The watchdog of a service counts from the time it is up; of anything else
/// nothing changes.
pub proof fn law_a_watchdog_counts_once_the_service_is_up(r: RecordView, now: Option<i64>, now_realtime: Option<i64>)
    ensures
        ({
            let after = watched_from(r, now, now_realtime);
            let watched = r.loaded is Service && r.loaded->Service_0.specific.watchdog_sec is Some && r.state is Active;
            &&& !watched ==> after == r
            &&& watched ==> after == (RecordView {
                watchdog_timestamp_ns: now,
                watchdog_timestamp_realtime_ns: now_realtime,
                ..r
            })
        }),
{
}

/// A stop is over where no process is left. Else the process that was there
/// before is waited for, as long as the service may take; one that was not is
/// only signalled.
pub proof fn law_what_a_stop_does_next(units: Map<Seq<char>, RecordView>, name: Seq<char>, old_pid: Option<i32>, default_secs: u64)
    ensures
        ({
            let r = units[name];
            let left = units.dom().contains(name) && (r.active_pid is Some || r.control_pid is Some);
            let step = stop_step(units, name, old_pid, default_secs);
            &&& step is Gone <==> !left
            &&& step is Await <==> left && old_pid is Some
            &&& step is SignalOnly <==> left && old_pid is None
            &&& step is Await ==> step->Await_0 == stop_timeout(r.loaded, default_secs)
        }),
{
}

/// What is signalled of a service: its main and its control process, by the
/// rules of its section.
pub proof fn law_what_is_signalled(units: Map<Seq<char>, RecordView>, name: Seq<char>)
    ensures
        kill_policy(units, name) is Some <==> units.dom().contains(name) && units[name].loaded is Service,
        kill_policy(units, name) is Some ==> {
            &&& (kill_policy(units, name)->0).0 == policy_of(units[name].loaded->Service_0.specific)
            &&& (kill_policy(units, name)->0).1 == units[name].active_pid
            &&& (kill_policy(units, name)->0).2 == units[name].control_pid
        },
{
}

/// Changing a record changes that of the named unit and no other; where there
/// is none, nothing changes.
pub proof fn law_one_record_changes(units: Map<Seq<char>, RecordView>, name: Seq<char>, f: spec_fn(RecordView) -> RecordView, other: Seq<char>)
    ensures
        with_record(units, name, f).dom() == units.dom(),
        units.dom().contains(name) ==> with_record(units, name, f)[name] == f(units[name]),
        other != name ==> with_record(units, name, f)[other] == units[other],
        !units.dom().contains(name) ==> with_record(units, name, f) == units,
{
    assert(with_record(units, name, f).dom() =~= units.dom());
}

} // verus!
