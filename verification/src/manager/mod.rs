//! The service manager: the unit registry, job execution, timeouts, restarts
//! and the life cycle of the manager itself.
//!
//! Everything here decides; whoever runs the manager performs what is decided
//! and reports what came of it.

use std::collections::HashMap;

use vstd::prelude::*;

use crate::event::loop_::LoopResult;
use crate::event::source::SourceId;
use crate::ipc::UnitInfo;
use crate::job::{JobQueue, JobRegistry, JobRegistryView, JobView};
use crate::names::NameMap;
use crate::service::{RecordView, UnitRecord};

pub mod deadlines;
pub mod dispatch;
pub mod exits;
pub mod jobs;
pub mod lifecycle;
pub mod properties;
pub mod records;
pub mod requests;
pub mod services;
pub mod snapshot;
pub mod transactions;
pub mod turn;

verus! {

/// A reading of the wall clock and of the monotonic clock; zeros where none
/// was taken.
#[derive(Debug, Clone, Copy, PartialEq, Eq, Structural)]
pub struct DualTimestamp {
    pub realtime_ns: i64,
    pub monotonic_ns: i64,
}

/// No reading.
pub open spec fn no_timestamp() -> DualTimestamp {
    DualTimestamp { realtime_ns: 0, monotonic_ns: 0 }
}

/// A shutdown that a client asked for.
#[derive(Debug, Clone, Copy, PartialEq, Eq, Structural)]
pub enum ShutdownAction {
    Nothing,
    Reboot,
    Poweroff,
    Halt,
    Kexec,
}

/// What clients asked of the manager itself, and when its phases began and
/// ended.
#[derive(Debug, Clone, Copy)]
pub struct Lifecycle {
    /// A client asked to read the unit files again.
    pub reload_requested: bool,
    /// How often they were read again, as far as the counter reaches.
    pub reload_count: u64,
    /// Status with which the manager exits next.
    pub exit_code: u8,
    /// A client asked the manager to exit.
    pub exit_requested: bool,
    /// A client asked the manager to execute its binary again.
    pub reexecute_requested: bool,
    /// The shutdown that a client asked for.
    pub shutdown_action: ShutdownAction,
    /// The transition to make once the shutdown transaction has settled.
    pub pending_shutdown_result: Option<LoopResult>,
    /// When the manager began to stop everything.
    pub shutdown_start: DualTimestamp,
    /// The monotonic clock before the first unit was loaded.
    pub startup_monotonic_ns: i64,
    /// When the initial jobs were done.
    pub finish: DualTimestamp,
    /// When the first dependency closure began to load.
    pub units_load_start: DualTimestamp,
    /// When the first dependency closure was loaded.
    pub units_load_finish: DualTimestamp,
    /// When the unit files were last read again.
    pub units_load: DualTimestamp,
    /// Whether the end of startup was announced.
    pub startup_finished_emitted: bool,
}

/// What is open for an active socket unit.
#[derive(Debug)]
pub struct SocketRecord {
    pub listen_fds: Vec<i32>,
    pub source_ids: Vec<SourceId>,
}

/// The state of the service manager.
pub struct Manager {
    /// All loaded units, by name.
    pub units: NameMap<UnitRecord>,
    /// What is open for each active socket unit.
    pub socket_records: NameMap<SocketRecord>,
    /// Event source of each active path unit.
    pub path_sources: NameMap<SourceId>,
    /// Jobs to run.
    pub job_queue: JobQueue,
    /// Jobs that timers and clients asked for, not yet taken over.
    pub shared_queue: JobQueue,
    /// All exported jobs.
    pub job_registry: JobRegistry,
    /// Event source of each watched control group.
    pub cgroup_sources: NameMap<SourceId>,
    /// Event source of each control group watched for memory exhaustion.
    pub oom_sources: NameMap<SourceId>,
    /// Units that are stopped because memory ran out.
    pub oom_stopping: NameMap<()>,
    /// Until when an exit of a unit counts as caused by memory exhaustion.
    pub oom_recent: NameMap<u64>,
    /// Timer of each service that must start in time.
    pub start_timeouts: NameMap<SourceId>,
    /// Timer of each service that must stop in time.
    pub stop_timeouts: NameMap<SourceId>,
    /// Units that start again once they are down.
    pub restart_pending: NameMap<()>,
    /// What each running isolate job keeps.
    pub isolate_jobs: HashMap<u32, Vec<String>>,
    /// What clients see of the units.
    pub unit_snapshot: Vec<UnitInfo>,
    /// Names in the snapshot before.
    pub prev_snapshot: Vec<String>,
    pub lifecycle: Lifecycle,
    /// How long services may take to start and to stop, in seconds, where
    /// their units do not say.
    pub default_timeout_start_sec: u64,
    pub default_timeout_stop_sec: u64,
}

/// What the records of the units hold.
pub open spec fn unit_views(units: NameMap<UnitRecord>) -> Map<Seq<char>, RecordView> {
    units@.map_values(|r: UnitRecord| r@)
}

/// Setting one record sets what it holds and nothing else.
pub proof fn lemma_views_insert(before: Map<Seq<char>, UnitRecord>, name: Seq<char>, record: UnitRecord)
    ensures
        before.insert(name, record).map_values(|r: UnitRecord| r@) == before.map_values(|r: UnitRecord| r@).insert(
            name,
            record@,
        ),
{
    assert(before.insert(name, record).map_values(|r: UnitRecord| r@) =~= before.map_values(
        |r: UnitRecord| r@,
    ).insert(name, record@));
}

impl Manager {
    /// Every map holds each name once, and the registry is sound.
    pub open spec fn wf(&self) -> bool {
        &&& self.units.wf()
        &&& self.socket_records.wf()
        &&& self.path_sources.wf()
        &&& self.job_registry.wf()
        &&& self.cgroup_sources.wf()
        &&& self.oom_sources.wf()
        &&& self.oom_stopping.wf()
        &&& self.oom_recent.wf()
        &&& self.start_timeouts.wf()
        &&& self.stop_timeouts.wf()
        &&& self.restart_pending.wf()
    }

    /// What the unit registry holds.
    pub open spec fn records(&self) -> Map<Seq<char>, RecordView> {
        unit_views(self.units)
    }

    /// A manager that has no units and no jobs and was asked nothing.
    pub fn new(startup_monotonic_ns: i64, default_timeout_start_sec: u64, default_timeout_stop_sec: u64) -> (r: Self)
        ensures
            r.wf(),
            r.records() == Map::<Seq<char>, RecordView>::empty(),
            r.socket_records@ == Map::<Seq<char>, SocketRecord>::empty(),
            r.path_sources@ == Map::<Seq<char>, SourceId>::empty(),
            r.job_queue@ == Seq::<JobView>::empty(),
            r.shared_queue@ == Seq::<JobView>::empty(),
            r.job_registry@ == JobRegistryView::initial(),
            r.cgroup_sources@ == Map::<Seq<char>, SourceId>::empty(),
            r.oom_sources@ == Map::<Seq<char>, SourceId>::empty(),
            r.oom_stopping@ == Map::<Seq<char>, ()>::empty(),
            r.oom_recent@ == Map::<Seq<char>, u64>::empty(),
            r.start_timeouts@ == Map::<Seq<char>, SourceId>::empty(),
            r.stop_timeouts@ == Map::<Seq<char>, SourceId>::empty(),
            r.restart_pending@ == Map::<Seq<char>, ()>::empty(),
            r.isolate_jobs@ == Map::<u32, Vec<String>>::empty(),
            r.unit_snapshot@ == Seq::<UnitInfo>::empty(),
            r.prev_snapshot@ == Seq::<String>::empty(),
            r.lifecycle == (Lifecycle {
                reload_requested: false,
                reload_count: 0,
                exit_code: 0,
                exit_requested: false,
                reexecute_requested: false,
                shutdown_action: ShutdownAction::Nothing,
                pending_shutdown_result: None,
                shutdown_start: no_timestamp(),
                startup_monotonic_ns,
                finish: no_timestamp(),
                units_load_start: no_timestamp(),
                units_load_finish: no_timestamp(),
                units_load: no_timestamp(),
                startup_finished_emitted: false,
            }),
            r.default_timeout_start_sec == default_timeout_start_sec,
            r.default_timeout_stop_sec == default_timeout_stop_sec,
    {
        broadcast use vstd::std_specs::hash::group_hash_axioms;

        let none = DualTimestamp { realtime_ns: 0, monotonic_ns: 0 };
        let r = Manager {
            units: NameMap::new(),
            socket_records: NameMap::new(),
            path_sources: NameMap::new(),
            job_queue: JobQueue::default(),
            shared_queue: JobQueue::default(),
            job_registry: JobRegistry::new(),
            cgroup_sources: NameMap::new(),
            oom_sources: NameMap::new(),
            oom_stopping: NameMap::new(),
            oom_recent: NameMap::new(),
            start_timeouts: NameMap::new(),
            stop_timeouts: NameMap::new(),
            restart_pending: NameMap::new(),
            isolate_jobs: HashMap::new(),
            unit_snapshot: Vec::new(),
            prev_snapshot: Vec::new(),
            lifecycle: Lifecycle {
                reload_requested: false,
                reload_count: 0,
                exit_code: 0,
                exit_requested: false,
                reexecute_requested: false,
                shutdown_action: ShutdownAction::Nothing,
                pending_shutdown_result: None,
                shutdown_start: none,
                startup_monotonic_ns,
                finish: none,
                units_load_start: none,
                units_load_finish: none,
                units_load: none,
                startup_finished_emitted: false,
            },
            default_timeout_start_sec,
            default_timeout_stop_sec,
        };
        assert(r.records() =~= Map::<Seq<char>, RecordView>::empty());
        r
    }

    /// The status with which the manager exits next.
    pub fn exit_code(&self) -> (r: u8)
        ensures
            r == self.lifecycle.exit_code,
    {
        self.lifecycle.exit_code
    }
}

/// Where no time was noted, both clocks read zero.
pub proof fn law_no_time_is_zero()
    ensures
        no_timestamp().realtime_ns == 0,
        no_timestamp().monotonic_ns == 0,
{
}

} // verus!
