//! The runtime state of a loaded unit.

use vstd::prelude::*;

use crate::dynamic_user::DynamicUser;
use crate::text;
use crate::unit::{LoadedUnit, UnitState};

verus! {

/// A loaded unit and what is known of its processes.
#[derive(Debug)]
pub struct UnitRecord {
    pub loaded: LoadedUnit,
    pub state: UnitState,
    /// The main process.
    pub active_pid: Option<i32>,
    /// The control process.
    pub control_pid: Option<i32>,
    /// Latest status that the service sent.
    pub status_text: Option<String>,
    /// Latest error number that the service sent.
    pub status_errno: Option<i32>,
    /// When the watchdog was last fed, on the monotonic clock.
    pub watchdog_timestamp_ns: Option<i64>,
    /// When the watchdog was last fed, on the wall clock.
    pub watchdog_timestamp_realtime_ns: Option<i64>,
    /// Whether the watchdog has already fired.
    pub watchdog_triggered: bool,
    pub exec_main_start_realtime_ns: Option<i64>,
    pub exec_main_start_monotonic_ns: Option<i64>,
    pub exec_main_exit_realtime_ns: Option<i64>,
    pub exec_main_exit_monotonic_ns: Option<i64>,
    /// How the last run ended.
    pub service_result: String,
    pub exec_main_code: i32,
    pub exec_main_status: i32,
    /// Whether the service is being stopped on request.
    pub stop_requested: bool,
    pub last_start_ns: i64,
    /// Number of automatic restarts.
    pub restart_count: u32,
    /// When the current start-limit window began.
    pub start_limit_window_ns: i64,
    /// Starts within the current start-limit window.
    pub start_limit_count: u32,
    /// Identifier of the current run.
    pub invocation_id: Option<[u8; 16]>,
    /// The user allocated for the current run.
    pub dynamic_user: Option<DynamicUser>,
}

/// What a record holds.
#[verifier::ext_equal]
pub struct RecordView {
    pub loaded: LoadedUnit,
    pub state: UnitState,
    pub active_pid: Option<i32>,
    pub control_pid: Option<i32>,
    pub status_text: Option<Seq<char>>,
    pub status_errno: Option<i32>,
    pub watchdog_timestamp_ns: Option<i64>,
    pub watchdog_timestamp_realtime_ns: Option<i64>,
    pub watchdog_triggered: bool,
    pub exec_main_start_realtime_ns: Option<i64>,
    pub exec_main_start_monotonic_ns: Option<i64>,
    pub exec_main_exit_realtime_ns: Option<i64>,
    pub exec_main_exit_monotonic_ns: Option<i64>,
    pub service_result: Seq<char>,
    pub exec_main_code: i32,
    pub exec_main_status: i32,
    pub stop_requested: bool,
    pub last_start_ns: i64,
    pub restart_count: u32,
    pub start_limit_window_ns: i64,
    pub start_limit_count: u32,
    pub invocation_id: Option<[u8; 16]>,
    pub dynamic_user: Option<DynamicUser>,
}

impl View for UnitRecord {
    type V = RecordView;

    open spec fn view(&self) -> RecordView {
        RecordView {
            loaded: self.loaded,
            state: self.state,
            active_pid: self.active_pid,
            control_pid: self.control_pid,
            status_text: text::opt_view(self.status_text),
            status_errno: self.status_errno,
            watchdog_timestamp_ns: self.watchdog_timestamp_ns,
            watchdog_timestamp_realtime_ns: self.watchdog_timestamp_realtime_ns,
            watchdog_triggered: self.watchdog_triggered,
            exec_main_start_realtime_ns: self.exec_main_start_realtime_ns,
            exec_main_start_monotonic_ns: self.exec_main_start_monotonic_ns,
            exec_main_exit_realtime_ns: self.exec_main_exit_realtime_ns,
            exec_main_exit_monotonic_ns: self.exec_main_exit_monotonic_ns,
            service_result: self.service_result@,
            exec_main_code: self.exec_main_code,
            exec_main_status: self.exec_main_status,
            stop_requested: self.stop_requested,
            last_start_ns: self.last_start_ns,
            restart_count: self.restart_count,
            start_limit_window_ns: self.start_limit_window_ns,
            start_limit_count: self.start_limit_count,
            invocation_id: self.invocation_id,
            dynamic_user: self.dynamic_user,
        }
    }
}

/// A unit that was just loaded.
pub open spec fn fresh(loaded: LoadedUnit) -> RecordView {
    RecordView {
        loaded,
        state: UnitState::Inactive,
        active_pid: None,
        control_pid: None,
        status_text: None,
        status_errno: None,
        watchdog_timestamp_ns: None,
        watchdog_timestamp_realtime_ns: None,
        watchdog_triggered: false,
        exec_main_start_realtime_ns: None,
        exec_main_start_monotonic_ns: None,
        exec_main_exit_realtime_ns: None,
        exec_main_exit_monotonic_ns: None,
        service_result: "success"@,
        exec_main_code: 0,
        exec_main_status: 0,
        stop_requested: false,
        last_start_ns: 0,
        restart_count: 0,
        start_limit_window_ns: 0,
        start_limit_count: 0,
        invocation_id: None,
        dynamic_user: None,
    }
}

impl UnitRecord {
    /// A unit that was just loaded.
    pub fn new(loaded: LoadedUnit) -> (r: Self)
        ensures
            r@ == fresh(loaded),
    {
        UnitRecord {
            loaded,
            state: UnitState::Inactive,
            active_pid: None,
            control_pid: None,
            status_text: None,
            status_errno: None,
            watchdog_timestamp_ns: None,
            watchdog_timestamp_realtime_ns: None,
            watchdog_triggered: false,
            exec_main_start_realtime_ns: None,
            exec_main_start_monotonic_ns: None,
            exec_main_exit_realtime_ns: None,
            exec_main_exit_monotonic_ns: None,
            service_result: "success".to_owned(),
            exec_main_code: 0,
            exec_main_status: 0,
            stop_requested: false,
            last_start_ns: 0,
            restart_count: 0,
            start_limit_window_ns: 0,
            start_limit_count: 0,
            invocation_id: None,
            dynamic_user: None,
        }
    }
}

/// A unit that was just loaded is down, has no process, no history and no
/// failure.
pub proof fn law_a_loaded_unit_is_at_rest(loaded: LoadedUnit)
    ensures
        fresh(loaded).loaded == loaded,
        fresh(loaded).state is Inactive,
        fresh(loaded).active_pid is None,
        fresh(loaded).control_pid is None,
        fresh(loaded).status_text is None,
        fresh(loaded).status_errno is None,
        fresh(loaded).watchdog_timestamp_ns is None,
        fresh(loaded).watchdog_timestamp_realtime_ns is None,
        !fresh(loaded).watchdog_triggered,
        !fresh(loaded).stop_requested,
        fresh(loaded).service_result == "success"@,
        fresh(loaded).restart_count == 0,
        fresh(loaded).start_limit_count == 0,
        fresh(loaded).start_limit_window_ns == 0,
        fresh(loaded).last_start_ns == 0,
        fresh(loaded).exec_main_code == 0,
        fresh(loaded).exec_main_status == 0,
        fresh(loaded).invocation_id is None,
        fresh(loaded).dynamic_user is None,
        fresh(loaded).exec_main_start_realtime_ns is None,
        fresh(loaded).exec_main_start_monotonic_ns is None,
        fresh(loaded).exec_main_exit_realtime_ns is None,
        fresh(loaded).exec_main_exit_monotonic_ns is None,
{
}

} // verus!
