//! What is read off a unit's record, and how events change it.

use vstd::prelude::*;

use crate::dynamic_user::DynamicUser;
use crate::ipc::{copy_option, DynamicUserInfo, ServiceRuntimeInfo, UnitInfo};
use crate::service::{fresh, RecordView, UnitRecord};
use crate::text;
use crate::unit::{LoadedUnit, NotifyAccess, ParsedUnit, RestartPolicy, ServiceSection, ServiceType, UnitSection, UnitState};

verus! {

/// Nanoseconds in a second.
pub const NS_PER_SEC: u128 = 1_000_000_000;

/// The `[Service]` section of a unit, if it is a service.
pub open spec fn service_of(loaded: LoadedUnit) -> Option<ServiceSection> {
    match loaded {
        LoadedUnit::Service(service) => Some(service.specific),
        _ => None,
    }
}

/// Who may send notifications for a service, if anyone: the main process where
/// notifications are needed but nobody is named.
pub open spec fn notify_access_of(section: ServiceSection) -> Option<NotifyAccess> {
    if section.notify_access != NotifyAccess::Nobody {
        Some(section.notify_access)
    } else if section.watchdog_sec is Some || section.service_type == ServiceType::Notify || section.service_type
        == ServiceType::NotifyReload {
        Some(NotifyAccess::Main)
    } else {
        None
    }
}

/// Who may send notifications for a service, if anyone.
pub fn effective_notify_access(section: &ServiceSection) -> (r: Option<NotifyAccess>)
    ensures
        r == notify_access_of(*section),
{
    if section.notify_access != NotifyAccess::Nobody {
        Some(section.notify_access)
    } else if section.watchdog_sec.is_some() || section.service_type == ServiceType::Notify || section.service_type
        == ServiceType::NotifyReload {
        Some(NotifyAccess::Main)
    } else {
        None
    }
}

/// A span as a signed number of nanoseconds, as far as that reaches.
pub open spec fn clamped_ns(ns: u128) -> i64 {
    if ns > i64::MAX {
        i64::MAX
    } else {
        ns as i64
    }
}

/// A span as a signed number of nanoseconds, as far as that reaches.
pub fn clamp_ns(ns: u128) -> (r: i64)
    ensures
        r == clamped_ns(ns),
{
    if ns > i64::MAX as u128 {
        i64::MAX
    } else {
        ns as i64
    }
}

/// A difference of timestamps, as far as the type reaches.
pub open spec fn elapsed(now: i64, since: i64) -> int {
    let d = now - since;
    if d > i64::MAX {
        i64::MAX as int
    } else if d < i64::MIN {
        i64::MIN as int
    } else {
        d
    }
}

/// A difference of timestamps, as far as the type reaches.
pub fn elapsed_ns(now: i64, since: i64) -> (r: i64)
    ensures
        r == elapsed(now, since),
{
    let wide: i128 = now as i128 - since as i128;
    if wide > i64::MAX as i128 {
        i64::MAX
    } else if wide < i64::MIN as i128 {
        i64::MIN
    } else {
        wide as i64
    }
}

/// How often a unit must feed its watchdog, if it has one.
pub open spec fn watchdog_interval(loaded: LoadedUnit) -> Option<i64> {
    match service_of(loaded) {
        Some(section) => match section.watchdog_sec {
            Some(ns) => Some(clamped_ns(ns)),
            None => None,
        },
        None => None,
    }
}

/// How often a unit must feed its watchdog, if it has one.
pub fn watchdog_interval_ns(record: &UnitRecord) -> (r: Option<i64>)
    ensures
        r == watchdog_interval(record.loaded),
{
    match &record.loaded {
        LoadedUnit::Service(service) => match service.specific.watchdog_sec {
            Some(ns) => Some(clamp_ns(ns)),
            None => None,
        },
        _ => None,
    }
}

/// The process that a stop waits for: the main process, else the control
/// process.
pub open spec fn tracked_pid(r: RecordView) -> Option<i32> {
    match r.active_pid {
        Some(pid) => Some(pid),
        None => r.control_pid,
    }
}

/// How long a unit may take to stop.
pub open spec fn stop_timeout(loaded: LoadedUnit, default_secs: u64) -> u128 {
    match service_of(loaded) {
        Some(section) => match section.timeout_stop_sec {
            Some(ns) => ns,
            None => (default_secs * NS_PER_SEC) as u128,
        },
        None => (default_secs * NS_PER_SEC) as u128,
    }
}

fn seconds(secs: u64) -> (r: u128)
    ensures
        r == secs * NS_PER_SEC,
{
    secs as u128 * NS_PER_SEC
}

/// How long a unit may take to stop, and the process that is waited for.
/// Nothing where there is no process.
pub fn stop_timeout_for_record(record: &UnitRecord, default_timeout_stop_sec: u64) -> (r: Option<(i32, u128)>)
    ensures
        r == match tracked_pid(record@) {
            Some(pid) => Some((pid, stop_timeout(record.loaded, default_timeout_stop_sec))),
            None => None,
        },
{
    let pid: i32 = match record.active_pid {
        Some(pid) => pid,
        None => match record.control_pid {
            Some(pid) => pid,
            None => return None,
        },
    };
    let timeout: u128 = match &record.loaded {
        LoadedUnit::Service(service) => match service.specific.timeout_stop_sec {
            Some(ns) => ns,
            None => seconds(default_timeout_stop_sec),
        },
        _ => seconds(default_timeout_stop_sec),
    };
    Some((pid, timeout))
}

/// Whether a unit is in one of the states after which it stays failed.
pub open spec fn has_failed(state: UnitState) -> bool {
    state == UnitState::Failed || state == UnitState::Maintenance
}

/// A record after its failure was cleared.
pub open spec fn failure_cleared(r: RecordView) -> RecordView {
    RecordView {
        state: if has_failed(r.state) {
            UnitState::Inactive
        } else {
            r.state
        },
        restart_count: 0,
        last_start_ns: 0,
        start_limit_window_ns: 0,
        start_limit_count: 0,
        watchdog_triggered: false,
        service_result: "success"@,
        exec_main_code: 0,
        exec_main_status: 0,
        ..r
    }
}

/// Clear the failure of a unit.
pub fn reset_failed_record(record: &mut UnitRecord)
    ensures
        final(record)@ == failure_cleared(old(record)@),
{
    if record.state == UnitState::Failed || record.state == UnitState::Maintenance {
        record.state = UnitState::Inactive;
    }
    record.restart_count = 0;
    record.last_start_ns = 0;
    record.start_limit_window_ns = 0;
    record.start_limit_count = 0;
    record.watchdog_triggered = false;
    record.service_result = "success".to_owned();
    record.exec_main_code = 0;
    record.exec_main_status = 0;
}

/// Whether a unit's control group must be kept although it is empty.
pub open spec fn keeps_cgroup(r: RecordView) -> bool {
    r.state == UnitState::Activating || r.state == UnitState::Deactivating || has_failed(r.state) || r.active_pid is Some
        || r.control_pid is Some
}

/// Whether a unit's control group must be kept although it is empty.
pub fn unit_cgroup_must_remain_realized(record: &UnitRecord) -> (r: bool)
    ensures
        r == keeps_cgroup(record@),
{
    record.state == UnitState::Activating || record.state == UnitState::Deactivating || record.state
        == UnitState::Failed || record.state == UnitState::Maintenance || record.active_pid.is_some()
        || record.control_pid.is_some()
}

/// A unit whose failure was cleared and which has no processes does not hold
/// its control group, unless it is on its way up or down.
pub proof fn law_cleared_failure_releases_the_cgroup(r: RecordView)
    requires
        r.active_pid is None,
        r.control_pid is None,
        r.state != UnitState::Activating,
        r.state != UnitState::Deactivating,
    ensures
        !keeps_cgroup(failure_cleared(r)),
{
}

/// How long to wait before a restart.
#[derive(Debug, Clone, Copy, PartialEq, Eq, Structural)]
pub enum RestartDelay {
    /// This span.
    Fixed(u128),
    /// The span that is the given part of the way, on a geometric scale, from
    /// the initial to the maximum one.
    Geometric { initial: u128, maximum: u128, step: u32, steps: u32 },
}

/// How long to wait before the `next_restart`th restart of a service. Without
/// a maximum, and before the first step, it is the configured span; after the
/// last step it is the maximum; between them it grows geometrically.
pub open spec fn restart_delay(section: ServiceSection, next_restart: u32) -> RestartDelay {
    let initial: u128 = match section.restart_sec {
        Some(ns) => ns,
        None => 100_000_000,
    };
    let steps: u32 = match section.restart_steps {
        Some(steps) => steps,
        None => 0,
    };
    match section.restart_max_delay_sec {
        None => RestartDelay::Fixed(initial),
        Some(maximum) => if next_restart <= 1 || steps == 0 || initial == 0 || initial >= maximum {
            RestartDelay::Fixed(initial)
        } else if next_restart > steps {
            RestartDelay::Fixed(maximum)
        } else {
            RestartDelay::Geometric { initial, maximum, step: (next_restart - 1) as u32, steps }
        },
    }
}

/// How long to wait before the `next_restart`th restart of a service.
pub fn restart_delay_for(section: &ServiceSection, next_restart: u32) -> (r: RestartDelay)
    ensures
        r == restart_delay(*section, next_restart),
{
    let initial: u128 = match section.restart_sec {
        Some(ns) => ns,
        None => 100_000_000,
    };
    let steps: u32 = match section.restart_steps {
        Some(steps) => steps,
        None => 0,
    };
    let maximum: u128 = match section.restart_max_delay_sec {
        Some(maximum) => maximum,
        None => return RestartDelay::Fixed(initial),
    };
    if next_restart <= 1 || steps == 0 || initial == 0 || initial >= maximum {
        return RestartDelay::Fixed(initial);
    }
    if next_restart > steps {
        return RestartDelay::Fixed(maximum);
    }
    RestartDelay::Geometric { initial, maximum, step: next_restart - 1, steps }
}

/// A geometric delay lies strictly between its ends, and its step is before
/// the last.
pub proof fn law_geometric_delay_is_between(section: ServiceSection, next_restart: u32)
    ensures
        restart_delay(section, next_restart) matches RestartDelay::Geometric { initial, maximum, step, steps } ==> 0
            < initial < maximum && 0 < step < steps,
{
}

/// One more, as far as the counter reaches.
pub open spec fn next_count(n: u32) -> u32 {
    if n == u32::MAX {
        u32::MAX
    } else {
        (n + 1) as u32
    }
}

/// How many starts are allowed in a window.
pub open spec fn start_burst(section: UnitSection) -> u32 {
    match section.start_limit_burst {
        Some(burst) => burst,
        None => 5,
    }
}

/// How long the window is.
pub open spec fn start_interval(section: UnitSection) -> u128 {
    match section.start_limit_interval_sec {
        Some(ns) => ns,
        None => 10_000_000_000,
    }
}

/// Whether starts are limited at all.
pub open spec fn starts_limited(section: UnitSection) -> bool {
    start_burst(section) > 0 && start_interval(section) > 0
}

/// A record with its start window brought up to date: a window that is over,
/// or that never began, begins now.
pub open spec fn window_at(r: RecordView, now_ns: i64) -> RecordView {
    if r.start_limit_window_ns == 0 || elapsed(now_ns, r.start_limit_window_ns) >= clamped_ns(
        start_interval(r.loaded.section()),
    ) {
        RecordView { start_limit_window_ns: now_ns, start_limit_count: 0, ..r }
    } else {
        r
    }
}

/// What an automatic restart at `now_ns` makes of a record, and how long to
/// wait before it. No restart where none is asked for or the unit is no
/// service; a unit that starts too often fails instead.
pub open spec fn restarted_at(r: RecordView, asked: bool, now_ns: i64) -> (RecordView, Option<RestartDelay>) {
    match service_of(r.loaded) {
        Some(section) if asked => {
            let next = next_count(r.restart_count);
            if starts_limited(r.loaded.section()) {
                let w = window_at(r, now_ns);
                let start = next_count(w.start_limit_count);
                if start > start_burst(r.loaded.section()) {
                    (RecordView { state: UnitState::Failed, service_result: "start-limit-hit"@, ..w }, None)
                } else {
                    (
                        RecordView { start_limit_count: start, restart_count: next, ..w },
                        Some(restart_delay(section, next)),
                    )
                }
            } else {
                (RecordView { restart_count: next, ..r }, Some(restart_delay(section, next)))
            }
        },
        _ => (r, None),
    }
}

fn count_up(n: u32) -> (r: u32)
    ensures
        r == next_count(n),
{
    if n == u32::MAX {
        n
    } else {
        n + 1
    }
}

/// Account for an automatic restart at `now_ns`, where one is `asked` for. How
/// long to wait before it, or nothing where there is none.
pub fn automatic_restart_delay_at(record: &mut UnitRecord, asked: bool, now_ns: i64) -> (r: Option<RestartDelay>)
    ensures
        (final(record)@, r) == restarted_at(old(record)@, asked, now_ns),
{
    let next = count_up(record.restart_count);
    let delay = match &record.loaded {
        LoadedUnit::Service(service) => {
            if !asked {
                return None;
            }
            restart_delay_for(&service.specific, next)
        },
        _ => return None,
    };
    let section = record.loaded.unit_section();
    let burst: u32 = match section.start_limit_burst {
        Some(burst) => burst,
        None => 5,
    };
    let interval: u128 = match section.start_limit_interval_sec {
        Some(ns) => ns,
        None => 10_000_000_000,
    };
    if burst > 0 && interval > 0 {
        let interval_ns = clamp_ns(interval);
        if record.start_limit_window_ns == 0 || elapsed_ns(now_ns, record.start_limit_window_ns) >= interval_ns {
            record.start_limit_window_ns = now_ns;
            record.start_limit_count = 0;
        }
        let start = count_up(record.start_limit_count);
        if start > burst {
            record.state = UnitState::Failed;
            record.service_result = "start-limit-hit".to_owned();
            return None;
        }
        record.start_limit_count = start;
    }
    record.restart_count = next;
    Some(delay)
}

/// Within one window a unit is never restarted more often than its burst
/// allows, for every burst that the counter can exceed.
pub proof fn law_burst_bounds_restarts(r: RecordView, now_ns: i64)
    requires
        starts_limited(r.loaded.section()),
        start_burst(r.loaded.section()) < u32::MAX,
        r.start_limit_count <= start_burst(r.loaded.section()),
    ensures
        ({
            let (after, delay) = restarted_at(r, true, now_ns);
            &&& after.start_limit_count <= start_burst(r.loaded.section())
            &&& delay is Some ==> after.start_limit_count == window_at(r, now_ns).start_limit_count + 1
            &&& service_of(r.loaded) is Some && window_at(r, now_ns).start_limit_count == start_burst(
                r.loaded.section(),
            ) ==> delay is None && after.state == UnitState::Failed
        }),
{
}

/// Once the interval has passed, a unit that had hit its start limit can be
/// started again.
pub proof fn law_start_limit_expires(r: RecordView, now_ns: i64)
    requires
        service_of(r.loaded) is Some,
        starts_limited(r.loaded.section()),
        elapsed(now_ns, r.start_limit_window_ns) >= clamped_ns(start_interval(r.loaded.section())),
    ensures
        restarted_at(r, true, now_ns).1 is Some,
        restarted_at(r, true, now_ns).0.start_limit_count == 1,
{
}

/// A notification from a service.
#[derive(Debug)]
pub struct NotifyMessage {
    pub status: Option<String>,
    pub errno: Option<i32>,
    pub main_pid: Option<i32>,
    pub ready: bool,
    pub watchdog: bool,
    pub stopping: bool,
}

/// What a notification asks of the manager beyond the record.
#[derive(Debug, Clone, Copy)]
pub struct NotifyEffects {
    /// Complete the start.
    pub ready: bool,
    /// The service no longer has to start in time.
    pub cancel_start_timeout: bool,
    /// The service now has to stop in time.
    pub stop_timeout: Option<u128>,
    /// The main process changed: what it was, and what it is.
    pub pid_change: Option<(Option<i32>, i32)>,
}

/// The new main process that a notification names.
pub open spec fn named_pid(r: RecordView, message: NotifyMessage) -> Option<i32> {
    match message.main_pid {
        Some(pid) if pid > 0 && r.active_pid != Some(pid) => Some(pid),
        _ => None,
    }
}

/// Whether a notification says that the service stops, and it was up or on
/// its way up.
pub open spec fn stops_now(r: RecordView, message: NotifyMessage) -> bool {
    message.stopping && (r.state == UnitState::Active || r.state == UnitState::Activating)
}

/// Whether a notification feeds the watchdog.
pub open spec fn feeds_watchdog(r: RecordView, message: NotifyMessage) -> bool {
    message.watchdog && watchdog_interval(r.loaded) is Some
}

/// A record whose watchdog was fed.
pub open spec fn watchdog_fed(r: RecordView, now: Option<i64>, now_realtime: Option<i64>) -> RecordView {
    RecordView {
        watchdog_timestamp_ns: now,
        watchdog_timestamp_realtime_ns: now_realtime,
        watchdog_triggered: false,
        ..r
    }
}

/// A record whose watchdog is at rest.
pub open spec fn watchdog_at_rest(r: RecordView) -> RecordView {
    watchdog_fed(r, None, None)
}

/// What a notification makes of a record.
pub open spec fn notified(
    r: RecordView,
    message: NotifyMessage,
    now: Option<i64>,
    now_realtime: Option<i64>,
) -> RecordView {
    let told = RecordView {
        status_text: match message.status {
            Some(status) => Some(status@),
            None => r.status_text,
        },
        status_errno: match message.errno {
            Some(errno) => Some(errno),
            None => r.status_errno,
        },
        active_pid: match named_pid(r, message) {
            Some(pid) => Some(pid),
            None => r.active_pid,
        },
        ..r
    };
    let fed = if feeds_watchdog(r, message) {
        watchdog_fed(told, now, now_realtime)
    } else {
        told
    };
    if stops_now(r, message) {
        watchdog_at_rest(RecordView { state: UnitState::Deactivating, ..fed })
    } else {
        fed
    }
}

/// What a notification asks of the manager.
pub open spec fn notify_effects(
    r: RecordView,
    message: NotifyMessage,
    now: Option<i64>,
    now_realtime: Option<i64>,
    default_timeout_stop_sec: u64,
) -> NotifyEffects {
    let after = notified(r, message, now, now_realtime);
    NotifyEffects {
        ready: message.ready && r.state == UnitState::Activating && !stops_now(r, message),
        cancel_start_timeout: stops_now(r, message),
        stop_timeout: if stops_now(r, message) && tracked_pid(after) is Some {
            Some(stop_timeout(r.loaded, default_timeout_stop_sec))
        } else {
            None
        },
        pid_change: match named_pid(r, message) {
            Some(pid) => Some((r.active_pid, pid)),
            None => None,
        },
    }
}

fn rest_watchdog(record: &mut UnitRecord)
    ensures
        final(record)@ == watchdog_at_rest(old(record)@),
{
    record.watchdog_timestamp_ns = None;
    record.watchdog_timestamp_realtime_ns = None;
    record.watchdog_triggered = false;
}

/// Take a notification from a service.
pub fn apply_notify(
    record: &mut UnitRecord,
    message: NotifyMessage,
    now: Option<i64>,
    now_realtime: Option<i64>,
    default_timeout_stop_sec: u64,
) -> (r: NotifyEffects)
    ensures
        final(record)@ == notified(old(record)@, message, now, now_realtime),
        r == notify_effects(old(record)@, message, now, now_realtime, default_timeout_stop_sec),
{
    let ghost before = record@;
    if let Some(errno) = message.errno {
        record.status_errno = Some(errno);
    }
    let mut pid_change: Option<(Option<i32>, i32)> = None;
    if let Some(new_pid) = message.main_pid {
        let same = match record.active_pid {
            Some(pid) => pid == new_pid,
            None => false,
        };
        if new_pid > 0 && !same {
            pid_change = Some((record.active_pid, new_pid));
            record.active_pid = Some(new_pid);
        }
    }
    let mut ready = message.ready && record.state == UnitState::Activating;
    if message.watchdog && watchdog_interval_ns(record).is_some() {
        record.watchdog_timestamp_ns = now;
        record.watchdog_timestamp_realtime_ns = now_realtime;
        record.watchdog_triggered = false;
    }
    let mut cancel_start_timeout = false;
    let mut timeout: Option<u128> = None;
    if message.stopping && (record.state == UnitState::Active || record.state == UnitState::Activating) {
        record.state = UnitState::Deactivating;
        rest_watchdog(record);
        cancel_start_timeout = true;
        ready = false;
        timeout = match stop_timeout_for_record(record, default_timeout_stop_sec) {
            Some(waited) => Some(waited.1),
            None => None,
        };
    }
    if let Some(status) = message.status {
        record.status_text = Some(status);
    }
    NotifyEffects { ready, cancel_start_timeout, stop_timeout: timeout, pid_change }
}

/// What came of completing a start.
#[derive(Debug, Clone, Copy, PartialEq, Eq, Structural)]
pub enum Readiness {
    /// The service is up.
    Ready,
    /// Not yet.
    Pending,
    /// The start failed.
    Failed,
}

/// Take what completing a start after a notification came to. Whether the
/// service no longer has to start in time.
pub fn on_readiness(record: &mut UnitRecord, readiness: Readiness, now: Option<i64>, now_realtime: Option<i64>) -> (r:
    bool)
    ensures
        r == (readiness != Readiness::Pending),
        final(record)@ == if readiness == Readiness::Ready && watchdog_interval(old(record).loaded) is Some {
            watchdog_fed(old(record)@, now, now_realtime)
        } else {
            old(record)@
        },
{
    if readiness == Readiness::Ready && watchdog_interval_ns(record).is_some() {
        record.watchdog_timestamp_ns = now;
        record.watchdog_timestamp_realtime_ns = now_realtime;
        record.watchdog_triggered = false;
    }
    readiness != Readiness::Pending
}

/// Whether a unit has missed its watchdog: it has one, was fed once, has a
/// main process, and the interval has passed.
pub open spec fn watchdog_expired(r: RecordView, now: i64) -> bool {
    match (watchdog_interval(r.loaded), r.watchdog_timestamp_ns) {
        (Some(interval), Some(last)) => !r.watchdog_triggered && r.active_pid is Some && elapsed(now, last) >= interval,
        _ => false,
    }
}

/// A record after its watchdog fired.
pub open spec fn watchdog_fired(r: RecordView) -> RecordView {
    RecordView {
        watchdog_triggered: true,
        status_text: Some("Watchdog timeout"@),
        service_result: "watchdog"@,
        stop_requested: false,
        state: UnitState::Deactivating,
        ..r
    }
}

/// Fire the watchdog of a unit that missed it. Whether it fired.
pub fn expire_watchdog(record: &mut UnitRecord, now: i64) -> (r: bool)
    ensures
        r == watchdog_expired(old(record)@, now),
        final(record)@ == if r {
            watchdog_fired(old(record)@)
        } else {
            old(record)@
        },
{
    if record.watchdog_triggered || record.active_pid.is_none() {
        return false;
    }
    let interval: i64 = match watchdog_interval_ns(record) {
        Some(interval) => interval,
        None => return false,
    };
    let last: i64 = match record.watchdog_timestamp_ns {
        Some(last) => last,
        None => return false,
    };
    if elapsed_ns(now, last) < interval {
        return false;
    }
    record.watchdog_triggered = true;
    record.status_text = Some("Watchdog timeout".to_owned());
    record.service_result = "watchdog".to_owned();
    record.stop_requested = false;
    record.state = UnitState::Deactivating;
    true
}

/// A watchdog fires once: not again until the service is fed again.
pub proof fn law_watchdog_fires_once(r: RecordView, now: i64, later: i64)
    requires
        watchdog_expired(r, now),
    ensures
        !watchdog_expired(watchdog_fired(r), later),
{
}

/// A record whose service ran out of time.
pub open spec fn timed_out(r: RecordView, result: Seq<char>) -> RecordView {
    RecordView {
        service_result: result,
        stop_requested: false,
        state: UnitState::Deactivating,
        watchdog_timestamp_ns: None,
        watchdog_timestamp_realtime_ns: None,
        ..r
    }
}

/// Mark a service as going down because it ran out of time.
pub fn mark_timeout_deactivating(record: &mut UnitRecord, result: &str)
    ensures
        final(record)@ == timed_out(old(record)@, result@),
{
    record.service_result = result.to_owned();
    record.stop_requested = false;
    record.state = UnitState::Deactivating;
    record.watchdog_timestamp_ns = None;
    record.watchdog_timestamp_realtime_ns = None;
}

/// Whether a forking service has announced its main process in a file that is
/// not there yet: it is on its way up, and neither its control process nor its
/// main process is known.
pub open spec fn pid_file_pending(r: RecordView) -> bool {
    match service_of(r.loaded) {
        Some(section) => section.service_type == ServiceType::Forking && section.pid_file@.len() > 0 && r.state
            == UnitState::Activating && r.control_pid is None && r.active_pid is None,
        None => false,
    }
}

/// Whether a forking service has announced its main process in a file that is
/// not there yet.
pub fn forking_pid_file_pending(record: &UnitRecord) -> (r: bool)
    ensures
        r == pid_file_pending(record@),
{
    match &record.loaded {
        LoadedUnit::Service(service) => service.specific.service_type == ServiceType::Forking
            && !service.specific.pid_file.as_str().is_empty() && record.state == UnitState::Activating
            && record.control_pid.is_none() && record.active_pid.is_none(),
        _ => false,
    }
}

/// The word for the type of a unit.
pub open spec fn unit_type_name(loaded: LoadedUnit) -> Seq<char> {
    match loaded {
        LoadedUnit::Service(_) => "service"@,
        LoadedUnit::Socket(_) => "socket"@,
        LoadedUnit::Automount(_) => "automount"@,
        LoadedUnit::Timer(_) => "timer"@,
        LoadedUnit::Path(_) => "path"@,
        LoadedUnit::Mount(_) => "mount"@,
        LoadedUnit::Swap(_) => "swap"@,
        LoadedUnit::Target(_) => "target"@,
        LoadedUnit::Slice(_) => "slice"@,
        LoadedUnit::Scope(_) => "scope"@,
    }
}

/// The word for a service type.
pub open spec fn service_type_name(service_type: ServiceType) -> Seq<char> {
    match service_type {
        ServiceType::Simple => "simple"@,
        ServiceType::Exec => "exec"@,
        ServiceType::Forking => "forking"@,
        ServiceType::Oneshot => "oneshot"@,
        ServiceType::Dbus => "dbus"@,
        ServiceType::Notify => "notify"@,
        ServiceType::NotifyReload => "notify-reload"@,
        ServiceType::Idle => "idle"@,
    }
}

/// The word for a restart policy.
pub open spec fn restart_policy_name(policy: RestartPolicy) -> Seq<char> {
    match policy {
        RestartPolicy::No => "no"@,
        RestartPolicy::OnSuccess => "on-success"@,
        RestartPolicy::OnFailure => "on-failure"@,
        RestartPolicy::OnAbnormal => "on-abnormal"@,
        RestartPolicy::OnWatchdog => "on-watchdog"@,
        RestartPolicy::OnAbort => "on-abort"@,
        RestartPolicy::Always => "always"@,
    }
}

fn unit_type_word(loaded: &LoadedUnit) -> (r: &'static str)
    ensures
        r@ == unit_type_name(*loaded),
{
    match loaded {
        LoadedUnit::Service(_) => "service",
        LoadedUnit::Socket(_) => "socket",
        LoadedUnit::Automount(_) => "automount",
        LoadedUnit::Timer(_) => "timer",
        LoadedUnit::Path(_) => "path",
        LoadedUnit::Mount(_) => "mount",
        LoadedUnit::Swap(_) => "swap",
        LoadedUnit::Target(_) => "target",
        LoadedUnit::Slice(_) => "slice",
        LoadedUnit::Scope(_) => "scope",
    }
}

fn service_type_word(service_type: ServiceType) -> (r: &'static str)
    ensures
        r@ == service_type_name(service_type),
{
    match service_type {
        ServiceType::Simple => "simple",
        ServiceType::Exec => "exec",
        ServiceType::Forking => "forking",
        ServiceType::Oneshot => "oneshot",
        ServiceType::Dbus => "dbus",
        ServiceType::Notify => "notify",
        ServiceType::NotifyReload => "notify-reload",
        ServiceType::Idle => "idle",
    }
}

fn restart_policy_word(policy: RestartPolicy) -> (r: &'static str)
    ensures
        r@ == restart_policy_name(policy),
{
    match policy {
        RestartPolicy::No => "no",
        RestartPolicy::OnSuccess => "on-success",
        RestartPolicy::OnFailure => "on-failure",
        RestartPolicy::OnAbnormal => "on-abnormal",
        RestartPolicy::OnWatchdog => "on-watchdog",
        RestartPolicy::OnAbort => "on-abort",
        RestartPolicy::Always => "always",
    }
}

/// Whether a dynamic user is shown as it is.
pub open spec fn shows_user(info: Option<DynamicUserInfo>, user: Option<DynamicUser>) -> bool {
    match (info, user) {
        (Some(info), Some(user)) => info.uid == user.uid && info.name@ == user.name@,
        (None, None) => true,
        _ => false,
    }
}

/// Whether the runtime information shows a record.
pub open spec fn shows_runtime(info: ServiceRuntimeInfo, r: RecordView) -> bool {
    &&& info.invocation_id == r.invocation_id
    &&& info.restart_count == r.restart_count
    &&& text::opt_view(info.bus_name) == (match service_of(r.loaded) {
        Some(section) => if section.bus_name@.len() == 0 {
            None
        } else {
            Some(section.bus_name@)
        },
        None => None,
    })
    &&& info.control_pid == r.control_pid
    &&& text::opt_view(info.status_text) == r.status_text
    &&& info.status_errno == r.status_errno
    &&& info.watchdog_timestamp_ns == r.watchdog_timestamp_ns
    &&& info.watchdog_timestamp_realtime_ns == r.watchdog_timestamp_realtime_ns
    &&& info.exec_main_start_realtime_ns == r.exec_main_start_realtime_ns
    &&& info.exec_main_start_monotonic_ns == r.exec_main_start_monotonic_ns
    &&& info.exec_main_exit_realtime_ns == r.exec_main_exit_realtime_ns
    &&& info.exec_main_exit_monotonic_ns == r.exec_main_exit_monotonic_ns
    &&& info.result@ == r.service_result
    &&& info.exec_main_code == r.exec_main_code
    &&& info.exec_main_status == r.exec_main_status
    &&& shows_user(info.dynamic_user, r.dynamic_user)
    &&& info.file_descriptor_store_max == (match service_of(r.loaded) {
        Some(section) => section.file_descriptor_store_max,
        None => 0,
    })
}

/// Whether the information about a unit shows its record.
pub open spec fn shows(info: UnitInfo, r: RecordView) -> bool {
    &&& info.name@ == r.loaded.id()
    &&& info.load_state@ == "loaded"@
    &&& info.active_state@ == r.state.name()
    &&& info.sub_state@ == r.state.name()
    &&& info.description@ == r.loaded.section().description@
    &&& info.main_pid == r.active_pid
    &&& info.unit_type@ == unit_type_name(r.loaded)
    &&& text::opt_view(info.service_type) == (match service_of(r.loaded) {
        Some(section) => Some(service_type_name(section.service_type)),
        None => None,
    })
    &&& text::opt_view(info.restart_policy) == (match service_of(r.loaded) {
        Some(section) => Some(restart_policy_name(section.restart)),
        None => None,
    })
    &&& shows_runtime(*info.service_runtime, r)
}

/// The information about a unit that clients see.
pub fn unit_record_to_info(r: &UnitRecord) -> (info: UnitInfo)
    ensures
        shows(info, r@),
{
    let mut service_type: Option<String> = None;
    let mut restart_policy: Option<String> = None;
    let mut bus_name: Option<String> = None;
    let mut store_max: u32 = 0;
    if let LoadedUnit::Service(service) = &r.loaded {
        service_type = Some(service_type_word(service.specific.service_type).to_owned());
        restart_policy = Some(restart_policy_word(service.specific.restart).to_owned());
        if !service.specific.bus_name.as_str().is_empty() {
            bus_name = Some(service.specific.bus_name.clone());
        }
        store_max = service.specific.file_descriptor_store_max;
    }
    let dynamic_user = match &r.dynamic_user {
        Some(user) => Some(DynamicUserInfo { uid: user.uid, name: user.name.clone() }),
        None => None,
    };
    UnitInfo {
        name: r.loaded.name().clone(),
        load_state: "loaded".to_owned(),
        active_state: r.state.as_str().to_owned(),
        sub_state: r.state.as_str().to_owned(),
        description: r.loaded.unit_section().description.clone(),
        main_pid: r.active_pid,
        unit_type: unit_type_word(&r.loaded).to_owned(),
        service_type,
        restart_policy,
        service_runtime: Box::new(
            ServiceRuntimeInfo {
                invocation_id: r.invocation_id,
                restart_count: r.restart_count,
                bus_name,
                control_pid: r.control_pid,
                status_text: copy_option(&r.status_text),
                status_errno: r.status_errno,
                watchdog_timestamp_ns: r.watchdog_timestamp_ns,
                watchdog_timestamp_realtime_ns: r.watchdog_timestamp_realtime_ns,
                exec_main_start_realtime_ns: r.exec_main_start_realtime_ns,
                exec_main_start_monotonic_ns: r.exec_main_start_monotonic_ns,
                exec_main_exit_realtime_ns: r.exec_main_exit_realtime_ns,
                exec_main_exit_monotonic_ns: r.exec_main_exit_monotonic_ns,
                result: r.service_result.clone(),
                exec_main_code: r.exec_main_code,
                exec_main_status: r.exec_main_status,
                dynamic_user,
                file_descriptor_store_max: store_max,
            },
        ),
    }
}

/// Whether a record stands for another where a target looks at what it depends
/// on: of the same name, state and outcome, with nothing of its settings and
/// processes.
pub open spec fn stands_for(snapshot: RecordView, r: RecordView) -> bool {
    &&& snapshot.loaded is Target
    &&& snapshot.loaded.id() == r.loaded.id()
    &&& snapshot.loaded.section().is_default()
    &&& snapshot == (RecordView {
        state: r.state,
        status_text: r.status_text,
        status_errno: r.status_errno,
        watchdog_timestamp_ns: r.watchdog_timestamp_ns,
        watchdog_timestamp_realtime_ns: r.watchdog_timestamp_realtime_ns,
        exec_main_start_realtime_ns: r.exec_main_start_realtime_ns,
        exec_main_start_monotonic_ns: r.exec_main_start_monotonic_ns,
        exec_main_exit_realtime_ns: r.exec_main_exit_realtime_ns,
        exec_main_exit_monotonic_ns: r.exec_main_exit_monotonic_ns,
        watchdog_triggered: r.watchdog_triggered,
        service_result: r.service_result,
        exec_main_code: r.exec_main_code,
        exec_main_status: r.exec_main_status,
        ..fresh(snapshot.loaded)
    })
}

/// A record that stands for another where a target looks at what it depends
/// on.
pub fn target_dependency_snapshot(record: &UnitRecord) -> (r: UnitRecord)
    ensures
        stands_for(r@, record@),
{
    let mut snapshot = UnitRecord::new(
        LoadedUnit::Target(
            ParsedUnit { name: record.loaded.name().clone(), unit: UnitSection::default(), specific: () },
        ),
    );
    snapshot.state = record.state;
    snapshot.status_text = copy_option(&record.status_text);
    snapshot.status_errno = record.status_errno;
    snapshot.watchdog_timestamp_ns = record.watchdog_timestamp_ns;
    snapshot.watchdog_timestamp_realtime_ns = record.watchdog_timestamp_realtime_ns;
    snapshot.exec_main_start_realtime_ns = record.exec_main_start_realtime_ns;
    snapshot.exec_main_start_monotonic_ns = record.exec_main_start_monotonic_ns;
    snapshot.exec_main_exit_realtime_ns = record.exec_main_exit_realtime_ns;
    snapshot.exec_main_exit_monotonic_ns = record.exec_main_exit_monotonic_ns;
    snapshot.watchdog_triggered = record.watchdog_triggered;
    snapshot.service_result = record.service_result.clone();
    snapshot.exec_main_code = record.exec_main_code;
    snapshot.exec_main_status = record.exec_main_status;
    snapshot
}

/// Every keep-alive of a service with a watchdog feeds it, unless the service
/// says that it stops: whatever was noted before, the watchdog counts from the
/// keep-alive on. It has not expired before the interval has passed since, and
/// has from then on while there is a main process.
pub proof fn law_each_keep_alive_feeds_the_watchdog(
    r: RecordView,
    message: NotifyMessage,
    now: i64,
    now_realtime: Option<i64>,
    interval: u128,
    later: i64,
)
    requires
        r.loaded matches LoadedUnit::Service(service) && service.specific.watchdog_sec == Some(interval),
        message.watchdog,
        !message.stopping,
    ensures
        ({
            let after = notified(r, message, Some(now), now_realtime);
            &&& after.watchdog_timestamp_ns == Some(now)
            &&& after.watchdog_timestamp_realtime_ns == now_realtime
            &&& !after.watchdog_triggered
            &&& later - now < interval && later - now < i64::MAX ==> !watchdog_expired(after, later)
            &&& later - now >= interval && after.active_pid is Some ==> watchdog_expired(after, later)
        }),
{
}

/// A notification changes nothing but what it speaks of: the status, the error
/// number, a main process other than the one that is known, the watchdog of a
/// service that has one, and the state of a service that stops while it is up
/// or on its way up, whose watchdog then rests.
pub proof fn law_notifications_change_what_they_speak_of(
    r: RecordView,
    message: NotifyMessage,
    now: Option<i64>,
    now_realtime: Option<i64>,
)
    ensures
        ({
            let after = notified(r, message, now, now_realtime);
            let stops = message.stopping && (r.state is Active || r.state is Activating);
            let has_watchdog = r.loaded is Service && r.loaded->Service_0.specific.watchdog_sec is Some;
            &&& after == (RecordView {
                state: after.state,
                active_pid: after.active_pid,
                status_text: after.status_text,
                status_errno: after.status_errno,
                watchdog_timestamp_ns: after.watchdog_timestamp_ns,
                watchdog_timestamp_realtime_ns: after.watchdog_timestamp_realtime_ns,
                watchdog_triggered: after.watchdog_triggered,
                ..r
            })
            &&& after.status_text == (if message.status is Some { Some(message.status->0@) } else { r.status_text })
            &&& after.status_errno == (if message.errno is Some { message.errno } else { r.status_errno })
            &&& message.main_pid is None || message.main_pid->0 <= 0 ==> after.active_pid == r.active_pid
            &&& message.main_pid is Some && message.main_pid->0 > 0 ==> after.active_pid == message.main_pid
            &&& stops ==> after.state is Deactivating && after.watchdog_timestamp_ns is None
                && after.watchdog_timestamp_realtime_ns is None && !after.watchdog_triggered
            &&& !stops ==> after.state == r.state
            &&& !stops && !(message.watchdog && has_watchdog) ==> after.watchdog_timestamp_ns == r.watchdog_timestamp_ns
                && after.watchdog_timestamp_realtime_ns == r.watchdog_timestamp_realtime_ns && after.watchdog_triggered
                == r.watchdog_triggered
        }),
{
}

/// What a notification asks for. A start is completed that is under way, unless
/// the service stops. One that stops while it is up or on its way up need no
/// longer start in time, and must stop in time where it has a process. A main
/// process is announced that is new.
pub proof fn law_notifications_ask_for_what_they_say(
    r: RecordView,
    message: NotifyMessage,
    now: Option<i64>,
    now_realtime: Option<i64>,
    default_secs: u64,
)
    ensures
        ({
            let asked = notify_effects(r, message, now, now_realtime, default_secs);
            let stops = message.stopping && (r.state is Active || r.state is Activating);
            let named = message.main_pid is Some && message.main_pid->0 > 0;
            let has_process = named || r.active_pid is Some || r.control_pid is Some;
            &&& asked.ready <==> message.ready && r.state is Activating && !message.stopping
            &&& asked.cancel_start_timeout <==> stops
            &&& asked.stop_timeout is Some <==> stops && has_process
            &&& stops && has_process && !(r.loaded is Service && r.loaded->Service_0.specific.timeout_stop_sec is Some)
                ==> asked.stop_timeout->0 == default_secs * 1_000_000_000
            &&& stops && has_process && r.loaded is Service && r.loaded->Service_0.specific.timeout_stop_sec is Some
                ==> asked.stop_timeout == r.loaded->Service_0.specific.timeout_stop_sec
            &&& asked.pid_change is Some <==> named && r.active_pid != message.main_pid
            &&& asked.pid_change is Some ==> asked.pid_change == Some((r.active_pid, message.main_pid->0))
        }),
{
    assert(default_secs * 1_000_000_000 <= u64::MAX * 1_000_000_000) by (nonlinear_arith)
        requires
            default_secs <= u64::MAX,
    ;
}

/// A watchdog has expired exactly when the service has one that was fed and has
/// not fired, there is a main process, and the interval has passed since it was
/// fed. When it fires, the service goes down with that as its result, not on
/// request.
pub proof fn law_a_watchdog_expires_when_its_interval_has_passed(r: RecordView, now: i64)
    ensures
        watchdog_expired(r, now) ==> {
            &&& r.loaded is Service
            &&& r.loaded->Service_0.specific.watchdog_sec is Some
            &&& r.watchdog_timestamp_ns is Some
            &&& r.active_pid is Some
            &&& !r.watchdog_triggered
            &&& now - r.watchdog_timestamp_ns->0 >= r.loaded->Service_0.specific.watchdog_sec->0 || now - r.watchdog_timestamp_ns->0
                >= i64::MAX
        },
        r.loaded is Service && r.loaded->Service_0.specific.watchdog_sec is Some && r.watchdog_timestamp_ns is Some
            && r.active_pid is Some && !r.watchdog_triggered && now - r.watchdog_timestamp_ns->0
            >= r.loaded->Service_0.specific.watchdog_sec->0 ==> watchdog_expired(r, now),
        watchdog_fired(r) == (RecordView {
            watchdog_triggered: true,
            status_text: watchdog_fired(r).status_text,
            service_result: watchdog_fired(r).service_result,
            stop_requested: false,
            state: UnitState::Deactivating,
            ..r
        }),
        watchdog_fired(r).service_result == "watchdog"@,
        watchdog_fired(r).status_text == Some("Watchdog timeout"@),
{
}

/// A service that ran out of time goes down, not on request, with the given
/// result and its watchdog unfed; nothing else of it changes.
pub proof fn law_running_out_of_time_takes_a_service_down(r: RecordView, result: Seq<char>, now: i64)
    ensures
        timed_out(r, result).state is Deactivating,
        !timed_out(r, result).stop_requested,
        timed_out(r, result).service_result == result,
        !watchdog_expired(timed_out(r, result), now),
        timed_out(r, result) == (RecordView {
            state: UnitState::Deactivating,
            stop_requested: false,
            service_result: result,
            watchdog_timestamp_ns: None,
            watchdog_timestamp_realtime_ns: None,
            ..r
        }),
{
}

/// Who may notify: whoever is named; the main process where nobody is and the
/// service has a watchdog or says itself when it is ready; else nobody.
pub proof fn law_who_may_notify(section: ServiceSection)
    ensures
        section.notify_access != NotifyAccess::Nobody ==> notify_access_of(section) == Some(section.notify_access),
        section.notify_access == NotifyAccess::Nobody ==> {
            &&& notify_access_of(section) == Some(NotifyAccess::Main) <==> section.watchdog_sec is Some || section.service_type is Notify
                || section.service_type is NotifyReload
            &&& notify_access_of(section) is None <==> !(section.watchdog_sec is Some || section.service_type is Notify
                || section.service_type is NotifyReload)
        },
{
}

/// Clearing a failure takes a failed unit down and leaves the state of any
/// other alone. It forgets the restarts and starts that were counted and how
/// the last run ended, and nothing else. To clear twice is to clear once.
pub proof fn law_clearing_a_failure(r: RecordView)
    ensures
        r.state is Failed || r.state is Maintenance ==> failure_cleared(r).state is Inactive,
        !(r.state is Failed || r.state is Maintenance) ==> failure_cleared(r).state == r.state,
        failure_cleared(failure_cleared(r)) == failure_cleared(r),
        failure_cleared(r).service_result == "success"@,
        failure_cleared(r) == (RecordView {
            state: failure_cleared(r).state,
            service_result: failure_cleared(r).service_result,
            restart_count: 0,
            last_start_ns: 0,
            start_limit_window_ns: 0,
            start_limit_count: 0,
            watchdog_triggered: false,
            exec_main_code: 0,
            exec_main_status: 0,
            ..r
        }),
{
}

/// A control group is kept for a unit that is on its way, has failed or has a
/// process, and for no other.
pub proof fn law_which_control_groups_are_kept(r: RecordView)
    ensures
        !keeps_cgroup(r) <==> (r.state is Active || r.state is Inactive) && r.active_pid is None && r.control_pid is None,
{
}

/// Without a maximum every restart waits for the configured time, a tenth of a
/// second where none is. With one, the first restart waits for the configured
/// time, those after the last step for the maximum, and those between on a
/// geometric scale between the two, each a step further than the one before.
pub proof fn law_restarts_wait_longer_up_to_the_maximum(section: ServiceSection, n: u32)
    ensures
        ({
            let initial: u128 = if section.restart_sec is Some { section.restart_sec->0 } else { 100_000_000 };
            let grows = section.restart_max_delay_sec is Some && section.restart_steps is Some && section.restart_steps->0 > 0
                && 0 < initial < section.restart_max_delay_sec->0;
            &&& !grows || n <= 1 ==> restart_delay(section, n) == RestartDelay::Fixed(initial)
            &&& grows && n > 1 && n > section.restart_steps->0 ==> restart_delay(section, n) == RestartDelay::Fixed(
                section.restart_max_delay_sec->0,
            )
            &&& grows && 1 < n <= section.restart_steps->0 ==> {
                &&& restart_delay(section, n) is Geometric
                &&& restart_delay(section, n)->initial == initial
                &&& restart_delay(section, n)->maximum == section.restart_max_delay_sec->0
                &&& restart_delay(section, n)->step + 1 == n
                &&& restart_delay(section, n)->steps == section.restart_steps->0
            }
        }),
{
}

/// No restart where none is asked for, or of a unit that is no service: nothing
/// changes then. A restart is counted, and changes nothing but the counts and
/// the window of starts. A service that may not start again fails with that as
/// its result, and its restart is not counted.
pub proof fn law_restarts_are_counted(r: RecordView, asked: bool, now_ns: i64)
    ensures
        ({
            let (after, delay) = restarted_at(r, asked, now_ns);
            &&& !asked || !(r.loaded is Service) ==> after == r && delay is None
            &&& after == (RecordView {
                state: after.state,
                service_result: after.service_result,
                restart_count: after.restart_count,
                start_limit_window_ns: after.start_limit_window_ns,
                start_limit_count: after.start_limit_count,
                ..r
            })
            &&& delay is Some ==> after.state == r.state && after.service_result == r.service_result && (r.restart_count
                < u32::MAX ==> after.restart_count == r.restart_count + 1) && delay->0 == restart_delay(
                r.loaded->Service_0.specific,
                after.restart_count,
            )
            &&& asked && r.loaded is Service && delay is None ==> after.state is Failed && after.service_result
                == "start-limit-hit"@ && after.restart_count == r.restart_count
        }),
{
}

/// Starts in one window are counted, and those beyond the burst refused; five
/// in ten seconds where the unit does not say. A window is over once its
/// interval has passed, and a new one begins with the next start. A burst or an
/// interval of zero limits nothing.
pub proof fn law_starts_in_a_window_are_limited(r: RecordView, now_ns: i64)
    requires
        r.loaded is Service,
    ensures
        ({
            let section = r.loaded.section();
            let burst: u32 = if section.start_limit_burst is Some { section.start_limit_burst->0 } else { 5 };
            let interval: u128 = if section.start_limit_interval_sec is Some {
                section.start_limit_interval_sec->0
            } else {
                10_000_000_000
            };
            let (after, delay) = restarted_at(r, true, now_ns);
            let over = r.start_limit_window_ns == 0 || now_ns - r.start_limit_window_ns >= interval;
            let within = r.start_limit_window_ns != 0 && now_ns - r.start_limit_window_ns < interval && now_ns
                - r.start_limit_window_ns < i64::MAX;
            &&& burst == 0 || interval == 0 ==> delay is Some && after.start_limit_count == r.start_limit_count
                && after.start_limit_window_ns == r.start_limit_window_ns
            &&& burst > 0 && interval > 0 && over ==> delay is Some && after.start_limit_count == 1
                && after.start_limit_window_ns == now_ns
            &&& burst > 0 && interval > 0 && within && r.start_limit_count < burst ==> delay is Some && after.start_limit_count
                == r.start_limit_count + 1 && after.start_limit_window_ns == r.start_limit_window_ns
            &&& 0 < burst < u32::MAX && interval > 0 && within && r.start_limit_count >= burst ==> delay is None
                && after.start_limit_count == r.start_limit_count && after.start_limit_window_ns == r.start_limit_window_ns
        }),
{
}

/// A forking service is waited for while it is on its way up, names a file, and
/// has no process that is known.
pub proof fn law_when_a_process_file_is_awaited(r: RecordView)
    ensures
        pid_file_pending(r) <==> {
            &&& r.loaded is Service
            &&& r.loaded->Service_0.specific.service_type is Forking
            &&& r.loaded->Service_0.specific.pid_file@ != Seq::<char>::empty()
            &&& r.state is Activating
            &&& r.active_pid is None
            &&& r.control_pid is None
        },
{
    if r.loaded is Service {
        let file = r.loaded->Service_0.specific.pid_file@;
        assert(file.len() == 0 ==> file =~= Seq::empty());
    }
}

/// A stop waits for the main process, else for the control process; as long as
/// the service says, else as long as the manager does.
pub proof fn law_what_a_stop_waits_for(r: RecordView, default_secs: u64)
    ensures
        r.active_pid is Some ==> tracked_pid(r) == r.active_pid,
        r.active_pid is None ==> tracked_pid(r) == r.control_pid,
        r.loaded is Service && r.loaded->Service_0.specific.timeout_stop_sec is Some ==> Some(stop_timeout(r.loaded, default_secs))
            == r.loaded->Service_0.specific.timeout_stop_sec,
        !(r.loaded is Service && r.loaded->Service_0.specific.timeout_stop_sec is Some) ==> stop_timeout(r.loaded, default_secs)
            == default_secs * 1_000_000_000,
{
    assert(default_secs * 1_000_000_000 <= u64::MAX * 1_000_000_000) by (nonlinear_arith)
        requires
            default_secs <= u64::MAX,
    ;
}

/// What clients see of a unit is what its record holds.
pub proof fn law_clients_see_the_record(info: UnitInfo, r: RecordView)
    requires
        shows(info, r),
    ensures
        info.name@ == r.loaded.id(),
        info.load_state@ == "loaded"@,
        info.active_state@ == r.state.name(),
        info.sub_state@ == r.state.name(),
        info.description@ == r.loaded.section().description@,
        info.main_pid == r.active_pid,
        info.service_type is Some <==> r.loaded is Service,
        info.restart_policy is Some <==> r.loaded is Service,
        info.service_runtime.control_pid == r.control_pid,
        info.service_runtime.invocation_id == r.invocation_id,
        info.service_runtime.restart_count == r.restart_count,
        info.service_runtime.status_errno == r.status_errno,
        text::opt_view(info.service_runtime.status_text) == r.status_text,
        info.service_runtime.watchdog_timestamp_ns == r.watchdog_timestamp_ns,
        info.service_runtime.watchdog_timestamp_realtime_ns == r.watchdog_timestamp_realtime_ns,
        info.service_runtime.exec_main_start_realtime_ns == r.exec_main_start_realtime_ns,
        info.service_runtime.exec_main_start_monotonic_ns == r.exec_main_start_monotonic_ns,
        info.service_runtime.exec_main_exit_realtime_ns == r.exec_main_exit_realtime_ns,
        info.service_runtime.exec_main_exit_monotonic_ns == r.exec_main_exit_monotonic_ns,
        info.service_runtime.result@ == r.service_result,
        info.service_runtime.exec_main_code == r.exec_main_code,
        info.service_runtime.exec_main_status == r.exec_main_status,
        info.service_runtime.dynamic_user is Some <==> r.dynamic_user is Some,
        r.dynamic_user is Some ==> info.service_runtime.dynamic_user->0.uid == r.dynamic_user->0.uid
            && info.service_runtime.dynamic_user->0.name@ == r.dynamic_user->0.name@,
        r.loaded is Service && r.loaded->Service_0.specific.bus_name@.len() > 0 ==> text::opt_view(info.service_runtime.bus_name) == Some(
            r.loaded->Service_0.specific.bus_name@,
        ),
        !(r.loaded is Service) || r.loaded->Service_0.specific.bus_name@.len() == 0 ==> info.service_runtime.bus_name is None,
        r.loaded is Service ==> info.service_runtime.file_descriptor_store_max == r.loaded->Service_0.specific.file_descriptor_store_max,
        !(r.loaded is Service) ==> info.service_runtime.file_descriptor_store_max == 0,
{
}

/// The words for the types of units.
pub proof fn law_words_for_unit_types(loaded: LoadedUnit)
    ensures
        loaded is Service ==> unit_type_name(loaded) == "service"@,
        loaded is Socket ==> unit_type_name(loaded) == "socket"@,
        loaded is Automount ==> unit_type_name(loaded) == "automount"@,
        loaded is Timer ==> unit_type_name(loaded) == "timer"@,
        loaded is Path ==> unit_type_name(loaded) == "path"@,
        loaded is Mount ==> unit_type_name(loaded) == "mount"@,
        loaded is Swap ==> unit_type_name(loaded) == "swap"@,
        loaded is Target ==> unit_type_name(loaded) == "target"@,
        loaded is Slice ==> unit_type_name(loaded) == "slice"@,
        loaded is Scope ==> unit_type_name(loaded) == "scope"@,
{
}

/// The words for the types of services and for when they restart.
pub proof fn law_words_for_services(service_type: ServiceType, policy: RestartPolicy)
    ensures
        service_type is Simple ==> service_type_name(service_type) == "simple"@,
        service_type is Exec ==> service_type_name(service_type) == "exec"@,
        service_type is Forking ==> service_type_name(service_type) == "forking"@,
        service_type is Oneshot ==> service_type_name(service_type) == "oneshot"@,
        service_type is Dbus ==> service_type_name(service_type) == "dbus"@,
        service_type is Notify ==> service_type_name(service_type) == "notify"@,
        service_type is NotifyReload ==> service_type_name(service_type) == "notify-reload"@,
        service_type is Idle ==> service_type_name(service_type) == "idle"@,
        policy is No ==> restart_policy_name(policy) == "no"@,
        policy is OnSuccess ==> restart_policy_name(policy) == "on-success"@,
        policy is OnFailure ==> restart_policy_name(policy) == "on-failure"@,
        policy is OnAbnormal ==> restart_policy_name(policy) == "on-abnormal"@,
        policy is OnWatchdog ==> restart_policy_name(policy) == "on-watchdog"@,
        policy is OnAbort ==> restart_policy_name(policy) == "on-abort"@,
        policy is Always ==> restart_policy_name(policy) == "always"@,
{
}

/// What stands for a unit where a target looks at it has its name, its state
/// and how it ended, and neither its settings nor its processes.
pub proof fn law_what_stands_for_a_unit(snapshot: RecordView, r: RecordView)
    requires
        stands_for(snapshot, r),
    ensures
        snapshot.loaded is Target,
        snapshot.loaded.id() == r.loaded.id(),
        snapshot.state == r.state,
        snapshot.service_result == r.service_result,
        snapshot.exec_main_code == r.exec_main_code,
        snapshot.exec_main_status == r.exec_main_status,
        snapshot.status_text == r.status_text,
        snapshot.status_errno == r.status_errno,
        snapshot.watchdog_triggered == r.watchdog_triggered,
        snapshot.active_pid is None,
        snapshot.control_pid is None,
        !snapshot.stop_requested,
        snapshot.loaded->Target_0.unit.requires@.len() == 0,
        snapshot.loaded->Target_0.unit.wants@.len() == 0,
        snapshot.loaded->Target_0.unit.after@.len() == 0,
{
}

/// A dynamic user is shown with number and name, and none where there is none.
pub proof fn law_how_dynamic_users_are_shown(info: Option<DynamicUserInfo>, user: Option<DynamicUser>)
    ensures
        shows_user(info, user) <==> (info is None && user is None) || (info is Some && user is Some && info->0.uid == user->0.uid && info->0.name@
            == user->0.name@),
{
}

} // verus!
