use rustd::dynamic_user::{Allocation, AllocationStep, LockResult, DYNAMIC_UID_MIN};
use rustd::event::loop_::LoopResult;
use rustd::event::source::SourceId;
use rustd::job::{JobKind, JobResult};
use rustd::kill_context::KillOperation;
use rustd::manager::deadlines::{after_signal, AfterSignal, DeadlineAction, ServiceTimeoutPhase};
use rustd::manager::dispatch::{JobAction, JobError, RestartStep};
use rustd::manager::exits::{NotifyPid, OomAction, OomPolicy};
use rustd::manager::jobs::{immediate_job_result, isolate_job_result, settled_job_result};
use rustd::manager::lifecycle::LifecycleStep;
use rustd::manager::properties::{
    classify_load_error, failed_step, has_resource_control, validate_set_unit_properties, LoadFailure, PropertyStep,
    SetUnitPropertiesError, SetUnitProperty,
};
use rustd::manager::records::{
    automatic_restart_delay_at, effective_notify_access, expire_watchdog, forking_pid_file_pending,
    reset_failed_record, restart_delay_for, unit_cgroup_must_remain_realized, unit_record_to_info, NotifyMessage,
    Readiness, RestartDelay,
};
use rustd::manager::requests::{JobSignal, UnitLoadRequest};
use rustd::manager::services::{triggered_service_name, CgroupOutcome, CgroupUse, StopStep};
use rustd::manager::transactions::TransactionError;
use rustd::manager::turn::{Outcome, Turn, Work};
use rustd::manager::{DualTimestamp, Manager, ShutdownAction, SocketRecord};
use rustd::names::NameMap;
use rustd::service::UnitRecord;
use rustd::unit::{
    KillMode, LoadedUnit, NotifyAccess, ParsedUnit, ServiceSection, ServiceType, SocketSection, UnitSection, UnitState,
};

const SECOND: u128 = 1_000_000_000;

fn manager() -> Manager {
    Manager::new(1_000, 90, 90)
}

fn plain<S>(name: &str, specific: S) -> ParsedUnit<S> {
    ParsedUnit {
        name: name.to_owned(),
        unit: UnitSection::default(),
        specific,
    }
}

fn service(name: &str, specific: ServiceSection) -> LoadedUnit {
    LoadedUnit::Service(plain(name, specific))
}

fn simple(name: &str) -> LoadedUnit {
    service(name, ServiceSection::default())
}

fn target(name: &str, wants: &[&str]) -> LoadedUnit {
    LoadedUnit::Target(ParsedUnit {
        name: name.to_owned(),
        unit: UnitSection {
            wants: wants.iter().map(|s| (*s).to_owned()).collect(),
            allow_isolate: true,
            ..UnitSection::default()
        },
        specific: (),
    })
}

fn add(manager: &mut Manager, loaded: LoadedUnit, state: UnitState) {
    let name = loaded.name().clone();
    let mut record = UnitRecord::new(loaded);
    record.state = state;
    manager.units.insert(name, record);
}

fn id(n: u32) -> SourceId {
    SourceId::new(n).unwrap()
}

fn stamp(n: i64) -> DualTimestamp {
    DualTimestamp {
        realtime_ns: n,
        monotonic_ns: n + 1,
    }
}

#[test]
fn manager_new_succeeds() {
    let m = manager();
    assert!(m.units.is_empty());
    assert!(m.is_idle(false));
    assert!(!m.is_idle(true));
}

#[test]
fn daemon_reload_increments_the_shared_reload_counter() {
    let mut manager = manager();
    assert_eq!(manager.lifecycle.reload_count, 0);

    manager.lifecycle.reload_requested = true;
    assert!(manager.begin_reload(stamp(5)));
    assert_eq!(manager.lifecycle.reload_count, 1);
    assert!(!manager.begin_reload(stamp(6)));

    manager.lifecycle.reload_requested = true;
    assert!(manager.begin_reload(stamp(7)));
    assert_eq!(manager.lifecycle.reload_count, 2);

    manager.lifecycle.reload_count = u64::MAX;
    manager.lifecycle.reload_requested = true;
    assert!(manager.begin_reload(stamp(8)));
    assert_eq!(manager.lifecycle.reload_count, u64::MAX);
}

fn asked(manager: &mut Manager, now: i64) -> Option<LoopResult> {
    match manager.requested_lifecycle_result(false) {
        LifecycleStep::Stay => None,
        LifecycleStep::Return(result) => Some(result),
        LifecycleStep::Shutdown(result) => {
            manager.queue_shutdown_transaction(result, stamp(now), None, NameMap::new(), false)
        }
    }
}

#[test]
fn shutdown_start_timestamp_is_captured_once_at_lifecycle_transition() {
    let mut manager = manager();
    assert_eq!(manager.lifecycle.shutdown_start.realtime_ns, 0);
    assert_eq!(manager.lifecycle.shutdown_start.monotonic_ns, 0);

    manager.lifecycle.shutdown_action = ShutdownAction::Reboot;
    assert_eq!(asked(&mut manager, 100), Some(LoopResult::Reboot));
    let realtime = manager.lifecycle.shutdown_start.realtime_ns;
    let monotonic = manager.lifecycle.shutdown_start.monotonic_ns;
    assert!(realtime > 0);
    assert!(monotonic > 0);

    manager.lifecycle.shutdown_action = ShutdownAction::Halt;
    assert_eq!(asked(&mut manager, 200), Some(LoopResult::Halt));
    assert_eq!(manager.lifecycle.shutdown_start.realtime_ns, realtime);
    assert_eq!(manager.lifecycle.shutdown_start.monotonic_ns, monotonic);
}

#[test]
fn exit_code_is_shared_with_the_manager_lifecycle_state() {
    let mut manager = manager();
    assert_eq!(manager.exit_code(), 0);
    manager.lifecycle.exit_code = 73;
    assert_eq!(manager.exit_code(), 73);
}

#[test]
fn dbus_unit_load_requests_use_the_manager_loader_and_publish_snapshot() {
    let mut manager = manager();
    let loaded = LoadedUnit::Service(ParsedUnit {
        name: "on-demand.service".to_owned(),
        unit: UnitSection {
            description: "On-demand unit".to_owned(),
            ..UnitSection::default()
        },
        specific: ServiceSection {
            service_type: ServiceType::Oneshot,
            ..ServiceSection::default()
        },
    });
    let (replies, change) = manager.apply_unit_load_requests(vec![UnitLoadRequest {
        name: "on-demand.service".to_owned(),
        loaded: Some(loaded),
    }]);
    let info = replies[0].as_ref().unwrap();
    assert_eq!(info.name, "on-demand.service");
    assert_eq!(info.description, "On-demand unit");
    assert_eq!(info.load_state, "loaded");
    assert_eq!(info.active_state, "inactive");
    assert!(manager.units.contains("on-demand.service"));
    assert_eq!(change.unwrap().added, vec!["on-demand.service"]);
    assert!(manager.unit_snapshot.iter().any(|unit| unit.name == "on-demand.service"));

    let (replies, change) = manager.apply_unit_load_requests(vec![UnitLoadRequest {
        name: "missing.service".to_owned(),
        loaded: None,
    }]);
    assert!(replies[0].is_none());
    assert!(change.is_none());
    assert!(manager.unit_info("missing.service").is_none());
    assert!(!manager.units.contains("missing.service"));
    manager.units.remove("on-demand.service");
    assert_eq!(manager.publish_snapshot().removed, vec!["on-demand.service"]);
}

#[test]
fn target_start_job_reaches_active_and_completes() {
    let mut manager = manager();
    assert!(manager.load_unit("test.target", Some(target("test.target", &[]))));
    let job = manager
        .job_queue
        .enqueue(&mut manager.job_registry, JobKind::Start, "test.target");

    let next = manager.next_job().unwrap();
    assert_eq!(next.id, job.id);
    assert!(manager.begin_job(&next));
    assert_eq!(manager.run_job(next.kind, &next.unit_name).unwrap(), JobAction::Settled);
    manager.end_job(&next, true);
    assert_eq!(manager.units.get("test.target").unwrap().state, UnitState::Activating);
    assert_eq!(manager.activating_targets(), vec!["test.target"]);
    assert!(manager.job_registry.is_live(job.id));
    manager.units.get_mut("test.target").unwrap().state = UnitState::Active;
    manager.complete_running_jobs();
    assert!(!manager.job_registry.is_live(job.id));
    assert!(manager.is_idle(false));
}

#[test]
fn unsupported_automount_does_not_fake_active_while_slices_activate() {
    let mut manager = manager();
    add(
        &mut manager,
        LoadedUnit::Automount(plain("srv-data.automount", ())),
        UnitState::Inactive,
    );
    add(&mut manager, LoadedUnit::Slice(plain("-.slice", ())), UnitState::Inactive);
    add(&mut manager, LoadedUnit::Slice(plain("batch.slice", ())), UnitState::Inactive);
    let error = manager.run_job(JobKind::Start, "srv-data.automount").unwrap_err();
    assert!(error.message("srv-data.automount").contains("without an autofs mount"));
    manager.run_job(JobKind::Start, "-.slice").unwrap();
    manager.run_job(JobKind::Start, "batch.slice").unwrap();
    assert_ne!(manager.units.get("srv-data.automount").unwrap().state, UnitState::Active);
    assert_eq!(manager.units.get("batch.slice").unwrap().state, UnitState::Active);
    assert_eq!(manager.units.get("-.slice").unwrap().state, UnitState::Active);
    assert_eq!(
        unit_record_to_info(manager.units.get("srv-data.automount").unwrap()).unit_type,
        "automount"
    );
}

#[test]
fn service_snapshot_publishes_control_pid() {
    let mut record = UnitRecord::new(simple("control.service"));
    record.control_pid = Some(4321);
    let info = unit_record_to_info(&record);
    assert_eq!(info.service_runtime.control_pid, Some(4321));
}

#[test]
fn service_snapshot_publishes_realized_dynamic_user() {
    let mut record = UnitRecord::new(simple("dynamic.service"));
    let mut search = Allocation::allocate_in("dynamic.service", "/tmp/dynamic-uid");
    record.dynamic_user = match search.on_result(LockResult::Created) {
        AllocationStep::Allocated(user) => Some(user),
        _ => None,
    };
    let info = unit_record_to_info(&record);
    let shown = info.service_runtime.dynamic_user.unwrap();
    assert_eq!(shown.uid, DYNAMIC_UID_MIN);
    assert_eq!(shown.name, "dynamic.service");
}

#[test]
fn service_snapshot_publishes_descriptor_store_limit() {
    let section = ServiceSection {
        file_descriptor_store_max: 4,
        ..Default::default()
    };
    let info = unit_record_to_info(&UnitRecord::new(service("descriptor-store.service", section)));
    assert_eq!(info.service_runtime.file_descriptor_store_max, 4);
}

#[test]
fn reset_failed_record_clears_failure_runtime_state() {
    let mut record = UnitRecord::new(simple("reset.service"));
    record.state = UnitState::Failed;
    record.restart_count = 4;
    record.last_start_ns = 7;
    record.watchdog_triggered = true;
    record.service_result = "exit-code".into();
    record.exec_main_code = 1;
    record.exec_main_status = 42;
    assert!(unit_cgroup_must_remain_realized(&record));

    reset_failed_record(&mut record);

    assert!(!unit_cgroup_must_remain_realized(&record));
    assert_eq!(record.state, UnitState::Inactive);
    assert_eq!(record.restart_count, 0);
    assert_eq!(record.last_start_ns, 0);
    assert!(!record.watchdog_triggered);
    assert_eq!(record.service_result, "success");
    assert_eq!(record.exec_main_code, 0);
    assert_eq!(record.exec_main_status, 0);
}

#[test]
fn pending_forking_pidfile_forces_short_poll_interval() {
    let mut manager = manager();
    let mut record = UnitRecord::new(service(
        "late.service",
        ServiceSection {
            service_type: ServiceType::Forking,
            pid_file: "/run/late.pid".into(),
            ..Default::default()
        },
    ));
    record.state = UnitState::Activating;
    record.control_pid = None;
    record.active_pid = None;
    assert!(forking_pid_file_pending(&record));
    manager.units.insert("late.service".into(), record);
    assert!(manager.next_poll_timeout_ms(Some(1)) <= 50);
    assert_eq!(manager.pending_pid_files(), vec!["late.service"]);
}

#[test]
fn manual_stop_arms_stop_timeout() {
    let mut manager = manager();
    let mut record = UnitRecord::new(service(
        "stop-timeout.service",
        ServiceSection {
            timeout_stop_sec: Some(20_000_000),
            ..Default::default()
        },
    ));
    record.active_pid = Some(4242);
    record.state = UnitState::Active;
    manager.units.insert("stop-timeout.service".into(), record);

    let plan = manager.stop_service("stop-timeout.service");
    assert_eq!(plan.old_pid, Some(4242));
    assert_eq!(plan.operation, KillOperation::Terminate);
    assert_eq!(plan.kill.unwrap().1, Some(4242));
    manager.units.get_mut("stop-timeout.service").unwrap().state = UnitState::Deactivating;
    manager.units.get_mut("stop-timeout.service").unwrap().stop_requested = true;
    match manager.service_told_to_stop("stop-timeout.service", plan.old_pid) {
        StopStep::Await(timeout) => assert_eq!(timeout, 20_000_000),
        _ => panic!("must wait"),
    }
    manager.stop_timeout_armed("stop-timeout.service", id(7));
    assert!(manager.stop_timeouts.contains("stop-timeout.service"));

    let context = manager.exit_context("stop-timeout.service", 1);
    assert!(context.explicitly_stopping);
    let effects = manager.on_main_exit("stop-timeout.service", context, Some(5), Some(6));
    assert_eq!(effects.stale_stop_timeout.map(|source| source.get()), Some(7));
    assert!(!effects.may_restart);
    assert!(!manager.stop_timeouts.contains("stop-timeout.service"));
}

#[test]
fn automatic_restart_waits_for_restart_timer() {
    let mut manager = manager();
    add(
        &mut manager,
        service(
            "restart-delay.service",
            ServiceSection {
                restart_sec: Some(5 * SECOND),
                ..Default::default()
            },
        ),
        UnitState::Active,
    );
    let context = manager.exit_context("restart-delay.service", 1);
    assert!(manager
        .on_main_exit("restart-delay.service", context, Some(1), Some(1))
        .may_restart);
    let delay = manager.automatic_restart("restart-delay.service", true, 10).unwrap();
    assert!(matches!(delay, RestartDelay::Fixed(ns) if ns == 5 * SECOND));
    assert_eq!(manager.units.get("restart-delay.service").unwrap().restart_count, 1);
    assert!(manager.job_queue.is_empty(&manager.job_registry));
    assert!(manager.shared_queue.is_empty(&manager.job_registry));
}

#[test]
fn requested_resource_control_failure_aborts_service_start() {
    let mut manager = manager();
    add(
        &mut manager,
        service(
            "limited.service",
            ServiceSection {
                resource_control_configured: true,
                ..Default::default()
            },
        ),
        UnitState::Inactive,
    );
    assert_eq!(manager.run_job(JobKind::Start, "limited.service"), Ok(JobAction::StartService));
    assert!(manager.start_service("limited.service").is_some());
    assert!(manager.resource_control_requested("limited.service"));
    assert_eq!(
        manager.prepare_service_cgroup("limited.service", CgroupOutcome::NotControlled),
        CgroupUse::Refused
    );
    let record = manager.units.get("limited.service").unwrap();
    assert_eq!(record.state, UnitState::Failed);
    assert_eq!(record.service_result, "resources");
}

#[test]
fn start_timeout_kill_preserves_timeout_result() {
    let mut manager = manager();
    add(
        &mut manager,
        service(
            "timeout-kill.service",
            ServiceSection {
                service_type: ServiceType::Notify,
                timeout_start_sec: Some(50_000_000),
                timeout_start_failure_mode: "kill".to_owned(),
                ..Default::default()
            },
        ),
        UnitState::Activating,
    );
    manager.units.get_mut("timeout-kill.service").unwrap().active_pid = Some(99);
    manager.start_timeout_armed("timeout-kill.service", id(3));
    let action = manager.apply_service_timeout_event("timeout-kill.service", ServiceTimeoutPhase::Start, id(3));
    assert_eq!(action, DeadlineAction::Kill);
    assert_eq!(manager.units.get("timeout-kill.service").unwrap().service_result, "timeout");
    assert_eq!(manager.final_kill_result("timeout-kill.service"), "timeout");
}

#[test]
fn start_timeout_abort_delivers_watchdog_signal() {
    let mut manager = manager();
    add(
        &mut manager,
        service(
            "timeout-abort.service",
            ServiceSection {
                service_type: ServiceType::Notify,
                timeout_start_sec: Some(100_000_000),
                timeout_abort_sec: Some(100_000_000),
                timeout_start_failure_mode: "abort".to_owned(),
                ..Default::default()
            },
        ),
        UnitState::Activating,
    );
    manager.units.get_mut("timeout-abort.service").unwrap().active_pid = Some(99);
    manager.start_timeout_armed("timeout-abort.service", id(3));
    let action = manager.apply_service_timeout_event("timeout-abort.service", ServiceTimeoutPhase::Start, id(3));
    match action {
        DeadlineAction::Signal { operation, timeout, phase } => {
            assert_eq!(operation, KillOperation::Watchdog);
            assert_eq!(timeout, 100_000_000);
            assert_eq!(phase, ServiceTimeoutPhase::Abort);
        }
        other => panic!("{other:?}"),
    }
    assert_eq!(manager.units.get("timeout-abort.service").unwrap().service_result, "timeout");
    assert!(matches!(
        after_signal(action, 1),
        Some(AfterSignal::Arm(100_000_000, ServiceTimeoutPhase::Abort))
    ));
    assert!(matches!(after_signal(action, 0), Some(AfterSignal::Finalize)));
}

#[test]
fn idle_service_executes_after_ready_batch_dispatch() {
    let mut manager = manager();
    add(&mut manager, simple("idle.service"), UnitState::Inactive);
    manager
        .job_queue
        .enqueue(&mut manager.job_registry, JobKind::Start, "idle.service");
    assert!(!manager.releases_idle_services());
    manager.next_job().unwrap();
    assert!(manager.releases_idle_services());
}

fn delay_ns(delay: RestartDelay) -> u128 {
    match delay {
        RestartDelay::Fixed(ns) => ns,
        RestartDelay::Geometric { initial, maximum, step, steps } => {
            let ratio = maximum as f64 / initial as f64;
            let seconds = initial as f64 / 1e9 * ratio.powf(f64::from(step) / f64::from(steps));
            (seconds * 1e9).round() as u128
        }
    }
}

#[test]
fn restart_backoff_matches_v261_geometric_steps() {
    let section = ServiceSection {
        restart_sec: Some(SECOND),
        restart_max_delay_sec: Some(8 * SECOND),
        restart_steps: Some(3),
        ..Default::default()
    };
    assert_eq!(delay_ns(restart_delay_for(&section, 1)), SECOND);
    assert_eq!(delay_ns(restart_delay_for(&section, 2)), 2 * SECOND);
    assert_eq!(delay_ns(restart_delay_for(&section, 3)), 4 * SECOND);
    assert_eq!(delay_ns(restart_delay_for(&section, 4)), 8 * SECOND);
}

#[test]
fn start_limit_window_expires_instead_of_counting_for_process_lifetime() {
    let mut record = UnitRecord::new(LoadedUnit::Service(ParsedUnit {
        name: "limited.service".to_owned(),
        unit: UnitSection {
            start_limit_burst: Some(2),
            start_limit_interval_sec: Some(SECOND),
            ..UnitSection::default()
        },
        specific: ServiceSection::default(),
    }));
    assert!(automatic_restart_delay_at(&mut record, true, 1).is_some());
    assert!(automatic_restart_delay_at(&mut record, true, 2).is_some());
    assert!(automatic_restart_delay_at(&mut record, true, 3).is_none());
    assert_eq!(record.service_result, "start-limit-hit");

    record.state = UnitState::Inactive;
    record.service_result = "exit-code".to_owned();
    assert!(
        automatic_restart_delay_at(&mut record, true, 1_000_000_001).is_some(),
        "the unit must be startable after StartLimitIntervalSec elapses"
    );
    assert_eq!(record.start_limit_count, 1);
    assert!(automatic_restart_delay_at(&mut record, false, 1_000_000_002).is_none());
}

#[test]
fn start_transactions_load_dependencies_first() {
    let mut manager = manager();
    let mut loaded = NameMap::new();
    loaded.insert("a.service".to_owned(), simple("a.service"));
    manager
        .enqueue_start("t.target", Some(target("t.target", &["a.service"])), loaded)
        .unwrap();
    let names: Vec<String> = manager.job_registry.list().into_iter().map(|job| job.unit_name).collect();
    assert_eq!(names, vec!["a.service", "t.target"]);
    assert!(manager.units.contains("a.service"));
    assert_eq!(
        manager.missing_dependencies("t.target", &NameMap::new(), &Vec::new()),
        Vec::<String>::new()
    );
    assert!(matches!(
        manager.enqueue_start("x.target", None, NameMap::new()),
        Err(TransactionError::NotLoadable)
    ));
    let needy = LoadedUnit::Target(ParsedUnit {
        name: "n.target".to_owned(),
        unit: UnitSection {
            requires: vec!["gone.service".to_owned()],
            ..UnitSection::default()
        },
        specific: (),
    });
    assert!(matches!(
        manager.enqueue_start("n.target", Some(needy), NameMap::new()),
        Err(TransactionError::MissingRequirement(name)) if name == "gone.service"
    ));
}

#[test]
fn isolation_stops_the_rest() {
    let mut manager = manager();
    add(&mut manager, simple("keep.service"), UnitState::Active);
    add(&mut manager, simple("drop.service"), UnitState::Active);
    let rescue = target("rescue.target", &["keep.service"]);
    let job = manager
        .job_queue
        .enqueue(&mut manager.job_registry, JobKind::Isolate, "rescue.target");
    manager.next_job().unwrap();
    manager
        .enqueue_isolate(job.id, "rescue.target", Some(rescue), NameMap::new())
        .unwrap();
    let mut stopped = Vec::new();
    while let Some(job) = manager.job_queue.pop_front(&manager.job_registry) {
        if job.kind == JobKind::Stop {
            stopped.push(job.unit_name);
        }
    }
    assert_eq!(stopped, vec!["drop.service"]);
    assert!(matches!(
        manager.enqueue_isolate(job.id, "drop.service", None, NameMap::new()),
        Err(TransactionError::NotATarget)
    ));
    let mut closed = target("closed.target", &[]);
    if let LoadedUnit::Target(unit) = &mut closed {
        unit.unit.allow_isolate = false;
    }
    assert!(matches!(
        manager.enqueue_isolate(job.id, "closed.target", Some(closed), NameMap::new()),
        Err(TransactionError::NotPermitted)
    ));
    let info = manager.job_registry.get(job.id).unwrap();
    let keep = vec!["rescue.target".to_owned(), "keep.service".to_owned()];
    assert!(isolate_job_result(&manager.units, Some(&keep), &info).is_none());
}

#[test]
fn jobs_settle_with_their_units() {
    let mut manager = manager();
    add(&mut manager, simple("a.service"), UnitState::Inactive);
    let job = manager
        .job_queue
        .enqueue(&mut manager.job_registry, JobKind::Start, "a.service");
    assert_eq!(immediate_job_result(&manager.units, &job), Some(JobResult::Done));
    manager.units.get_mut("a.service").unwrap().state = UnitState::Activating;
    assert_eq!(immediate_job_result(&manager.units, &job), None);
    let info = manager.job_registry.get(job.id).unwrap();
    manager.units.get_mut("a.service").unwrap().state = UnitState::Failed;
    assert_eq!(settled_job_result(&manager.units, &info), Some(JobResult::Failed));
    manager.units.get_mut("a.service").unwrap().state = UnitState::Active;
    assert_eq!(settled_job_result(&manager.units, &info), Some(JobResult::Done));
    assert_eq!(immediate_job_result(&manager.units, &job), Some(JobResult::Done));
}

#[test]
fn job_events_are_announced_in_order() {
    let mut manager = manager();
    let job = manager
        .job_queue
        .enqueue(&mut manager.job_registry, JobKind::Start, "a.service");
    manager.job_registry.mark_running(job.id);
    manager.job_registry.finish(job.id, JobResult::Failed);
    let signals = manager.publish_job_events();
    assert_eq!(signals.len(), 3);
    assert!(matches!(&signals[0], JobSignal::JobNew { path, .. } if path == "/io/rustd/Manager1/job/1"));
    assert!(matches!(&signals[1], JobSignal::JobStateChanged { .. }));
    assert!(matches!(&signals[2], JobSignal::JobRemoved { result, .. } if result == "failed"));
    assert!(manager.publish_job_events().is_empty());
}

#[test]
fn jobs_are_refused_for_a_reason() {
    let mut manager = manager();
    assert_eq!(manager.run_job(JobKind::Start, "x.service"), Err(JobError::NotLoaded));
    add(&mut manager, target("t.target", &[]), UnitState::Inactive);
    assert_eq!(manager.run_job(JobKind::Reload, "t.target"), Err(JobError::NoReload));
    assert_eq!(manager.run_job(JobKind::Isolate, "t.target"), Err(JobError::NeedsTransaction));
}

#[test]
fn restarts_wait_for_the_stop() {
    let mut manager = manager();
    add(&mut manager, simple("a.service"), UnitState::Inactive);
    assert_eq!(manager.restart_unit("a.service"), Ok(RestartStep::Start));
    manager.units.get_mut("a.service").unwrap().state = UnitState::Active;
    assert_eq!(manager.restart_unit("a.service"), Ok(RestartStep::StopThenWait));
    assert!(manager.restart_pending.contains("a.service"));
    let context = manager.exit_context("a.service", 1);
    let effects = manager.on_main_exit("a.service", context, None, None);
    assert!(!effects.may_restart);
    assert!(!manager.restart_pending.contains("a.service"));
    let job = manager.job_queue.pop_front(&manager.job_registry).unwrap();
    assert_eq!((job.id, job.kind), (0, JobKind::Start));
}

#[test]
fn memory_exhaustion_is_no_explicit_stop() {
    let mut manager = manager();
    add(&mut manager, simple("a.service"), UnitState::Active);
    manager.units.get_mut("a.service").unwrap().active_pid = Some(9);
    assert_eq!(manager.apply_oom_event("a.service", OomPolicy::Continue, 10), OomAction::Note);
    manager.units.get_mut("a.service").unwrap().stop_requested = true;
    let context = manager.exit_context("a.service", 20);
    assert!(context.oom_related);
    assert!(!context.explicitly_stopping);
    manager.on_main_exit("a.service", context, None, None);
    assert_eq!(manager.units.get("a.service").unwrap().service_result, "oom-kill");
    manager.exit_done("a.service");
    manager.forget_old_ooms(3_000_000_000);
    assert!(!manager.exit_context("a.service", 3_000_000_000).oom_related);
}

#[test]
fn watchdogs_expire_once() {
    let mut record = UnitRecord::new(service(
        "dog.service",
        ServiceSection {
            watchdog_sec: Some(SECOND),
            ..ServiceSection::default()
        },
    ));
    record.state = UnitState::Active;
    record.active_pid = Some(5);
    record.watchdog_timestamp_ns = Some(100);
    assert!(!expire_watchdog(&mut record, 1_000_000_099));
    assert!(expire_watchdog(&mut record, 1_000_000_100));
    assert!(!expire_watchdog(&mut record, 1_000_000_101));
    assert!(record.watchdog_triggered);
}

#[test]
fn readiness_is_taken_from_messages() {
    let mut manager = manager();
    add(
        &mut manager,
        service(
            "n.service",
            ServiceSection {
                service_type: ServiceType::Notify,
                ..ServiceSection::default()
            },
        ),
        UnitState::Activating,
    );
    let message = NotifyMessage {
        status: Some("up".to_owned()),
        errno: None,
        main_pid: Some(77),
        ready: true,
        watchdog: false,
        stopping: false,
    };
    let effects = manager.apply_notify_event("n.service", message, Some(1), Some(2)).unwrap();
    assert!(effects.ready);
    assert_eq!(effects.pid_change, Some((None, 77)));
    let record = manager.units.get("n.service").unwrap();
    assert_eq!(record.status_text.as_deref(), Some("up"));
    assert_eq!(record.active_pid, Some(77));
    assert!(matches!(
        manager.apply_notify_pid_change("n.service", Some(5), 77),
        NotifyPid::Replace(5, 77)
    ));
    assert!(manager.notify_readiness("n.service", Readiness::Ready, Some(3), Some(4)));
    assert!(manager.units.get("n.service").unwrap().watchdog_timestamp_ns.is_none());
    assert!(!manager.notify_readiness("n.service", Readiness::Pending, Some(3), Some(4)));
    let access = effective_notify_access(&ServiceSection {
        service_type: ServiceType::Notify,
        ..ServiceSection::default()
    });
    assert_eq!(access, Some(NotifyAccess::Main));
}

#[test]
fn sockets_pass_their_descriptors_on() {
    let mut manager = manager();
    add(
        &mut manager,
        LoadedUnit::Socket(plain("s.socket", SocketSection { service: String::new() })),
        UnitState::Active,
    );
    manager.socket_records.insert(
        "s.socket".to_owned(),
        SocketRecord {
            listen_fds: vec![4, 5],
            source_ids: vec![id(8)],
        },
    );
    assert_eq!(triggered_service_name("s.socket", ""), "s.service");
    assert_eq!(triggered_service_name("s.socket", "other.service"), "other.service");
    assert_eq!(manager.collect_listen_fds_for("s.service"), vec![4, 5]);
    assert!(manager.collect_listen_fds_for("t.service").is_empty());
    assert_eq!(manager.trigger_socket_sources("s.service")[0].get(), 8);
}

#[test]
fn properties_are_checked_before_they_are_set() {
    let weight = vec![SetUnitProperty::CpuWeight(Some(5))];
    let text = vec![SetUnitProperty::Description("x".to_owned())];
    assert!(has_resource_control(&weight));
    assert!(!has_resource_control(&text));
    assert!(validate_set_unit_properties(&simple("a.service"), &weight).is_ok());
    assert!(matches!(
        validate_set_unit_properties(&target("t.target", &[]), &weight),
        Err(SetUnitPropertiesError::PropertyReadOnly(_))
    ));
    assert!(matches!(
        classify_load_error("a.service", "gone", true),
        SetUnitPropertiesError::NoSuchUnit(_)
    ));
    assert!(matches!(
        failed_step(PropertyStep::Write, "a.service", "disk"),
        SetUnitPropertiesError::Failed(_)
    ));
    let mut manager = manager();
    let missing = LoadFailure {
        error: "not there".to_owned(),
        not_found: true,
    };
    assert!(manager.begin_set_unit_properties("a.service", Err(missing), &text).is_err());
}

#[test]
fn reset_requests_name_units_or_mean_all() {
    let mut manager = manager();
    add(&mut manager, simple("a.service"), UnitState::Failed);
    add(&mut manager, simple("b.service"), UnitState::Failed);
    manager.apply_reset_failed_request(vec!["a.service".to_owned()]);
    assert_eq!(manager.units.get("a.service").unwrap().state, UnitState::Inactive);
    assert_eq!(manager.units.get("b.service").unwrap().state, UnitState::Failed);
    manager.apply_reset_failed_request(Vec::new());
    assert_eq!(manager.units.get("b.service").unwrap().state, UnitState::Inactive);
}

#[test]
fn a_turn_learns_of_memory_before_exits() {
    let mut turn = Turn::first(true);
    let mut seen = vec![turn.at];
    loop {
        let outcome = match turn.at {
            Work::RunJob => Outcome::Dispatched(false),
            Work::AskedOfManager => Outcome::EndWith(None),
            Work::CheckIdle => Outcome::Idle(true),
            Work::End(_) => break,
            _ => Outcome::Done,
        };
        let work = turn.advance(outcome);
        seen.push(work);
        assert!(seen.len() < 100);
    }
    assert_eq!(seen[0], Work::TakeSharedJobs);
    assert_eq!(*seen.last().unwrap(), Work::End(LoopResult::Exit));
    let at = |work: Work| seen.iter().position(|w| *w == work).unwrap();
    assert!(at(Work::ApplyOom) < at(Work::ApplyExits));
}

#[test]
fn the_control_group_stays_while_a_service_runs() {
    let mut manager = manager();
    add(&mut manager, simple("a.service"), UnitState::Active);
    manager.units.get_mut("a.service").unwrap().active_pid = Some(3);
    assert!(!manager.may_remove_cgroup("a.service"));
    manager.units.get_mut("a.service").unwrap().active_pid = None;
    manager.cgroup_watched("a.service", id(4));
    manager.units.get_mut("a.service").unwrap().state = UnitState::Inactive;
    assert!(manager.may_remove_cgroup("a.service"));
    assert_eq!(manager.forget_cgroup("a.service").0.map(|source| source.get()), Some(4));
    assert!(manager.forget_cgroup("a.service").0.is_none());
}

#[test]
fn killing_nothing_is_a_policy_too() {
    let mut manager = manager();
    add(
        &mut manager,
        service(
            "a.service",
            ServiceSection {
                kill_mode: KillMode::Nothing,
                ..ServiceSection::default()
            },
        ),
        UnitState::Active,
    );
    let (policy, _, _) = manager.service_kill_policy("a.service").unwrap();
    assert_eq!(policy.signal(KillOperation::Kill), None);
}

#[test]
fn startup_ends_when_the_initial_jobs_are_done() {
    let mut m = manager();
    add(&mut m, simple("a.service"), UnitState::Inactive);
    let job = m.job_queue.enqueue(&mut m.job_registry, JobKind::Start, "a.service");
    assert_eq!(m.publish_startup_finished_if_ready(Some(7), Some(5_001_000)), None);

    // Taken from the queue, the job is still live.
    assert_eq!(m.next_job().map(|next| next.id), Some(job.id));
    assert_eq!(m.publish_startup_finished_if_ready(Some(7), Some(5_001_000)), None);
    m.job_registry.finish(job.id, JobResult::Done);

    // A step without an identifier holds it up as well, in either queue.
    m.shared_queue.enqueue_internal(JobKind::Start, "a.service");
    assert_eq!(m.publish_startup_finished_if_ready(Some(7), Some(5_001_000)), None);
    assert!(m.take_shared_job().is_some());

    m.units.get_mut("a.service").unwrap().state = UnitState::Activating;
    assert_eq!(m.publish_startup_finished_if_ready(Some(7), Some(5_001_000)), None);
    assert!(!m.lifecycle.startup_finished_emitted);

    m.units.get_mut("a.service").unwrap().state = UnitState::Active;
    assert_eq!(m.publish_startup_finished_if_ready(Some(7), Some(5_001_000)), Some(5_000));
    assert_eq!(m.lifecycle.finish.realtime_ns, 7);
    assert_eq!(m.publish_startup_finished_if_ready(Some(8), Some(6_001_000)), None);
}
