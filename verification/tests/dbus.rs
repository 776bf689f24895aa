use rustd::dbus::unit_iface::{
    collect_mode_name, condition_entries, condition_type_name, duration_usec, job_mode_name, job_path, job_path_for,
    unit_action_name,
    DbusObjectNamespace, LifecycleRequest, UnitInterface,
};
use rustd::ipc::{ServiceRuntimeInfo, UnitInfo};
use rustd::job::{JobKind, JobQueue, JobRegistry};
use rustd::unit::{
    CollectMode, Condition, ConditionKind, LoadedUnit, ParsedUnit, ServiceSection, UnitAction, UnitSection,
};

fn make_interface(name: &str, units: Vec<UnitInfo>) -> UnitInterface {
    UnitInterface {
        name: name.to_owned(),
        snapshot: units,
        loaded: None,
        namespace: DbusObjectNamespace::Native,
    }
}

fn unit(name: &str, active_state: &str) -> UnitInfo {
    UnitInfo {
        name: name.to_owned(),
        description: "Test service".to_owned(),
        load_state: "loaded".to_owned(),
        active_state: active_state.to_owned(),
        sub_state: "running".to_owned(),
        main_pid: Some(1234),
        unit_type: "service".to_owned(),
        service_type: Some("simple".to_owned()),
        restart_policy: Some("no".to_owned()),
        service_runtime: Box::new(ServiceRuntimeInfo::default()),
    }
}

#[test]
fn properties_from_snapshot() {
    let iface = make_interface("foo.service", vec![unit("foo.service", "active")]);
    assert_eq!(iface.id(), "foo.service");
    assert_eq!(iface.names(), vec!["foo.service"]);
    assert_eq!(iface.description(), "Test service");
    assert_eq!(iface.active_state(), "active");
    assert_eq!(iface.invocation_id(), [] as [u8; 0]);
    assert!(iface.can_start());
    assert!(iface.can_stop());
}

#[test]
fn invocation_id_property_uses_the_live_service_runtime() {
    let invocation_id = [
        0x4a, 0x8b, 0x81, 0x15, 0x50, 0xcb, 0x4f, 0xa4, 0x97, 0x7d, 0x47, 0x59, 0x0f, 0x57, 0xad, 0x29,
    ];
    let mut info = unit("invocation.service", "active");
    info.service_runtime = Box::new(ServiceRuntimeInfo {
        invocation_id: Some(invocation_id),
        ..ServiceRuntimeInfo::default()
    });
    let interface = make_interface("invocation.service", vec![info]);
    assert_eq!(interface.invocation_id(), invocation_id);
}

#[test]
fn missing_unit_returns_defaults() {
    let iface = make_interface("missing.service", Vec::new());
    assert_eq!(iface.active_state(), "inactive");
    assert_eq!(iface.load_state(), "not-found");
    assert!(!iface.can_start());
    assert!(!iface.can_stop());
}

#[test]
fn unit_policy_properties_match_v261_defaults() {
    let iface = make_interface("missing.service", Vec::new());

    assert_eq!(iface.documentation(), [] as [std::string::String; 0]);
    assert_eq!(iface.source_path(), "");
    assert_eq!(iface.required_units(), [] as [std::string::String; 0]);
    assert_eq!(iface.requisite(), [] as [std::string::String; 0]);
    assert_eq!(iface.wants(), [] as [std::string::String; 0]);
    assert_eq!(iface.binds_to(), [] as [std::string::String; 0]);
    assert_eq!(iface.part_of(), [] as [std::string::String; 0]);
    assert_eq!(iface.upholds(), [] as [std::string::String; 0]);
    assert_eq!(iface.conflicts(), [] as [std::string::String; 0]);
    assert_eq!(iface.before(), [] as [std::string::String; 0]);
    assert_eq!(iface.after(), [] as [std::string::String; 0]);
    assert_eq!(iface.on_success(), [] as [std::string::String; 0]);
    assert_eq!(iface.on_failure(), [] as [std::string::String; 0]);
    assert_eq!(iface.propagates_reload_to(), [] as [std::string::String; 0]);
    assert_eq!(iface.reload_propagated_from(), [] as [std::string::String; 0]);
    assert_eq!(iface.propagates_stop_to(), [] as [std::string::String; 0]);
    assert_eq!(iface.stop_propagated_from(), [] as [std::string::String; 0]);
    assert_eq!(iface.joins_namespace_of(), [] as [std::string::String; 0]);
    assert_eq!(iface.requires_mounts_for(), [] as [std::string::String; 0]);
    assert_eq!(iface.wants_mounts_for(), [] as [std::string::String; 0]);
    assert!(!iface.stop_when_unneeded());
    assert!(!iface.refuse_manual_start());
    assert!(!iface.refuse_manual_stop());
    assert!(!iface.allow_isolate());
    assert!(iface.default_dependencies());
    assert!(!iface.ignore_on_isolate());
    assert_eq!(iface.collect_mode(), "inactive");
    assert!(!iface.survive_final_kill_signal());
    assert_eq!(iface.on_success_job_mode(), "fail");
    assert_eq!(iface.on_failure_job_mode(), "replace");
    assert!(iface.conditions(&Vec::new()).is_empty());
    assert!(iface.asserts(&Vec::new()).is_empty());
    assert_eq!(iface.job_timeout_u_sec(), u64::MAX);
    assert_eq!(iface.job_running_timeout_u_sec(), u64::MAX);
    assert_eq!(iface.job_timeout_action(), "none");
    assert_eq!(iface.job_timeout_reboot_argument(), "");
    assert_eq!(iface.start_limit_interval_u_sec(), 10_000_000);
    assert_eq!(iface.start_limit_burst(), 5);
    assert_eq!(iface.start_limit_action(), "none");
    assert_eq!(iface.failure_action(), "none");
    assert_eq!(iface.success_action(), "none");
    assert_eq!(iface.failure_action_exit_status(), 0);
    assert_eq!(iface.success_action_exit_status(), 0);
    assert_eq!(iface.reboot_argument(), "");
}

#[test]
fn condition_properties_use_v261_tuple_names_and_results() {
    let condition = Condition::parse("ConditionPathExists", "|!/definitely-missing");
    let assertion = Condition::parse("AssertKernelVersion", "systemd");
    let conditions = condition_entries(&vec![condition], false, &vec![true]);
    let asserts = condition_entries(&vec![assertion], true, &vec![false]);

    assert_eq!(conditions[0].0, "ConditionPathExists");
    assert!(conditions[0].1);
    assert!(conditions[0].2);
    assert_eq!(conditions[0].3, "/definitely-missing");
    assert_eq!(conditions[0].4, 1);
    assert_eq!(asserts[0].0, "AssertVersion");
    assert_eq!(asserts[0].3, "systemd");
    assert!(matches!(asserts[0].4, 1 | -1));
}

#[test]
fn enqueue_wakes_manager_event_loop() {
    let iface = make_interface("foo.service", Vec::new());
    let mut queue = JobQueue::default();
    let mut registry = JobRegistry::new();

    let path = iface.enqueue(&mut queue, &mut registry, JobKind::Start);

    assert_eq!(path, "/io/rustd/Manager1/job/1");
    assert_eq!(queue.len(&registry), 1);
}

#[test]
fn jobs_are_named_in_the_tree_of_their_object() {
    let mut iface = make_interface("foo.service", Vec::new());
    let mut queue = JobQueue::default();
    let mut registry = JobRegistry::new();
    iface.namespace = DbusObjectNamespace::Systemd;
    assert_eq!(
        iface.enqueue(&mut queue, &mut registry, JobKind::Start),
        "/org/freedesktop/systemd1/job/1"
    );
    iface.namespace = DbusObjectNamespace::Native;
    assert_eq!(iface.enqueue(&mut queue, &mut registry, JobKind::Stop), "/io/rustd/Manager1/job/2");
    assert_eq!(job_path_for(DbusObjectNamespace::Systemd, 17), "/org/freedesktop/systemd1/job/17");
    assert_eq!(job_path(17), "/io/rustd/Manager1/job/17");
}

#[test]
fn lifecycle_methods_match_v261_names_and_validate_modes() {
    assert!(UnitInterface::validate_mode("isolate", "start").is_ok());
    assert!(UnitInterface::validate_mode("triggering", "stop").is_ok());
    assert!(UnitInterface::validate_mode("not-a-mode", "start").is_err());
    assert!(UnitInterface::validate_mode("isolate", "reload").is_err());
}

#[test]
fn requests_that_only_try_start_nothing() {
    let idle = make_interface("foo.service", vec![unit("foo.service", "inactive")]);
    let running = make_interface("foo.service", vec![unit("foo.service", "active")]);
    assert_eq!(idle.requested_job(LifecycleRequest::TryRestart), JobKind::Nop);
    assert_eq!(running.requested_job(LifecycleRequest::TryRestart), JobKind::Restart);
    assert_eq!(idle.requested_job(LifecycleRequest::ReloadOrTryRestart), JobKind::Nop);
    assert_eq!(idle.requested_job(LifecycleRequest::Start), JobKind::Start);
    assert_eq!(idle.requested_job(LifecycleRequest::Stop), JobKind::Stop);
    assert_eq!(idle.requested_job(LifecycleRequest::Restart), JobKind::Restart);
    assert_eq!(idle.requested_job(LifecycleRequest::Reload), JobKind::Reload);
    assert_eq!(LifecycleRequest::ReloadOrTryRestart.as_str(), "reload-or-try-restart");
}

#[test]
fn properties_come_from_the_loaded_unit() {
    let section = UnitSection {
        requires: vec!["a.service".to_owned()],
        allow_isolate: true,
        start_limit_burst: Some(9),
        start_limit_interval_sec: Some(3_000_000_000),
        job_timeout_sec: Some(2_500),
        collect_mode: CollectMode::InactiveOrFailed,
        failure_action: UnitAction::RebootForce,
        failure_action_exit_status: Some(7),
        on_failure_job_mode: "isolate".to_owned(),
        ..UnitSection::default()
    };
    let mut iface = make_interface("foo.service", vec![unit("foo.service", "active")]);
    iface.loaded = Some(LoadedUnit::Service(ParsedUnit {
        name: "foo.service".to_owned(),
        unit: section,
        specific: ServiceSection {
            exec_reload: vec!["/bin/true".to_owned()],
            ..ServiceSection::default()
        },
    }));
    assert_eq!(iface.required_units(), vec!["a.service"]);
    assert!(iface.allow_isolate());
    assert_eq!(iface.start_limit_burst(), 9);
    assert_eq!(iface.start_limit_interval_u_sec(), 3_000_000);
    assert_eq!(iface.job_timeout_u_sec(), 2);
    assert_eq!(iface.collect_mode(), "inactive-or-failed");
    assert_eq!(iface.failure_action(), "reboot-force");
    assert_eq!(iface.failure_action_exit_status(), 7);
    assert_eq!(iface.on_failure_job_mode(), "isolate");
    assert!(iface.can_reload());
    assert_eq!(iface.requested_job(LifecycleRequest::ReloadOrRestart), JobKind::Reload);
}

#[test]
fn names_of_settings() {
    assert_eq!(job_mode_name("", "fail"), "fail");
    assert_eq!(job_mode_name("isolate", "fail"), "isolate");
    assert_eq!(duration_usec(1_999), 1);
    assert_eq!(duration_usec(u128::MAX), u64::MAX);
    assert_eq!(collect_mode_name(CollectMode::Inactive), "inactive");
    assert_eq!(unit_action_name(UnitAction::SoftReboot), "soft-reboot");
    assert_eq!(condition_type_name(&ConditionKind::ACPower, false), "ConditionACPower");
    assert_eq!(
        condition_type_name(&ConditionKind::Unknown("Foo".to_owned()), false),
        "ConditionFoo"
    );
}
