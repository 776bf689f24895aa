use rustd::boot::{
    apply_cmdline, boot_mode, bus_introspection_path, initial_target, parse_arguments, preparation, transition,
    Arguments, KernelCmdline, Overridable, Preparation, Transition,
};
use rustd::dynamic_user::{
    dynamic_uid_dir, Allocation, AllocationStep, LockResult, DYNAMIC_UID_MAX, DYNAMIC_UID_MIN,
};
use rustd::emergency::{enqueue_fallback, BootMode, EmergencyAction};
use rustd::event::loop_::LoopResult;
use rustd::filesystem_unit::{
    activate_mount, activate_swap, deactivate_mount, deactivate_swap, directory_mode, parse_mount_options, settle,
    DirectoryMode, FilesystemError,
};
use rustd::generator::{output_directories, system_generator_dirs, visible_generators, Candidate};
use rustd::glob::matches_no_escape;
use rustd::job::{JobQueue, JobRegistry};
use rustd::kill_context::{signal_cgroup_members, signal_primary, KillOperation, KillPolicy};
use rustd::mount_setup::{api_mounts, is_mount_point, mount_outcome, MountAttempt, MountOutcome};
use rustd::names::NameMap;
use rustd::paths;
use rustd::service::UnitRecord;
use rustd::spawn::{
    check_helper_path, prepare_spawn, HelperError, NativeSpawnSandbox, SandboxFlags, SeccompRule, SpawnSandbox,
    MAX_READ_WRITE_PATHS,
};
use rustd::sys;
use rustd::unit::{
    KillMode, LoadedUnit, MountSection, ParsedUnit, ServiceSection, SwapSection, UnitSection, UnitState,
};
use std::path::Path;

#[test]
fn uid_range_sanity() {
    assert_eq!(DYNAMIC_UID_MIN, 61184);
    assert_eq!(DYNAMIC_UID_MAX, 65519);
}

#[test]
fn native_directory_is_authoritative() {
    assert_eq!(dynamic_uid_dir(Some("/native"), Some("/legacy")), "/native");
    assert_eq!(dynamic_uid_dir(None, Some("/legacy")), "/legacy");
    assert_eq!(dynamic_uid_dir(None, None), "/run/rustd/dynamic-uid");
}

fn allocated(search: &mut Allocation, taken: &[String]) -> (u32, String, String) {
    loop {
        let result = if taken.contains(&search.lock_path()) {
            LockResult::AlreadyExists
        } else {
            LockResult::Created
        };
        match search.on_result(result) {
            AllocationStep::Allocated(user) => return (user.uid, user.name, user.lock_path),
            AllocationStep::Next => {}
            step => panic!("{step:?}"),
        }
    }
}

#[test]
fn two_allocations_get_distinct_uids() {
    let a = allocated(&mut Allocation::allocate_in("same-svc", "/tmp/uids"), &[]);
    let b = allocated(&mut Allocation::allocate_in("same-svc", "/tmp/uids"), &[a.2.clone()]);
    assert_ne!(a.0, b.0);
    assert_eq!(a.1, "same-svc");
    assert_eq!(b.1, "same-svc");
    assert!(a.0 >= DYNAMIC_UID_MIN && a.0 <= DYNAMIC_UID_MAX);
    assert!(b.0 >= DYNAMIC_UID_MIN && b.0 <= DYNAMIC_UID_MAX);
    assert_eq!(a.2, "/tmp/uids/61184-same-svc");
}

#[test]
fn allocation_ends_when_every_number_is_taken() {
    let mut search = Allocation::allocate_in("a", "/d");
    let mut tried = 1;
    loop {
        match search.on_result(LockResult::AlreadyExists) {
            AllocationStep::Next => tried += 1,
            AllocationStep::Exhausted => break,
            step => panic!("{step:?}"),
        }
    }
    assert_eq!(tried, 65519 - 61184 + 1);
    let mut search = Allocation::allocate_in("a", "/d");
    assert!(matches!(search.on_result(LockResult::Failed), AllocationStep::Failed));
}

#[test]
fn boot_mode_target_names() {
    assert_eq!(BootMode::Normal.target_name(), "default.target");
    assert_eq!(BootMode::Rescue.target_name(), "rescue.target");
    assert_eq!(BootMode::Emergency.target_name(), "emergency.target");
}

#[test]
fn emergency_action_loop_result() {
    assert_eq!(EmergencyAction::Nothing.to_loop_result(), None);
    assert_eq!(EmergencyAction::Exit.to_loop_result(), Some(LoopResult::Exit));
    assert_eq!(EmergencyAction::Reboot.to_loop_result(), Some(LoopResult::Reboot));
    assert_eq!(EmergencyAction::Poweroff.to_loop_result(), Some(LoopResult::Poweroff));
}

#[test]
fn enqueue_fallback_rescue() {
    let mut q = JobQueue::default();
    let mut registry = JobRegistry::new();
    enqueue_fallback(BootMode::Rescue, &mut q, &mut registry);
    let jobs = q.drain_ready(&registry, &NameMap::new(), &NameMap::new());
    assert_eq!(jobs.len(), 1);
    assert_eq!(jobs[0].unit_name, "rescue.target");
}

#[test]
fn enqueue_fallback_emergency() {
    let mut q = JobQueue::default();
    let mut registry = JobRegistry::new();
    enqueue_fallback(BootMode::Emergency, &mut q, &mut registry);
    let jobs = q.drain_ready(&registry, &NameMap::new(), &NameMap::new());
    assert_eq!(jobs.len(), 1);
    assert_eq!(jobs[0].unit_name, "emergency.target");
}

#[test]
fn mount_options_split_kernel_flags_from_filesystem_data() {
    let (flags, data) = parse_mount_options("ro,nosuid,nodev,compress=zstd,nofail");
    assert_ne!(flags & libc::MS_RDONLY, 0);
    assert_ne!(flags & libc::MS_NOSUID, 0);
    assert_ne!(flags & libc::MS_NODEV, 0);
    assert_eq!(data, "compress=zstd");
}

#[test]
fn path_type_is_used_for_mount_points() {
    assert!(Path::new("/srv/data").is_absolute());
    assert!(paths::absolute("/srv/data"));
    assert!(!paths::absolute("srv/data"));
}

#[test]
fn mount_options_add_up() {
    assert_eq!(parse_mount_options("ro,rw").0, libc::MS_RDONLY);
    assert_eq!(parse_mount_options("defaults,,x-systemd.automount,_netdev"), (0, String::new()));
    assert_eq!(parse_mount_options("exec,x=1,y=2"), (0, "exec,x=1,y=2".to_owned()));
    assert_eq!(
        parse_mount_options("rbind,noatime").0,
        libc::MS_BIND | libc::MS_REC | libc::MS_NOATIME
    );
}

fn mount(where_path: &str, what: &str) -> UnitRecord {
    UnitRecord::new(LoadedUnit::Mount(ParsedUnit {
        name: "srv.mount".to_owned(),
        unit: UnitSection::default(),
        specific: MountSection {
            what: what.to_owned(),
            where_path: where_path.to_owned(),
            fs_type: "auto".to_owned(),
            options: "ro,size=1m".to_owned(),
            directory_mode: "0750".to_owned(),
            lazy_unmount: true,
            force_unmount: true,
        },
    }))
}

fn swap(what: &str, priority: Option<i32>) -> UnitRecord {
    UnitRecord::new(LoadedUnit::Swap(ParsedUnit {
        name: "dev-sda.swap".to_owned(),
        unit: UnitSection::default(),
        specific: SwapSection {
            what: what.to_owned(),
            priority,
        },
    }))
}

#[test]
fn mounts_are_planned_from_their_sections() {
    let plan = activate_mount(&mount("/srv", "/dev/sda1")).unwrap();
    assert_eq!(plan.source, "/dev/sda1");
    assert_eq!(plan.target, "/srv");
    assert_eq!(plan.fstype, None);
    assert_eq!(plan.flags, libc::MS_RDONLY);
    assert_eq!(plan.data.as_deref(), Some("size=1m"));
    assert_eq!(plan.mode, DirectoryMode::Change(0o750));
    assert_eq!(
        deactivate_mount(&mount("/srv", "/dev/sda1")).unwrap(),
        ("/srv".to_owned(), libc::MNT_DETACH | libc::MNT_FORCE)
    );
}

#[test]
fn mounts_and_swaps_are_refused_for_a_reason() {
    assert_eq!(activate_mount(&mount("srv", "/dev/sda1")).unwrap_err(), FilesystemError::RelativeWhere);
    assert_eq!(activate_mount(&mount("/srv", "")).unwrap_err(), FilesystemError::NoWhat);
    assert_eq!(activate_mount(&swap("/dev/sda", None)).unwrap_err(), FilesystemError::WrongType);
    assert_eq!(activate_swap(&swap("", None)).unwrap_err(), FilesystemError::NoWhat);
    assert_eq!(activate_swap(&mount("/srv", "x")).unwrap_err(), FilesystemError::WrongType);
    assert_eq!(deactivate_swap(&swap("/dev/sda", None)).unwrap(), "/dev/sda");
    assert_eq!(activate_swap(&swap("/dev/sda", None)).unwrap().0, "/dev/sda");
    assert_eq!(activate_swap(&swap("/dev/sda", Some(5))).unwrap().1, 0x8000 | 5);
}

#[test]
fn a_mount_settles_as_its_result_says() {
    let mut record = mount("/srv", "/dev/sda1");
    assert!(settle(&mut record, 0, true));
    assert_eq!(record.state, UnitState::Active);
    assert!(settle(&mut record, 0, false));
    assert_eq!(record.state, UnitState::Inactive);
    assert!(!settle(&mut record, -1, true));
    assert_eq!(record.state, UnitState::Inactive);
}

#[test]
fn directory_modes_are_octal() {
    assert_eq!(directory_mode(""), DirectoryMode::Keep);
    assert_eq!(directory_mode("0755"), DirectoryMode::Change(0o755));
    assert_eq!(directory_mode("700"), DirectoryMode::Change(0o700));
    assert_eq!(directory_mode("0"), DirectoryMode::Invalid);
    assert_eq!(directory_mode("0789"), DirectoryMode::Invalid);
    assert_eq!(directory_mode("37777777777"), DirectoryMode::Change(u32::MAX));
    assert_eq!(directory_mode("40000000000"), DirectoryMode::Invalid);
}

fn candidate(name: &str, mode: u32) -> Candidate {
    Candidate {
        name: name.as_bytes().to_vec(),
        is_file: true,
        mode,
    }
}

#[test]
fn higher_priority_generator_shadows_same_basename() {
    let high = candidate("same-generator", 0o755);
    let low = candidate("same-generator", 0o755);
    assert_eq!(visible_generators(&vec![high, low]), vec![0]);
}

#[test]
fn generators_run_in_order_of_their_names() {
    let found = vec![
        candidate("zz", 0o755),
        candidate("aa", 0o644),
        candidate("mm", 0o100),
        candidate("aa", 0o755),
        candidate("zz", 0o755),
    ];
    assert_eq!(visible_generators(&found), vec![3, 2, 0]);
    assert_eq!(
        system_generator_dirs(),
        vec![
            "/etc/rustd/system-generators",
            "/run/rustd/system-generators",
            "/usr/local/lib/rustd/system-generators",
            "/usr/lib/rustd/system-generators",
        ]
    );
    assert_eq!(
        output_directories("/run/rustd"),
        (
            "/run/rustd/generator.early".to_owned(),
            "/run/rustd/generator".to_owned(),
            "/run/rustd/generator.late".to_owned(),
        )
    );
}

#[test]
fn fnmatch_noescape_patterns() {
    assert!(matches_no_escape("*.service", "example.service"));
    assert!(matches_no_escape("example-?.service", "example-a.service"));
    assert!(matches_no_escape("example-[ab].service", "example-a.service"));
    assert!(matches_no_escape("example-[!b].service", "example-a.service"));
    assert!(!matches_no_escape("*.socket", "example.service"));
    assert!(matches_no_escape(r"example\*.service", r"example\foo.service"));
}

#[test]
fn upstream_defaults_are_effective() {
    let policy = KillPolicy::from_service(&ServiceSection::default());
    assert_eq!(policy.mode, KillMode::ControlGroup);
    assert_eq!(policy.kill_signal, libc::SIGTERM);
    assert_eq!(policy.restart_kill_signal, libc::SIGTERM);
    assert_eq!(policy.final_kill_signal, libc::SIGKILL);
    assert_eq!(policy.watchdog_signal, libc::SIGABRT);
    assert!(policy.send_sigkill);
    assert!(!policy.send_sighup);
}

fn policy(mode: KillMode) -> KillPolicy {
    KillPolicy {
        mode,
        kill_signal: libc::SIGTERM,
        restart_kill_signal: libc::SIGTERM,
        final_kill_signal: libc::SIGKILL,
        watchdog_signal: libc::SIGABRT,
        send_sigkill: true,
        send_sighup: false,
    }
}

#[test]
fn mixed_only_signals_group_on_final_kill() {
    let policy = policy(KillMode::Mixed);
    assert!(!policy.signal_group(KillOperation::Terminate));
    assert!(!policy.signal_group(KillOperation::Watchdog));
    assert!(policy.signal_group(KillOperation::Kill));
}

#[test]
fn the_restart_signal_falls_back_to_the_kill_signal() {
    let section = ServiceSection {
        kill_signal: Some(libc::SIGINT),
        ..ServiceSection::default()
    };
    assert_eq!(KillPolicy::from_service(&section).restart_kill_signal, libc::SIGINT);
}

#[test]
fn signals_reach_each_process_once() {
    let mut policy = policy(KillMode::ControlGroup);
    policy.send_sighup = true;
    let plan = signal_primary(policy, Some(10), Some(10), KillOperation::Terminate).unwrap();
    assert_eq!(plan.pids, vec![10]);
    assert_eq!(plan.signal, libc::SIGTERM);
    assert!(plan.hangup);
    let plan = signal_primary(policy, Some(10), Some(11), KillOperation::Kill).unwrap();
    assert_eq!(plan.pids, vec![10, 11]);
    assert_eq!(plan.signal, libc::SIGKILL);
    assert!(!plan.hangup);
    assert_eq!(
        signal_cgroup_members(policy, KillOperation::Terminate),
        vec![libc::SIGTERM, libc::SIGHUP]
    );
    assert_eq!(signal_cgroup_members(policy, KillOperation::Kill), vec![libc::SIGKILL]);
}

#[test]
fn a_service_that_is_not_killed_gets_no_signal() {
    let policy = policy(KillMode::Nothing);
    for operation in [
        KillOperation::Terminate,
        KillOperation::Restart,
        KillOperation::Kill,
        KillOperation::Watchdog,
    ] {
        assert!(signal_primary(policy, Some(1), None, operation).is_none());
        assert!(signal_cgroup_members(policy, operation).is_empty());
    }
}

#[test]
fn root_is_a_mount_point() {
    assert!(is_mount_point("/", Some(1), Some(1)));
}

#[test]
fn missing_path_is_not_a_mount_point() {
    assert!(!is_mount_point("/nonexistent-rustd-mount-check", None, Some(1)));
}

#[test]
fn another_device_is_a_mount_point() {
    assert!(is_mount_point("/proc", Some(2), Some(1)));
    assert!(!is_mount_point("/etc", Some(1), Some(1)));
    assert!(!is_mount_point("/etc", Some(1), None));
    assert!(is_mount_point("//", Some(1), None));
    assert!(is_mount_point("/./", Some(1), None));
    assert!(!is_mount_point("", Some(1), None));
}

#[test]
fn required_mounts_cover_the_manager_prerequisites() {
    for target in ["/proc", "/sys", "/dev", "/sys/fs/cgroup"] {
        assert!(
            api_mounts()
                .iter()
                .any(|entry| entry.target == target && entry.required),
            "{target} must be a required API mount"
        );
    }
}

#[test]
fn only_required_mounts_stop_the_boot() {
    let mounts = api_mounts();
    let required = mounts.iter().find(|entry| entry.target == "/proc").unwrap();
    let optional = mounts.iter().find(|entry| entry.target == "/run").unwrap();
    assert_eq!(required.flags, libc::MS_NOSUID | libc::MS_NOEXEC | libc::MS_NODEV);
    assert_eq!(mount_outcome(required, MountAttempt::Done), MountOutcome::Mounted);
    assert_eq!(mount_outcome(required, MountAttempt::Refused(libc::EBUSY)), MountOutcome::Mounted);
    assert_eq!(mount_outcome(required, MountAttempt::Refused(libc::EPERM)), MountOutcome::Fail);
    assert_eq!(mount_outcome(optional, MountAttempt::Refused(libc::EPERM)), MountOutcome::Skip);
    assert_eq!(mount_outcome(required, MountAttempt::NoDirectory), MountOutcome::Fail);
    assert_eq!(mount_outcome(optional, MountAttempt::NoDirectory), MountOutcome::Skip);
}

#[test]
fn bus_introspection_accepts_joined_and_separate_arguments() {
    assert_eq!(
        bus_introspection_path(&vec!["--bus-introspect=list".to_owned()]),
        Some(Ok("list".to_owned()))
    );
    assert_eq!(
        bus_introspection_path(&vec![
            "--bus-introspect".to_owned(),
            "/io/rustd/Manager1".to_owned(),
        ]),
        Some(Ok("/io/rustd/Manager1".to_owned()))
    );
    assert!(matches!(
        bus_introspection_path(&vec!["--bus-introspect".to_owned()]),
        Some(Err(_))
    ));
}

#[test]
fn pid1_terminal_results_route_to_exact_machine_transitions() {
    for (result, expected) in [
        (LoopResult::Reboot, Transition::Reboot),
        (LoopResult::Poweroff, Transition::Poweroff),
        (LoopResult::Halt, Transition::Halt),
        (LoopResult::Kexec, Transition::Kexec),
        (LoopResult::Reexecute, Transition::Reexecute),
    ] {
        assert_eq!(transition(result, false), expected);
    }
}

#[test]
fn user_manager_never_performs_machine_wide_transitions() {
    for result in [
        LoopResult::Reboot,
        LoopResult::Poweroff,
        LoopResult::Halt,
        LoopResult::Kexec,
    ] {
        assert_eq!(transition(result, true), Transition::Suppressed(result));
    }
}

#[test]
fn normal_loop_results_do_not_request_transitions() {
    for result in [LoopResult::Continue, LoopResult::Exit] {
        assert_eq!(transition(result, false), Transition::Nothing);
    }
}

fn cmdline() -> KernelCmdline {
    KernelCmdline {
        emergency: false,
        rescue: false,
        debug: false,
        unit: None,
        default_timeout_start_sec: None,
        log_level: None,
        log_target: None,
    }
}

#[test]
fn the_command_line_picks_the_first_target() {
    let none = Arguments {
        user_mode: false,
        target: None,
    };
    assert_eq!(initial_target(&none, &cmdline()), "default.target");
    let mut line = cmdline();
    line.rescue = true;
    assert_eq!(boot_mode(&line), BootMode::Rescue);
    assert_eq!(initial_target(&none, &line), "rescue.target");
    line.emergency = true;
    assert_eq!(boot_mode(&line), BootMode::Emergency);
    let args = parse_arguments(&vec!["--user".to_owned(), "my.target".to_owned()]);
    assert!(args.user_mode);
    assert_eq!(args.target.as_deref(), Some("my.target"));
    assert_eq!(initial_target(&args, &line), "my.target");
}

#[test]
fn a_system_manager_takes_settings_from_the_kernel() {
    let mut line = cmdline();
    line.default_timeout_start_sec = Some(7);
    line.log_level = Some("debug".to_owned());
    let mut settings = Overridable {
        default_timeout_start_sec: 90,
        log_level: "info".to_owned(),
        log_target: "journal".to_owned(),
    };
    apply_cmdline(&mut settings, true, &line);
    assert_eq!(settings.default_timeout_start_sec, 90);
    apply_cmdline(&mut settings, false, &line);
    assert_eq!(settings.default_timeout_start_sec, 7);
    assert_eq!(settings.log_level, "debug");
    assert_eq!(settings.log_target, "journal");
}

#[test]
fn the_manager_prepares_what_it_runs_on() {
    assert_eq!(preparation(true, false, false, false), Preparation::Nothing);
    assert_eq!(preparation(false, true, false, false), Preparation::BareMetal);
    assert_eq!(preparation(false, true, true, false), Preparation::RootfulContainer);
    assert_eq!(preparation(false, false, false, false), Preparation::Nothing);
    assert_eq!(preparation(true, false, true, true), Preparation::RootlessContainer);
    assert_eq!(preparation(true, false, true, false), Preparation::Refuse);
}

#[test]
fn public_sandbox_layout_stays_service_compatible() {
    let sandbox = SpawnSandbox::default();
    assert_eq!(sandbox.flags.protect_system, 0);
    assert_eq!(sandbox.syscall_filter_rules.len(), 0);
}

#[test]
fn native_sandbox_appends_writable_path_vector() {
    let legacy = SpawnSandbox::default();
    let native = NativeSpawnSandbox::from_legacy(Some(&legacy));
    assert!(native.read_write_paths.is_empty());
    assert_eq!(native.read_write_paths.len(), 0);
}

#[test]
fn spawning_checks_its_arguments() {
    let sandbox = SpawnSandbox {
        flags: SandboxFlags {
            private_tmp: 1,
            ..SandboxFlags::default()
        },
        syscall_filter_rules: vec![SeccompRule { nr: 3, action: 4 }],
    };
    assert!(prepare_spawn(None, Vec::new()).unwrap().is_none());
    let native = prepare_spawn(Some(&sandbox), vec!["/srv".to_owned()]).unwrap().unwrap();
    assert_eq!(native.flags.private_tmp, 1);
    assert_eq!(native.syscall_filter_rules.len(), 1);
    assert_eq!(native.read_write_paths, vec!["/srv"]);
    let many: Vec<String> = (0..=MAX_READ_WRITE_PATHS).map(|_| "/x".to_owned()).collect();
    assert_eq!(prepare_spawn(None, many).unwrap_err(), -libc::E2BIG);
    assert_eq!(prepare_spawn(None, vec!["/a\0b".to_owned()]).unwrap_err(), -libc::EINVAL);
    assert_eq!(prepare_spawn(None, vec!["srv".to_owned()]).unwrap_err(), -libc::EINVAL);
    assert!(prepare_spawn(None, vec!["-/srv".to_owned()]).unwrap().is_some());
    assert_eq!(check_helper_path("/usr/lib/rustd/helper"), Ok(()));
    assert_eq!(check_helper_path("helper"), Err(HelperError::Relative));
    assert_eq!(check_helper_path("/a\0"), Err(HelperError::Nul));
}

#[test]
fn paths_join_like_directories() {
    assert_eq!(paths::join("/a", "b"), "/a/b");
    assert_eq!(paths::join("/a/", "b"), "/a/b");
    assert_eq!(paths::join("/a", "/b"), "/b");
    assert_eq!(paths::join("", "b"), "b");
    assert_eq!(paths::join("/a", ""), "/a/");
    for (dir, path) in [("/a", "b"), ("/a/", "b"), ("/a", "/b"), ("", "b"), ("/a", ""), ("/", "x")] {
        assert_eq!(paths::join(dir, path), Path::new(dir).join(path).to_string_lossy());
    }
}

#[test]
fn numbers_are_those_of_the_kernel() {
    let numbers = [
        (sys::EIO, libc::EIO),
        (sys::E2BIG, libc::E2BIG),
        (sys::EAGAIN, libc::EAGAIN),
        (sys::EINVAL, libc::EINVAL),
        (sys::SIGHUP, libc::SIGHUP),
        (sys::SIGINT, libc::SIGINT),
        (sys::SIGABRT, libc::SIGABRT),
        (sys::SIGKILL, libc::SIGKILL),
        (sys::SIGPIPE, libc::SIGPIPE),
        (sys::SIGTERM, libc::SIGTERM),
        (sys::CLD_EXITED, libc::CLD_EXITED),
        (rustd::mount_setup::EBUSY, libc::EBUSY),
        (rustd::filesystem_unit::MNT_FORCE, libc::MNT_FORCE),
        (rustd::filesystem_unit::MNT_DETACH, libc::MNT_DETACH),
    ];
    for (ours, theirs) in numbers {
        assert_eq!(ours, theirs);
    }
    let flags = [
        (rustd::filesystem_unit::MS_RDONLY, libc::MS_RDONLY),
        (rustd::filesystem_unit::MS_NOSUID, libc::MS_NOSUID),
        (rustd::filesystem_unit::MS_NODEV, libc::MS_NODEV),
        (rustd::filesystem_unit::MS_NOEXEC, libc::MS_NOEXEC),
        (rustd::filesystem_unit::MS_SYNCHRONOUS, libc::MS_SYNCHRONOUS),
        (rustd::filesystem_unit::MS_REMOUNT, libc::MS_REMOUNT),
        (rustd::filesystem_unit::MS_DIRSYNC, libc::MS_DIRSYNC),
        (rustd::filesystem_unit::MS_NOATIME, libc::MS_NOATIME),
        (rustd::filesystem_unit::MS_NODIRATIME, libc::MS_NODIRATIME),
        (rustd::filesystem_unit::MS_BIND, libc::MS_BIND),
        (rustd::filesystem_unit::MS_MOVE, libc::MS_MOVE),
        (rustd::filesystem_unit::MS_REC, libc::MS_REC),
        (rustd::filesystem_unit::MS_SILENT, libc::MS_SILENT),
        (rustd::filesystem_unit::MS_RELATIME, libc::MS_RELATIME),
        (rustd::filesystem_unit::MS_STRICTATIME, libc::MS_STRICTATIME),
        (rustd::filesystem_unit::MS_LAZYTIME, libc::MS_LAZYTIME),
    ];
    for (ours, theirs) in flags {
        assert_eq!(ours, theirs);
    }
}

#[test]
fn paths_are_compared_as_the_standard_library_does() {
    let samples = [
        "", ".", "./", "/", "//", "/.", "..", "a", "a/", "./a", "a/.", "a/./b", "a//b", "a/b", "/a/b", "/a//b/", "/a/./b",
        "a/..", "a/../b", ".a", "a.",
    ];
    for left in samples {
        for right in samples {
            assert_eq!(paths::same(left, right), Path::new(left) == Path::new(right), "{left:?} {right:?}");
        }
    }
    assert!(paths::same("/run/./rustd//journal/", "/run/rustd/journal"));
    assert!(!paths::same("./a", "a"));
}
