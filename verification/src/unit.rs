//! Plain data about units that the manager's decisions read.
//!
//! Time spans are whole nanoseconds.

use vstd::prelude::*;

use crate::text;

verus! {

/// Activation state of a unit.
#[derive(Debug, Clone, Copy, PartialEq, Eq, Structural)]
pub enum UnitState {
    Inactive,
    Activating,
    Active,
    Deactivating,
    Failed,
    Maintenance,
}

impl UnitState {
    /// The `ActiveState` string of each state.
    pub open spec fn name(self) -> Seq<char> {
        match self {
            UnitState::Inactive => "inactive"@,
            UnitState::Activating => "activating"@,
            UnitState::Active => "active"@,
            UnitState::Deactivating => "deactivating"@,
            UnitState::Failed => "failed"@,
            UnitState::Maintenance => "maintenance"@,
        }
    }

    /// Canonical `ActiveState` string.
    pub fn as_str(self) -> (r: &'static str)
        ensures
            r@ == self.name(),
    {
        match self {
            UnitState::Inactive => "inactive",
            UnitState::Activating => "activating",
            UnitState::Active => "active",
            UnitState::Deactivating => "deactivating",
            UnitState::Failed => "failed",
            UnitState::Maintenance => "maintenance",
        }
    }
}

/// What a `Condition...=` or `Assert...=` setting tests.
#[derive(Debug)]
pub enum ConditionKind {
    PathExists,
    PathExistsGlob,
    PathIsDirectory,
    PathIsSymbolicLink,
    PathIsMountPoint,
    PathIsReadWrite,
    PathIsEncrypted,
    DirectoryNotEmpty,
    Virtualization,
    Host,
    KernelCommandLine,
    KernelVersion,
    Version,
    Credential,
    Environment,
    Security,
    Capability,
    ACPower,
    NeedsUpdate,
    FirstBoot,
    Architecture,
    Firmware,
    Memory,
    CPUs,
    CPUFeature,
    /// A setting this manager does not know, by the rest of its name.
    Unknown(String),
}

/// One parsed condition.
#[derive(Debug)]
pub struct Condition {
    pub kind: ConditionKind,
    /// One of several conditions of which one must hold.
    pub trigger: bool,
    /// The condition is turned round.
    pub negate: bool,
    pub value: String,
}

/// The kind that a setting's name stands for, its prefix taken off.
pub open spec fn condition_kind(name: Seq<char>) -> Option<ConditionKind> {
    if name == "PathExists"@ {
        Some(ConditionKind::PathExists)
    } else if name == "PathExistsGlob"@ {
        Some(ConditionKind::PathExistsGlob)
    } else if name == "PathIsDirectory"@ {
        Some(ConditionKind::PathIsDirectory)
    } else if name == "PathIsSymbolicLink"@ {
        Some(ConditionKind::PathIsSymbolicLink)
    } else if name == "PathIsMountPoint"@ {
        Some(ConditionKind::PathIsMountPoint)
    } else if name == "PathIsReadWrite"@ {
        Some(ConditionKind::PathIsReadWrite)
    } else if name == "PathIsEncrypted"@ {
        Some(ConditionKind::PathIsEncrypted)
    } else if name == "DirectoryNotEmpty"@ {
        Some(ConditionKind::DirectoryNotEmpty)
    } else if name == "Virtualization"@ {
        Some(ConditionKind::Virtualization)
    } else if name == "Host"@ {
        Some(ConditionKind::Host)
    } else if name == "KernelCommandLine"@ {
        Some(ConditionKind::KernelCommandLine)
    } else if name == "KernelVersion"@ {
        Some(ConditionKind::KernelVersion)
    } else if name == "Version"@ {
        Some(ConditionKind::Version)
    } else if name == "Credential"@ {
        Some(ConditionKind::Credential)
    } else if name == "Environment"@ {
        Some(ConditionKind::Environment)
    } else if name == "Security"@ {
        Some(ConditionKind::Security)
    } else if name == "Capability"@ {
        Some(ConditionKind::Capability)
    } else if name == "ACPower"@ {
        Some(ConditionKind::ACPower)
    } else if name == "NeedsUpdate"@ {
        Some(ConditionKind::NeedsUpdate)
    } else if name == "FirstBoot"@ {
        Some(ConditionKind::FirstBoot)
    } else if name == "Architecture"@ {
        Some(ConditionKind::Architecture)
    } else if name == "Firmware"@ {
        Some(ConditionKind::Firmware)
    } else if name == "Memory"@ {
        Some(ConditionKind::Memory)
    } else if name == "CPUs"@ {
        Some(ConditionKind::CPUs)
    } else if name == "CPUFeature"@ {
        Some(ConditionKind::CPUFeature)
    } else {
        None
    }
}

fn kind_named(name: &str) -> (r: Option<ConditionKind>)
    ensures
        r == condition_kind(name@),
{
    if text::same(name, "PathExists") {
        Some(ConditionKind::PathExists)
    } else if text::same(name, "PathExistsGlob") {
        Some(ConditionKind::PathExistsGlob)
    } else if text::same(name, "PathIsDirectory") {
        Some(ConditionKind::PathIsDirectory)
    } else if text::same(name, "PathIsSymbolicLink") {
        Some(ConditionKind::PathIsSymbolicLink)
    } else if text::same(name, "PathIsMountPoint") {
        Some(ConditionKind::PathIsMountPoint)
    } else if text::same(name, "PathIsReadWrite") {
        Some(ConditionKind::PathIsReadWrite)
    } else if text::same(name, "PathIsEncrypted") {
        Some(ConditionKind::PathIsEncrypted)
    } else if text::same(name, "DirectoryNotEmpty") {
        Some(ConditionKind::DirectoryNotEmpty)
    } else if text::same(name, "Virtualization") {
        Some(ConditionKind::Virtualization)
    } else if text::same(name, "Host") {
        Some(ConditionKind::Host)
    } else if text::same(name, "KernelCommandLine") {
        Some(ConditionKind::KernelCommandLine)
    } else if text::same(name, "KernelVersion") {
        Some(ConditionKind::KernelVersion)
    } else if text::same(name, "Version") {
        Some(ConditionKind::Version)
    } else if text::same(name, "Credential") {
        Some(ConditionKind::Credential)
    } else if text::same(name, "Environment") {
        Some(ConditionKind::Environment)
    } else if text::same(name, "Security") {
        Some(ConditionKind::Security)
    } else if text::same(name, "Capability") {
        Some(ConditionKind::Capability)
    } else if text::same(name, "ACPower") {
        Some(ConditionKind::ACPower)
    } else if text::same(name, "NeedsUpdate") {
        Some(ConditionKind::NeedsUpdate)
    } else if text::same(name, "FirstBoot") {
        Some(ConditionKind::FirstBoot)
    } else if text::same(name, "Architecture") {
        Some(ConditionKind::Architecture)
    } else if text::same(name, "Firmware") {
        Some(ConditionKind::Firmware)
    } else if text::same(name, "Memory") {
        Some(ConditionKind::Memory)
    } else if text::same(name, "CPUs") {
        Some(ConditionKind::CPUs)
    } else if text::same(name, "CPUFeature") {
        Some(ConditionKind::CPUFeature)
    } else {
        None
    }
}

/// What is left of a text behind a prefix, if it has it.
pub open spec fn behind(s: Seq<char>, prefix: Seq<char>) -> Option<Seq<char>> {
    if prefix.is_prefix_of(s) {
        Some(s.skip(prefix.len() as int))
    } else {
        None
    }
}

/// A text without a prefix, if it has it.
pub open spec fn without(s: Seq<char>, prefix: Seq<char>) -> Seq<char> {
    match behind(s, prefix) {
        Some(rest) => rest,
        None => s,
    }
}

fn strip(s: &str, prefix: &str) -> (r: Option<String>)
    ensures
        match r {
            Some(rest) => behind(s@, prefix@) == Some(rest@),
            None => behind(s@, prefix@) is None,
        },
{
    if !text::starts_with(s, prefix) {
        return None;
    }
    let chars = text::chars_of(s);
    let at: usize = text::chars_of(prefix).len();
    let rest = text::substring(chars.as_slice(), at, chars.len());
    assert(rest@ =~= s@.skip(at as int));
    Some(rest)
}

/// What names a condition behind `Condition` or `Assert`.
pub open spec fn condition_name(key: Seq<char>) -> Seq<char> {
    match behind(key, "Condition"@) {
        Some(rest) => rest,
        None => without(key, "Assert"@),
    }
}

impl Condition {
    /// Read a `Condition...=` or `Assert...=` setting: `|` before the value
    /// makes it a trigger, and `!` behind that turns it round.
    pub fn parse(key: &str, value: &str) -> (r: Self)
        ensures
            match condition_kind(condition_name(key@)) {
                Some(kind) => r.kind == kind,
                None => r.kind matches ConditionKind::Unknown(name) && name@ == condition_name(key@),
            },
            r.trigger == ("|"@.is_prefix_of(value@)),
            r.negate == ("!"@.is_prefix_of(without(value@, "|"@))),
            r.value@ == without(without(value@, "|"@), "!"@),
    {
        let name = match strip(key, "Condition") {
            Some(rest) => rest,
            None => match strip(key, "Assert") {
                Some(rest) => rest,
                None => key.to_owned(),
            },
        };
        let kind = match kind_named(name.as_str()) {
            Some(kind) => kind,
            None => ConditionKind::Unknown(name),
        };
        let (trigger, rest) = match strip(value, "|") {
            Some(rest) => (true, rest),
            None => (false, value.to_owned()),
        };
        let (negate, value) = match strip(rest.as_str(), "!") {
            Some(value) => (true, value),
            None => (false, rest),
        };
        Condition { kind, trigger, negate, value }
    }
}

/// Inactive-unit collection policy.
#[derive(Debug, Clone, Copy, PartialEq, Eq, Structural)]
pub enum CollectMode {
    Inactive,
    InactiveOrFailed,
}

/// What a unit's outcome does to the machine or the manager.
#[derive(Debug, Clone, Copy, PartialEq, Eq, Structural)]
pub enum UnitAction {
    Nothing,
    Reboot,
    RebootForce,
    RebootImmediate,
    Poweroff,
    PoweroffForce,
    PoweroffImmediate,
    Exit,
    ExitForce,
    SoftReboot,
    SoftRebootForce,
    Halt,
    KExec,
}

/// The `[Unit]` section.
#[derive(Debug)]
pub struct UnitSection {
    pub description: String,
    pub source_path: String,
    pub documentation: Vec<String>,
    pub requires: Vec<String>,
    pub requisite: Vec<String>,
    pub wants: Vec<String>,
    pub binds_to: Vec<String>,
    pub part_of: Vec<String>,
    pub upholds: Vec<String>,
    pub conflicts: Vec<String>,
    pub before: Vec<String>,
    pub after: Vec<String>,
    pub on_success: Vec<String>,
    pub on_failure: Vec<String>,
    pub propagates_reload_to: Vec<String>,
    pub reload_propagated_from: Vec<String>,
    pub propagates_stop_to: Vec<String>,
    pub stop_propagated_from: Vec<String>,
    pub joins_namespace_of: Vec<String>,
    pub requires_mounts_for: Vec<String>,
    pub wants_mounts_for: Vec<String>,
    pub stop_when_unneeded: bool,
    pub refuse_manual_start: bool,
    pub refuse_manual_stop: bool,
    pub allow_isolate: bool,
    pub ignore_on_isolate: bool,
    pub survive_final_kill_signal: bool,
    pub default_dependencies: bool,
    pub on_success_job_mode: String,
    pub on_failure_job_mode: String,
    pub conditions: Vec<Condition>,
    pub asserts: Vec<Condition>,
    pub collect_mode: CollectMode,
    pub job_timeout_sec: Option<u128>,
    pub job_running_timeout_sec: Option<u128>,
    pub job_timeout_action: UnitAction,
    pub job_timeout_reboot_argument: String,
    pub start_limit_interval_sec: Option<u128>,
    pub start_limit_burst: Option<u32>,
    pub start_limit_action: UnitAction,
    pub failure_action: UnitAction,
    pub success_action: UnitAction,
    pub failure_action_exit_status: Option<i32>,
    pub success_action_exit_status: Option<i32>,
    pub reboot_argument: String,
}

impl UnitSection {
    /// Whether nothing is set: every list and text is empty, every switch but
    /// `DefaultDependencies=` is off, and no limit or action is given.
    pub open spec fn is_default(self) -> bool {
        &&& self.description@ == Seq::<char>::empty()
        &&& self.source_path@ == Seq::<char>::empty()
        &&& self.documentation@.len() == 0
        &&& self.requires@.len() == 0
        &&& self.requisite@.len() == 0
        &&& self.wants@.len() == 0
        &&& self.binds_to@.len() == 0
        &&& self.part_of@.len() == 0
        &&& self.upholds@.len() == 0
        &&& self.conflicts@.len() == 0
        &&& self.before@.len() == 0
        &&& self.after@.len() == 0
        &&& self.on_success@.len() == 0
        &&& self.on_failure@.len() == 0
        &&& self.propagates_reload_to@.len() == 0
        &&& self.reload_propagated_from@.len() == 0
        &&& self.propagates_stop_to@.len() == 0
        &&& self.stop_propagated_from@.len() == 0
        &&& self.joins_namespace_of@.len() == 0
        &&& self.requires_mounts_for@.len() == 0
        &&& self.wants_mounts_for@.len() == 0
        &&& !self.stop_when_unneeded
        &&& !self.refuse_manual_start
        &&& !self.refuse_manual_stop
        &&& !self.allow_isolate
        &&& !self.ignore_on_isolate
        &&& !self.survive_final_kill_signal
        &&& self.default_dependencies
        &&& self.on_success_job_mode@ == Seq::<char>::empty()
        &&& self.on_failure_job_mode@ == Seq::<char>::empty()
        &&& self.conditions@.len() == 0
        &&& self.asserts@.len() == 0
        &&& self.collect_mode is Inactive
        &&& self.job_timeout_sec is None
        &&& self.job_running_timeout_sec is None
        &&& self.job_timeout_action is Nothing
        &&& self.job_timeout_reboot_argument@ == Seq::<char>::empty()
        &&& self.start_limit_interval_sec is None
        &&& self.start_limit_burst is None
        &&& self.start_limit_action is Nothing
        &&& self.failure_action is Nothing
        &&& self.success_action is Nothing
        &&& self.failure_action_exit_status is None
        &&& self.success_action_exit_status is None
        &&& self.reboot_argument@ == Seq::<char>::empty()
    }
}

impl Default for UnitSection {
    fn default() -> (r: Self)
        ensures
            r.is_default(),
    {
        UnitSection {
            description: String::new(),
            source_path: String::new(),
            documentation: Vec::new(),
            requires: Vec::new(),
            requisite: Vec::new(),
            wants: Vec::new(),
            binds_to: Vec::new(),
            part_of: Vec::new(),
            upholds: Vec::new(),
            conflicts: Vec::new(),
            before: Vec::new(),
            after: Vec::new(),
            on_success: Vec::new(),
            on_failure: Vec::new(),
            propagates_reload_to: Vec::new(),
            reload_propagated_from: Vec::new(),
            propagates_stop_to: Vec::new(),
            stop_propagated_from: Vec::new(),
            joins_namespace_of: Vec::new(),
            requires_mounts_for: Vec::new(),
            wants_mounts_for: Vec::new(),
            stop_when_unneeded: false,
            refuse_manual_start: false,
            refuse_manual_stop: false,
            allow_isolate: false,
            ignore_on_isolate: false,
            survive_final_kill_signal: false,
            default_dependencies: true,
            on_success_job_mode: String::new(),
            on_failure_job_mode: String::new(),
            conditions: Vec::new(),
            asserts: Vec::new(),
            collect_mode: CollectMode::Inactive,
            job_timeout_sec: None,
            job_running_timeout_sec: None,
            job_timeout_action: UnitAction::Nothing,
            job_timeout_reboot_argument: String::new(),
            start_limit_interval_sec: None,
            start_limit_burst: None,
            start_limit_action: UnitAction::Nothing,
            failure_action: UnitAction::Nothing,
            success_action: UnitAction::Nothing,
            failure_action_exit_status: None,
            success_action_exit_status: None,
            reboot_argument: String::new(),
        }
    }
}

/// `Type=` of a service.
#[derive(Debug, Clone, Copy, PartialEq, Eq, Structural)]
pub enum ServiceType {
    Simple,
    Exec,
    Forking,
    Oneshot,
    Dbus,
    Notify,
    NotifyReload,
    Idle,
}

/// `Restart=` of a service.
#[derive(Debug, Clone, Copy, PartialEq, Eq, Structural)]
pub enum RestartPolicy {
    No,
    OnSuccess,
    OnFailure,
    OnAbnormal,
    OnWatchdog,
    OnAbort,
    Always,
}

/// Which processes of a service may send notifications.
#[derive(Debug, Clone, Copy, PartialEq, Eq, Structural)]
pub enum NotifyAccess {
    Nobody,
    Main,
    Exec,
    All,
}

/// Which processes of a unit are signalled when it stops.
#[derive(Debug, Clone, Copy, PartialEq, Eq, Structural)]
pub enum KillMode {
    ControlGroup,
    Process,
    Mixed,
    Nothing,
}

/// The `[Service]` section.
#[derive(Debug)]
pub struct ServiceSection {
    pub service_type: ServiceType,
    pub restart: RestartPolicy,
    pub notify_access: NotifyAccess,
    pub watchdog_sec: Option<u128>,
    pub timeout_start_sec: Option<u128>,
    pub timeout_stop_sec: Option<u128>,
    pub timeout_abort_sec: Option<u128>,
    pub timeout_start_failure_mode: String,
    pub timeout_stop_failure_mode: String,
    pub restart_sec: Option<u128>,
    pub restart_max_delay_sec: Option<u128>,
    pub restart_steps: Option<u32>,
    pub bus_name: String,
    pub pid_file: String,
    pub exec_reload: Vec<String>,
    pub oom_policy: String,
    pub file_descriptor_store_max: u32,
    pub kill_mode: KillMode,
    pub kill_signal: Option<i32>,
    pub restart_kill_signal: Option<i32>,
    pub final_kill_signal: Option<i32>,
    pub watchdog_signal: Option<i32>,
    pub send_sigkill: Option<bool>,
    pub send_sighup: bool,
    pub resource_control_configured: bool,
}

impl ServiceSection {
    /// Whether nothing is set.
    pub open spec fn is_default(self) -> bool {
        &&& self.service_type is Simple
        &&& self.restart is No
        &&& self.notify_access is Nobody
        &&& self.watchdog_sec is None
        &&& self.timeout_start_sec is None
        &&& self.timeout_stop_sec is None
        &&& self.timeout_abort_sec is None
        &&& self.timeout_start_failure_mode@ == Seq::<char>::empty()
        &&& self.timeout_stop_failure_mode@ == Seq::<char>::empty()
        &&& self.restart_sec is None
        &&& self.restart_max_delay_sec is None
        &&& self.restart_steps is None
        &&& self.bus_name@ == Seq::<char>::empty()
        &&& self.pid_file@ == Seq::<char>::empty()
        &&& self.exec_reload@.len() == 0
        &&& self.oom_policy@ == Seq::<char>::empty()
        &&& self.file_descriptor_store_max == 0
        &&& self.kill_mode is ControlGroup
        &&& self.kill_signal is None
        &&& self.restart_kill_signal is None
        &&& self.final_kill_signal is None
        &&& self.watchdog_signal is None
        &&& self.send_sigkill is None
        &&& !self.send_sighup
        &&& !self.resource_control_configured
    }
}

impl Default for ServiceSection {
    fn default() -> (r: Self)
        ensures
            r.is_default(),
    {
        ServiceSection {
            service_type: ServiceType::Simple,
            restart: RestartPolicy::No,
            notify_access: NotifyAccess::Nobody,
            watchdog_sec: None,
            timeout_start_sec: None,
            timeout_stop_sec: None,
            timeout_abort_sec: None,
            timeout_start_failure_mode: String::new(),
            timeout_stop_failure_mode: String::new(),
            restart_sec: None,
            restart_max_delay_sec: None,
            restart_steps: None,
            bus_name: String::new(),
            pid_file: String::new(),
            exec_reload: Vec::new(),
            oom_policy: String::new(),
            file_descriptor_store_max: 0,
            kill_mode: KillMode::ControlGroup,
            kill_signal: None,
            restart_kill_signal: None,
            final_kill_signal: None,
            watchdog_signal: None,
            send_sigkill: None,
            send_sighup: false,
            resource_control_configured: false,
        }
    }
}

/// The part of the `[Socket]` section that decides which service a socket starts.
#[derive(Debug)]
pub struct SocketSection {
    /// `Service=`; empty when the socket's own name decides.
    pub service: String,
}

/// The `[Mount]` section.
#[derive(Debug)]
pub struct MountSection {
    pub what: String,
    pub where_path: String,
    pub fs_type: String,
    pub options: String,
    /// Octal mode of the mount point, or nothing.
    pub directory_mode: String,
    pub lazy_unmount: bool,
    pub force_unmount: bool,
}

/// The `[Swap]` settings that activation reads.
#[derive(Debug)]
pub struct SwapSection {
    pub what: String,
    pub priority: Option<i32>,
}

/// A loaded unit file of one type.
#[derive(Debug)]
pub struct ParsedUnit<S> {
    pub name: String,
    pub unit: UnitSection,
    pub specific: S,
}

/// A loaded unit file.
#[derive(Debug)]
pub enum LoadedUnit {
    Service(ParsedUnit<ServiceSection>),
    Socket(ParsedUnit<SocketSection>),
    Automount(ParsedUnit<()>),
    Timer(ParsedUnit<()>),
    Path(ParsedUnit<()>),
    Mount(ParsedUnit<MountSection>),
    Swap(ParsedUnit<SwapSection>),
    Target(ParsedUnit<()>),
    Slice(ParsedUnit<()>),
    Scope(ParsedUnit<()>),
}

impl LoadedUnit {
    /// The `[Unit]` section of any unit.
    pub open spec fn section(self) -> UnitSection {
        match self {
            LoadedUnit::Service(u) => u.unit,
            LoadedUnit::Socket(u) => u.unit,
            LoadedUnit::Automount(u) => u.unit,
            LoadedUnit::Timer(u) => u.unit,
            LoadedUnit::Path(u) => u.unit,
            LoadedUnit::Mount(u) => u.unit,
            LoadedUnit::Swap(u) => u.unit,
            LoadedUnit::Target(u) => u.unit,
            LoadedUnit::Slice(u) => u.unit,
            LoadedUnit::Scope(u) => u.unit,
        }
    }

    /// The characters of the unit's name.
    pub open spec fn id(self) -> Seq<char> {
        match self {
            LoadedUnit::Service(u) => u.name@,
            LoadedUnit::Socket(u) => u.name@,
            LoadedUnit::Automount(u) => u.name@,
            LoadedUnit::Timer(u) => u.name@,
            LoadedUnit::Path(u) => u.name@,
            LoadedUnit::Mount(u) => u.name@,
            LoadedUnit::Swap(u) => u.name@,
            LoadedUnit::Target(u) => u.name@,
            LoadedUnit::Slice(u) => u.name@,
            LoadedUnit::Scope(u) => u.name@,
        }
    }

    /// The `[Unit]` section.
    pub fn unit_section(&self) -> (r: &UnitSection)
        ensures
            *r == self.section(),
    {
        match self {
            LoadedUnit::Service(u) => &u.unit,
            LoadedUnit::Socket(u) => &u.unit,
            LoadedUnit::Automount(u) => &u.unit,
            LoadedUnit::Timer(u) => &u.unit,
            LoadedUnit::Path(u) => &u.unit,
            LoadedUnit::Mount(u) => &u.unit,
            LoadedUnit::Swap(u) => &u.unit,
            LoadedUnit::Target(u) => &u.unit,
            LoadedUnit::Slice(u) => &u.unit,
            LoadedUnit::Scope(u) => &u.unit,
        }
    }

    /// The unit's name.
    pub fn name(&self) -> (r: &String)
        ensures
            r@ == self.id(),
    {
        match self {
            LoadedUnit::Service(u) => &u.name,
            LoadedUnit::Socket(u) => &u.name,
            LoadedUnit::Automount(u) => &u.name,
            LoadedUnit::Timer(u) => &u.name,
            LoadedUnit::Path(u) => &u.name,
            LoadedUnit::Mount(u) => &u.name,
            LoadedUnit::Swap(u) => &u.name,
            LoadedUnit::Target(u) => &u.name,
            LoadedUnit::Slice(u) => &u.name,
            LoadedUnit::Scope(u) => &u.name,
        }
    }
}

/// Each kind of condition has its name, and other names have no kind.
pub proof fn law_conditions_have_their_names(name: Seq<char>)
    ensures
        condition_kind("PathExists"@) == Some(ConditionKind::PathExists),
        condition_kind("PathExistsGlob"@) == Some(ConditionKind::PathExistsGlob),
        condition_kind("PathIsDirectory"@) == Some(ConditionKind::PathIsDirectory),
        condition_kind("PathIsSymbolicLink"@) == Some(ConditionKind::PathIsSymbolicLink),
        condition_kind("PathIsMountPoint"@) == Some(ConditionKind::PathIsMountPoint),
        condition_kind("PathIsReadWrite"@) == Some(ConditionKind::PathIsReadWrite),
        condition_kind("PathIsEncrypted"@) == Some(ConditionKind::PathIsEncrypted),
        condition_kind("DirectoryNotEmpty"@) == Some(ConditionKind::DirectoryNotEmpty),
        condition_kind("Virtualization"@) == Some(ConditionKind::Virtualization),
        condition_kind("Host"@) == Some(ConditionKind::Host),
        condition_kind("KernelCommandLine"@) == Some(ConditionKind::KernelCommandLine),
        condition_kind("KernelVersion"@) == Some(ConditionKind::KernelVersion),
        condition_kind("Version"@) == Some(ConditionKind::Version),
        condition_kind("Credential"@) == Some(ConditionKind::Credential),
        condition_kind("Environment"@) == Some(ConditionKind::Environment),
        condition_kind("Security"@) == Some(ConditionKind::Security),
        condition_kind("Capability"@) == Some(ConditionKind::Capability),
        condition_kind("ACPower"@) == Some(ConditionKind::ACPower),
        condition_kind("NeedsUpdate"@) == Some(ConditionKind::NeedsUpdate),
        condition_kind("FirstBoot"@) == Some(ConditionKind::FirstBoot),
        condition_kind("Architecture"@) == Some(ConditionKind::Architecture),
        condition_kind("Firmware"@) == Some(ConditionKind::Firmware),
        condition_kind("Memory"@) == Some(ConditionKind::Memory),
        condition_kind("CPUs"@) == Some(ConditionKind::CPUs),
        condition_kind("CPUFeature"@) == Some(ConditionKind::CPUFeature),
        condition_kind(name) is Some <==> name == "PathExists"@ || name == "PathExistsGlob"@ || name == "PathIsDirectory"@ || name == "PathIsSymbolicLink"@ || name == "PathIsMountPoint"@ || name == "PathIsReadWrite"@ || name == "PathIsEncrypted"@ || name == "DirectoryNotEmpty"@ || name == "Virtualization"@ || name == "Host"@ || name == "KernelCommandLine"@ || name == "KernelVersion"@ || name == "Version"@ || name == "Credential"@ || name == "Environment"@ || name == "Security"@ || name == "Capability"@ || name == "ACPower"@ || name == "NeedsUpdate"@ || name == "FirstBoot"@ || name == "Architecture"@ || name == "Firmware"@ || name == "Memory"@ || name == "CPUs"@ || name == "CPUFeature"@,
        condition_kind(name) matches Some(kind) ==> !(kind is Unknown),
{
    reveal_strlit("PathExists");
    reveal_strlit("PathExistsGlob");
    reveal_strlit("PathIsDirectory");
    reveal_strlit("PathIsSymbolicLink");
    reveal_strlit("PathIsMountPoint");
    reveal_strlit("PathIsReadWrite");
    reveal_strlit("PathIsEncrypted");
    reveal_strlit("DirectoryNotEmpty");
    reveal_strlit("Virtualization");
    reveal_strlit("Host");
    reveal_strlit("KernelCommandLine");
    reveal_strlit("KernelVersion");
    reveal_strlit("Version");
    reveal_strlit("Credential");
    reveal_strlit("Environment");
    reveal_strlit("Security");
    reveal_strlit("Capability");
    reveal_strlit("ACPower");
    reveal_strlit("NeedsUpdate");
    reveal_strlit("FirstBoot");
    reveal_strlit("Architecture");
    reveal_strlit("Firmware");
    reveal_strlit("Memory");
    reveal_strlit("CPUs");
    reveal_strlit("CPUFeature");
    assert("PathExists"@.len() == 10);
    assert("PathExistsGlob"@.len() == 14);
    assert("PathIsDirectory"@.len() == 15);
    assert("PathIsSymbolicLink"@.len() == 18);
    assert("PathIsMountPoint"@.len() == 16);
    assert("PathIsReadWrite"@.len() == 15);
    assert("PathIsEncrypted"@.len() == 15);
    assert("DirectoryNotEmpty"@.len() == 17);
    assert("Virtualization"@.len() == 14);
    assert("Host"@.len() == 4);
    assert("KernelCommandLine"@.len() == 17);
    assert("KernelVersion"@.len() == 13);
    assert("Version"@.len() == 7);
    assert("Credential"@.len() == 10);
    assert("Environment"@.len() == 11);
    assert("Security"@.len() == 8);
    assert("Capability"@.len() == 10);
    assert("ACPower"@.len() == 7);
    assert("NeedsUpdate"@.len() == 11);
    assert("FirstBoot"@.len() == 9);
    assert("Architecture"@.len() == 12);
    assert("Firmware"@.len() == 8);
    assert("Memory"@.len() == 6);
    assert("CPUs"@.len() == 4);
    assert("CPUFeature"@.len() == 10);
    assert("ACPower"@[0] == 'A');
    assert("CPUFeature"@[0] == 'C');
    assert("CPUFeature"@[1] == 'P');
    assert("CPUs"@[0] == 'C');
    assert("Capability"@[0] == 'C');
    assert("Capability"@[1] == 'a');
    assert("Credential"@[0] == 'C');
    assert("Credential"@[1] == 'r');
    assert("DirectoryNotEmpty"@[0] == 'D');
    assert("Environment"@[0] == 'E');
    assert("Firmware"@[0] == 'F');
    assert("Host"@[0] == 'H');
    assert("KernelCommandLine"@[0] == 'K');
    assert("NeedsUpdate"@[0] == 'N');
    assert("PathExists"@[0] == 'P');
    assert("PathExistsGlob"@[0] == 'P');
    assert("PathIsDirectory"@[6] == 'D');
    assert("PathIsEncrypted"@[6] == 'E');
    assert("PathIsReadWrite"@[6] == 'R');
    assert("Security"@[0] == 'S');
    assert("Version"@[0] == 'V');
    assert("Virtualization"@[0] == 'V');
}

/// The name of a condition is its key without the word before it, `Condition`
/// or `Assert`. What is taken off is taken off once.
pub proof fn law_how_conditions_are_named(name: Seq<char>, prefix: Seq<char>, s: Seq<char>)
    ensures
        condition_name("Condition"@ + name) == name,
        condition_name("Assert"@ + name) == name,
        !"Condition"@.is_prefix_of(name) && !"Assert"@.is_prefix_of(name) ==> condition_name(name) == name,
        without(prefix + name, prefix) == name,
        behind(prefix + name, prefix) == Some(name),
        behind(s, prefix) matches Some(rest) ==> s == prefix + rest,
        !prefix.is_prefix_of(s) ==> without(s, prefix) == s && behind(s, prefix) is None,
{
    reveal_strlit("Condition");
    reveal_strlit("Assert");
    let c = "Condition"@ + name;
    assert("Condition"@ =~= c.subrange(0, "Condition"@.len() as int));
    assert(c.skip("Condition"@.len() as int) =~= name);
    let a = "Assert"@ + name;
    assert("Assert"@ =~= a.subrange(0, "Assert"@.len() as int));
    assert(a.skip("Assert"@.len() as int) =~= name);
    assert(a[0] == 'A' && "Condition"@[0] == 'C');
    assert(!"Condition"@.is_prefix_of(a)) by {
        if "Condition"@.is_prefix_of(a) {
            assert(a.subrange(0, "Condition"@.len() as int)[0] == 'C');
        }
    }
    let p = prefix + name;
    assert(prefix =~= p.subrange(0, prefix.len() as int));
    assert(p.skip(prefix.len() as int) =~= name);
    if prefix.is_prefix_of(s) {
        assert(s =~= prefix + s.skip(prefix.len() as int));
    }
}

/// The words for states, no two alike.
pub proof fn law_words_for_states(a: UnitState, b: UnitState)
    ensures
        a is Inactive ==> a.name() == "inactive"@,
        a is Activating ==> a.name() == "activating"@,
        a is Active ==> a.name() == "active"@,
        a is Deactivating ==> a.name() == "deactivating"@,
        a is Failed ==> a.name() == "failed"@,
        a is Maintenance ==> a.name() == "maintenance"@,
{
}

/// What a unit says where nothing is set: nothing, but that it has the default
/// dependencies.
pub proof fn law_what_a_unit_says_by_default(section: UnitSection)
    requires
        section.is_default(),
    ensures
        section.description@ == Seq::<char>::empty(),
        section.source_path@ == Seq::<char>::empty(),
        section.documentation@.len() == 0,
        section.requires@.len() == 0,
        section.requisite@.len() == 0,
        section.wants@.len() == 0,
        section.binds_to@.len() == 0,
        section.part_of@.len() == 0,
        section.upholds@.len() == 0,
        section.conflicts@.len() == 0,
        section.before@.len() == 0,
        section.after@.len() == 0,
        section.on_success@.len() == 0,
        section.on_failure@.len() == 0,
        section.propagates_reload_to@.len() == 0,
        section.reload_propagated_from@.len() == 0,
        section.propagates_stop_to@.len() == 0,
        section.stop_propagated_from@.len() == 0,
        section.joins_namespace_of@.len() == 0,
        section.requires_mounts_for@.len() == 0,
        section.wants_mounts_for@.len() == 0,
        !section.stop_when_unneeded,
        !section.refuse_manual_start,
        !section.refuse_manual_stop,
        !section.allow_isolate,
        !section.ignore_on_isolate,
        !section.survive_final_kill_signal,
        section.default_dependencies,
        section.on_success_job_mode@ == Seq::<char>::empty(),
        section.on_failure_job_mode@ == Seq::<char>::empty(),
        section.conditions@.len() == 0,
        section.asserts@.len() == 0,
        section.collect_mode is Inactive,
        section.job_timeout_sec is None,
        section.job_running_timeout_sec is None,
        section.job_timeout_action is Nothing,
        section.job_timeout_reboot_argument@ == Seq::<char>::empty(),
        section.start_limit_interval_sec is None,
        section.start_limit_burst is None,
        section.start_limit_action is Nothing,
        section.failure_action is Nothing,
        section.success_action is Nothing,
        section.failure_action_exit_status is None,
        section.success_action_exit_status is None,
        section.reboot_argument@ == Seq::<char>::empty(),
{
}

/// What a service says where nothing is set.
pub proof fn law_what_a_service_says_by_default(service: ServiceSection)
    requires
        service.is_default(),
    ensures
        service.service_type is Simple,
        service.restart is No,
        service.notify_access is Nobody,
        service.watchdog_sec is None,
        service.timeout_start_sec is None,
        service.timeout_stop_sec is None,
        service.timeout_abort_sec is None,
        service.timeout_start_failure_mode@ == Seq::<char>::empty(),
        service.timeout_stop_failure_mode@ == Seq::<char>::empty(),
        service.restart_sec is None,
        service.restart_max_delay_sec is None,
        service.restart_steps is None,
        service.bus_name@ == Seq::<char>::empty(),
        service.pid_file@ == Seq::<char>::empty(),
        service.exec_reload@.len() == 0,
        service.oom_policy@ == Seq::<char>::empty(),
        service.file_descriptor_store_max == 0,
        service.kill_mode is ControlGroup,
        service.kill_signal is None,
        service.restart_kill_signal is None,
        service.final_kill_signal is None,
        service.watchdog_signal is None,
        service.send_sigkill is None,
        !service.send_sighup,
        !service.resource_control_configured,
{
}

/// Every unit has its name and its section, whatever its type.
pub proof fn law_every_unit_has_a_name_and_a_section(unit: LoadedUnit)
    ensures
        unit matches LoadedUnit::Service(u) ==> unit.id() == u.name@ && unit.section() == u.unit,
        unit matches LoadedUnit::Socket(u) ==> unit.id() == u.name@ && unit.section() == u.unit,
        unit matches LoadedUnit::Automount(u) ==> unit.id() == u.name@ && unit.section() == u.unit,
        unit matches LoadedUnit::Timer(u) ==> unit.id() == u.name@ && unit.section() == u.unit,
        unit matches LoadedUnit::Path(u) ==> unit.id() == u.name@ && unit.section() == u.unit,
        unit matches LoadedUnit::Mount(u) ==> unit.id() == u.name@ && unit.section() == u.unit,
        unit matches LoadedUnit::Swap(u) ==> unit.id() == u.name@ && unit.section() == u.unit,
        unit matches LoadedUnit::Target(u) ==> unit.id() == u.name@ && unit.section() == u.unit,
        unit matches LoadedUnit::Slice(u) ==> unit.id() == u.name@ && unit.section() == u.unit,
        unit matches LoadedUnit::Scope(u) ==> unit.id() == u.name@ && unit.section() == u.unit,
{
}

} // verus!
