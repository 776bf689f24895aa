//! The D-Bus object of one unit: its properties and its lifecycle methods.

use vstd::prelude::*;

use crate::ipc::UnitInfo;
use crate::ipc_server::position;
use crate::job::{installed, JobKind, JobQueue, JobRegistry, JobView};
use crate::text;
use crate::unit::{
    condition_kind, condition_name, law_conditions_have_their_names, law_how_conditions_are_named, CollectMode, Condition,
    ConditionKind, LoadedUnit, UnitAction, UnitSection,
};

verus! {

/// The object tree that an object is registered in.
#[derive(Debug, Clone, Copy, PartialEq, Eq, Structural)]
pub enum DbusObjectNamespace {
    /// The manager's own tree.
    Native,
    /// The tree that tools for systemd look in.
    Systemd,
}

/// Where the jobs of an object tree stand.
pub open spec fn jobs_root(namespace: DbusObjectNamespace) -> Seq<char> {
    match namespace {
        DbusObjectNamespace::Native => "/io/rustd/Manager1/job/"@,
        DbusObjectNamespace::Systemd => "/org/freedesktop/systemd1/job/"@,
    }
}

/// The bus path of a job in an object tree.
pub open spec fn job_object(namespace: DbusObjectNamespace, id: u32) -> Seq<char> {
    jobs_root(namespace) + text::decimal(id as nat)
}

/// The bus path of a job in an object tree.
pub fn job_path_for(namespace: DbusObjectNamespace, id: u32) -> (r: String)
    ensures
        r@ == job_object(namespace, id),
{
    let mut path = match namespace {
        DbusObjectNamespace::Native => "/io/rustd/Manager1/job/".to_owned(),
        DbusObjectNamespace::Systemd => "/org/freedesktop/systemd1/job/".to_owned(),
    };
    path.push_str(text::decimal_of(id as u128).as_str());
    path
}

/// The bus path of a job in the manager's own tree.
pub fn job_path(id: u32) -> (r: String)
    ensures
        r@ == job_object(DbusObjectNamespace::Native, id),
{
    job_path_for(DbusObjectNamespace::Native, id)
}

/// What the object of a unit is served from: its name, what the manager last
/// published, the unit file as it is now, and the object tree it stands in.
#[derive(Debug)]
pub struct UnitInterface {
    /// Name of the unit.
    pub name: String,
    /// What the manager last published of all units.
    pub snapshot: Vec<UnitInfo>,
    /// The unit file, if it can be loaded.
    pub loaded: Option<LoadedUnit>,
    /// The object tree that the paths of jobs are given in.
    pub namespace: DbusObjectNamespace,
}

/// What was published of a unit: the first of its name.
pub open spec fn published(snapshot: Seq<UnitInfo>, name: Seq<char>) -> Option<UnitInfo> {
    let at = position(snapshot, name);
    if at < snapshot.len() {
        Some(snapshot[at])
    } else {
        None
    }
}

/// A text, or nothing where there is none.
pub open spec fn text_or<T>(value: Option<T>, f: spec_fn(T) -> Seq<char>, default: Seq<char>) -> Seq<char> {
    match value {
        Some(value) => f(value),
        None => default,
    }
}

/// The job modes.
pub open spec fn is_job_mode(mode: Seq<char>) -> bool {
    mode == "fail"@ || mode == "lenient"@ || mode == "replace"@ || mode == "replace-irreversibly"@ || mode == "isolate"@ || mode
        == "flush"@ || mode == "ignore-dependencies"@ || mode == "ignore-requirements"@ || mode == "triggering"@ || mode
        == "restart-dependencies"@
}

fn job_mode(mode: &str) -> (r: bool)
    ensures
        r == is_job_mode(mode@),
{
    text::same(mode, "fail") || text::same(mode, "lenient") || text::same(mode, "replace") || text::same(
        mode,
        "replace-irreversibly",
    ) || text::same(mode, "isolate") || text::same(mode, "flush") || text::same(mode, "ignore-dependencies") || text::same(
        mode,
        "ignore-requirements",
    ) || text::same(mode, "triggering") || text::same(mode, "restart-dependencies")
}

/// Why a job mode cannot be used for a request, if it cannot.
pub open spec fn mode_refused(mode: Seq<char>, request: Seq<char>) -> Option<Seq<char>> {
    if !is_job_mode(mode) {
        Some("Job mode "@ + mode + " invalid"@)
    } else if request != "start"@ && mode == "isolate"@ {
        Some("Isolate is only valid for start."@)
    } else if request != "stop"@ && mode == "triggering"@ {
        Some("--job-mode=triggering is only valid for stop."@)
    } else if request != "start"@ && mode == "restart-dependencies"@ {
        Some("--job-mode=restart-dependencies is only valid for start."@)
    } else {
        None
    }
}

/// A job mode that is set, or the default where the text is none.
pub open spec fn mode_or(mode: Seq<char>, default: Seq<char>) -> Seq<char> {
    if is_job_mode(mode) {
        mode
    } else {
        default
    }
}

/// A job mode that is set, or the default where the text is none.
pub fn job_mode_name(value: &str, default: &str) -> (r: String)
    ensures
        r@ == mode_or(value@, default@),
{
    if job_mode(value) {
        value.to_owned()
    } else {
        default.to_owned()
    }
}

/// Whole microseconds of a span, as far as the type reaches.
pub open spec fn usec(ns: u128) -> u64 {
    if ns / 1_000 > u64::MAX {
        u64::MAX
    } else {
        (ns / 1_000) as u64
    }
}

/// Whole microseconds of a span, as far as the type reaches.
pub fn duration_usec(ns: u128) -> (r: u64)
    ensures
        r == usec(ns),
{
    let micros: u128 = ns / 1_000;
    if micros > u64::MAX as u128 {
        u64::MAX
    } else {
        micros as u64
    }
}

/// The word for a collection policy.
pub open spec fn collect_mode_word(mode: CollectMode) -> Seq<char> {
    match mode {
        CollectMode::Inactive => "inactive"@,
        CollectMode::InactiveOrFailed => "inactive-or-failed"@,
    }
}

/// The word for a collection policy.
pub fn collect_mode_name(mode: CollectMode) -> (r: String)
    ensures
        r@ == collect_mode_word(mode),
{
    match mode {
        CollectMode::Inactive => "inactive".to_owned(),
        CollectMode::InactiveOrFailed => "inactive-or-failed".to_owned(),
    }
}

/// The word for an action.
pub open spec fn unit_action_word(action: UnitAction) -> Seq<char> {
    match action {
        UnitAction::Nothing => "none"@,
        UnitAction::Reboot => "reboot"@,
        UnitAction::RebootForce => "reboot-force"@,
        UnitAction::RebootImmediate => "reboot-immediate"@,
        UnitAction::Poweroff => "poweroff"@,
        UnitAction::PoweroffForce => "poweroff-force"@,
        UnitAction::PoweroffImmediate => "poweroff-immediate"@,
        UnitAction::Exit => "exit"@,
        UnitAction::ExitForce => "exit-force"@,
        UnitAction::SoftReboot => "soft-reboot"@,
        UnitAction::SoftRebootForce => "soft-reboot-force"@,
        UnitAction::Halt => "halt"@,
        UnitAction::KExec => "kexec"@,
    }
}

/// The word for an action.
pub fn unit_action_name(action: UnitAction) -> (r: String)
    ensures
        r@ == unit_action_word(action),
{
    match action {
        UnitAction::Nothing => "none".to_owned(),
        UnitAction::Reboot => "reboot".to_owned(),
        UnitAction::RebootForce => "reboot-force".to_owned(),
        UnitAction::RebootImmediate => "reboot-immediate".to_owned(),
        UnitAction::Poweroff => "poweroff".to_owned(),
        UnitAction::PoweroffForce => "poweroff-force".to_owned(),
        UnitAction::PoweroffImmediate => "poweroff-immediate".to_owned(),
        UnitAction::Exit => "exit".to_owned(),
        UnitAction::ExitForce => "exit-force".to_owned(),
        UnitAction::SoftReboot => "soft-reboot".to_owned(),
        UnitAction::SoftRebootForce => "soft-reboot-force".to_owned(),
        UnitAction::Halt => "halt".to_owned(),
        UnitAction::KExec => "kexec".to_owned(),
    }
}

/// The name of a condition kind. A test of the kernel's version is shown under
/// its newer name.
pub open spec fn condition_word(kind: ConditionKind) -> Seq<char> {
    match kind {
        ConditionKind::PathExists => "PathExists"@,
        ConditionKind::PathExistsGlob => "PathExistsGlob"@,
        ConditionKind::PathIsDirectory => "PathIsDirectory"@,
        ConditionKind::PathIsSymbolicLink => "PathIsSymbolicLink"@,
        ConditionKind::PathIsMountPoint => "PathIsMountPoint"@,
        ConditionKind::PathIsReadWrite => "PathIsReadWrite"@,
        ConditionKind::PathIsEncrypted => "PathIsEncrypted"@,
        ConditionKind::DirectoryNotEmpty => "DirectoryNotEmpty"@,
        ConditionKind::Virtualization => "Virtualization"@,
        ConditionKind::Host => "Host"@,
        ConditionKind::KernelCommandLine => "KernelCommandLine"@,
        ConditionKind::KernelVersion => "Version"@,
        ConditionKind::Version => "Version"@,
        ConditionKind::Credential => "Credential"@,
        ConditionKind::Environment => "Environment"@,
        ConditionKind::Security => "Security"@,
        ConditionKind::Capability => "Capability"@,
        ConditionKind::ACPower => "ACPower"@,
        ConditionKind::NeedsUpdate => "NeedsUpdate"@,
        ConditionKind::FirstBoot => "FirstBoot"@,
        ConditionKind::Architecture => "Architecture"@,
        ConditionKind::Firmware => "Firmware"@,
        ConditionKind::Memory => "Memory"@,
        ConditionKind::CPUs => "CPUs"@,
        ConditionKind::CPUFeature => "CPUFeature"@,
        ConditionKind::Unknown(value) => value@,
    }
}

/// The name of the setting that gave a condition or an assertion.
pub open spec fn condition_type(kind: ConditionKind, is_assert: bool) -> Seq<char> {
    (if is_assert {
        "Assert"@
    } else {
        "Condition"@
    }) + condition_word(kind)
}

/// The name of the setting that gave a condition or an assertion.
pub fn condition_type_name(kind: &ConditionKind, is_assert: bool) -> (r: String)
    ensures
        r@ == condition_type(*kind, is_assert),
{
    let mut name = if is_assert {
        "Assert".to_owned()
    } else {
        "Condition".to_owned()
    };
    let suffix = match kind {
        ConditionKind::PathExists => "PathExists",
        ConditionKind::PathExistsGlob => "PathExistsGlob",
        ConditionKind::PathIsDirectory => "PathIsDirectory",
        ConditionKind::PathIsSymbolicLink => "PathIsSymbolicLink",
        ConditionKind::PathIsMountPoint => "PathIsMountPoint",
        ConditionKind::PathIsReadWrite => "PathIsReadWrite",
        ConditionKind::PathIsEncrypted => "PathIsEncrypted",
        ConditionKind::DirectoryNotEmpty => "DirectoryNotEmpty",
        ConditionKind::Virtualization => "Virtualization",
        ConditionKind::Host => "Host",
        ConditionKind::KernelCommandLine => "KernelCommandLine",
        ConditionKind::KernelVersion => "Version",
        ConditionKind::Version => "Version",
        ConditionKind::Credential => "Credential",
        ConditionKind::Environment => "Environment",
        ConditionKind::Security => "Security",
        ConditionKind::Capability => "Capability",
        ConditionKind::ACPower => "ACPower",
        ConditionKind::NeedsUpdate => "NeedsUpdate",
        ConditionKind::FirstBoot => "FirstBoot",
        ConditionKind::Architecture => "Architecture",
        ConditionKind::Firmware => "Firmware",
        ConditionKind::Memory => "Memory",
        ConditionKind::CPUs => "CPUs",
        ConditionKind::CPUFeature => "CPUFeature",
        ConditionKind::Unknown(value) => value.as_str(),
    };
    name.push_str(suffix);
    name
}

/// Whether an entry shows a condition and whether it holds.
pub open spec fn shows_condition(entry: (String, bool, bool, String, i32), condition: Condition, is_assert: bool, holds: bool) -> bool {
    &&& entry.0@ == condition_type(condition.kind, is_assert)
    &&& entry.1 == condition.trigger
    &&& entry.2 == condition.negate
    &&& entry.3@ == condition.value@
    &&& entry.4 == if holds {
        1int
    } else {
        -1int
    }
}

/// The conditions as clients see them; `results` says which hold.
pub fn condition_entries(conditions: &Vec<Condition>, is_assert: bool, results: &Vec<bool>) -> (r: Vec<
    (String, bool, bool, String, i32),
>)
    requires
        results@.len() == conditions@.len(),
    ensures
        r@.len() == conditions@.len(),
        forall|i: int|
            0 <= i < r@.len() ==> shows_condition(#[trigger] r@[i], conditions@[i], is_assert, results@[i]),
{
    let mut out: Vec<(String, bool, bool, String, i32)> = Vec::new();
    let mut i: usize = 0;
    while i < conditions.len()
        invariant
            i <= conditions@.len(),
            results@.len() == conditions@.len(),
            out@.len() == i,
            forall|k: int|
                0 <= k < i ==> shows_condition(#[trigger] out@[k], conditions@[k], is_assert, results@[k]),
        decreases conditions@.len() - i,
    {
        let condition = &conditions[i];
        let result: i32 = if results[i] {
            1
        } else {
            -1
        };
        out.push(
            (
                condition_type_name(&condition.kind, is_assert),
                condition.trigger,
                condition.negate,
                condition.value.clone(),
                result,
            ),
        );
        i += 1;
    }
    out
}

/// Which job a request that depends on the unit's state comes to.
#[derive(Debug, Clone, Copy, PartialEq, Eq, Structural)]
pub enum LifecycleRequest {
    Start,
    Stop,
    Restart,
    Reload,
    TryRestart,
    ReloadOrRestart,
    ReloadOrTryRestart,
}

impl LifecycleRequest {
    /// The word by which a request is named where its mode is checked.
    pub open spec fn word(self) -> Seq<char> {
        match self {
            LifecycleRequest::Start => "start"@,
            LifecycleRequest::Stop => "stop"@,
            LifecycleRequest::Restart => "restart"@,
            LifecycleRequest::Reload => "reload"@,
            LifecycleRequest::TryRestart => "try-restart"@,
            LifecycleRequest::ReloadOrRestart => "reload-or-restart"@,
            LifecycleRequest::ReloadOrTryRestart => "reload-or-try-restart"@,
        }
    }

    /// The word by which a request is named where its mode is checked.
    pub fn as_str(self) -> (r: &'static str)
        ensures
            r@ == self.word(),
    {
        match self {
            LifecycleRequest::Start => "start",
            LifecycleRequest::Stop => "stop",
            LifecycleRequest::Restart => "restart",
            LifecycleRequest::Reload => "reload",
            LifecycleRequest::TryRestart => "try-restart",
            LifecycleRequest::ReloadOrRestart => "reload-or-restart",
            LifecycleRequest::ReloadOrTryRestart => "reload-or-try-restart",
        }
    }
}

/// Whether a unit file has a reload command.
pub open spec fn reloadable(loaded: Option<LoadedUnit>) -> bool {
    match loaded {
        Some(LoadedUnit::Service(service)) => service.specific.exec_reload@.len() > 0,
        _ => false,
    }
}

/// Whether a unit was published in one of two states.
pub open spec fn published_as(info: Option<UnitInfo>, first: Seq<char>, second: Seq<char>) -> bool {
    match info {
        Some(info) => info.active_state@ == first || info.active_state@ == second,
        None => false,
    }
}

/// Which job a request comes to. A conditional request that does not apply
/// comes to a job that does nothing.
pub open spec fn requested_kind(request: LifecycleRequest, info: Option<UnitInfo>, loaded: Option<LoadedUnit>) -> JobKind {
    let up = published_as(info, "active"@, "activating"@);
    let reloads = published_as(info, "active"@, "reloading"@);
    match request {
        LifecycleRequest::Start => JobKind::Start,
        LifecycleRequest::Stop => JobKind::Stop,
        LifecycleRequest::Restart => JobKind::Restart,
        LifecycleRequest::Reload => JobKind::Reload,
        LifecycleRequest::TryRestart => if up {
            JobKind::Restart
        } else {
            JobKind::Nop
        },
        LifecycleRequest::ReloadOrRestart => if !reloadable(loaded) {
            JobKind::Restart
        } else if reloads {
            JobKind::Reload
        } else {
            JobKind::Start
        },
        LifecycleRequest::ReloadOrTryRestart => if reloadable(loaded) {
            if reloads {
                JobKind::Reload
            } else {
                JobKind::Nop
            }
        } else if up {
            JobKind::Restart
        } else {
            JobKind::Nop
        },
    }
}

impl UnitInterface {
    /// What was published of this unit.
    pub open spec fn shown(self) -> Option<UnitInfo> {
        published(self.snapshot@, self.name@)
    }

    /// The `[Unit]` section, if the unit file can be loaded.
    pub open spec fn section(self) -> Option<UnitSection> {
        match self.loaded {
            Some(loaded) => Some(loaded.section()),
            None => None,
        }
    }

    /// What was published of this unit.
    pub fn info(&self) -> (r: Option<&UnitInfo>)
        ensures
            match r {
                Some(info) => self.shown() == Some(*info),
                None => self.shown() is None,
            },
    {
        let ghost all = self.snapshot@;
        let mut i: usize = 0;
        assert(all.skip(0) =~= all);
        while i < self.snapshot.len()
            invariant
                all == self.snapshot@,
                i <= all.len(),
                position(all, self.name@) == i + position(all.skip(i as int), self.name@),
            decreases all.len() - i,
        {
            assert(all.skip(i as int)[0] == all[i as int]);
            if text::same(self.snapshot[i].name.as_str(), self.name.as_str()) {
                return Some(&self.snapshot[i]);
            }
            assert(all.skip(i as int).drop_first() =~= all.skip(i + 1));
            i += 1;
        }
        assert(all.skip(i as int).len() == 0);
        None
    }

    fn unit_section(&self) -> (r: Option<&UnitSection>)
        ensures
            match r {
                Some(section) => self.section() == Some(*section),
                None => self.section() is None,
            },
    {
        match &self.loaded {
            Some(loaded) => Some(loaded.unit_section()),
            None => None,
        }
    }

    /// Check that a job mode can be used for a request; else why not.
    pub fn validate_mode(mode: &str, request: &str) -> (r: Result<(), String>)
        ensures
            match r {
                Ok(_) => mode_refused(mode@, request@) is None,
                Err(message) => mode_refused(mode@, request@) == Some(message@),
            },
    {
        if !job_mode(mode) {
            let mut message = "Job mode ".to_owned();
            message.push_str(mode);
            message.push_str(" invalid");
            return Err(message);
        }
        if !text::same(request, "start") && text::same(mode, "isolate") {
            return Err("Isolate is only valid for start.".to_owned());
        }
        if !text::same(request, "stop") && text::same(mode, "triggering") {
            return Err("--job-mode=triggering is only valid for stop.".to_owned());
        }
        if !text::same(request, "start") && text::same(mode, "restart-dependencies") {
            return Err("--job-mode=restart-dependencies is only valid for start.".to_owned());
        }
        Ok(())
    }

    fn active_or(&self, other: &str) -> (r: bool)
        ensures
            r == published_as(self.shown(), "active"@, other@),
    {
        match self.info() {
            Some(info) => text::same(info.active_state.as_str(), "active") || text::same(info.active_state.as_str(), other),
            None => false,
        }
    }

    /// Queue a job for the unit. The bus path of the job in the object's tree;
    /// the event loop is to be woken.
    pub fn enqueue(&self, queue: &mut JobQueue, registry: &mut JobRegistry, kind: JobKind) -> (r: String)
        requires
            old(registry).wf(),
            old(registry)@.next_id < u32::MAX,
        ensures
            final(registry).wf(),
            final(registry)@ == installed(old(registry)@, kind, self.name@, None),
            final(queue)@ == old(queue)@.push(JobView { id: old(registry)@.next_id, kind, unit: self.name@ }),
            r@ == job_object(self.namespace, old(registry)@.next_id),
    {
        let job = queue.enqueue(registry, kind, self.name.as_str());
        job_path_for(self.namespace, job.id)
    }

    /// Which job a request comes to.
    pub fn requested_job(&self, request: LifecycleRequest) -> (r: JobKind)
        ensures
            r == requested_kind(request, self.shown(), self.loaded),
    {
        match request {
            LifecycleRequest::Start => JobKind::Start,
            LifecycleRequest::Stop => JobKind::Stop,
            LifecycleRequest::Restart => JobKind::Restart,
            LifecycleRequest::Reload => JobKind::Reload,
            LifecycleRequest::TryRestart => if self.active_or("activating") {
                JobKind::Restart
            } else {
                JobKind::Nop
            },
            LifecycleRequest::ReloadOrRestart => if !self.can_reload() {
                JobKind::Restart
            } else if self.active_or("reloading") {
                JobKind::Reload
            } else {
                JobKind::Start
            },
            LifecycleRequest::ReloadOrTryRestart => if self.can_reload() {
                if self.active_or("reloading") {
                    JobKind::Reload
                } else {
                    JobKind::Nop
                }
            } else if self.active_or("activating") {
                JobKind::Restart
            } else {
                JobKind::Nop
            },
        }
    }

    /// `Id`: the canonical name.
    pub fn id(&self) -> (r: String)
        ensures
            r@ == self.name@,
    {
        self.name.clone()
    }

    /// `Names`: all names known for this unit.
    pub fn names(&self) -> (r: Vec<String>)
        ensures
            text::views(r@) == seq![self.name@],
    {
        let mut names: Vec<String> = Vec::new();
        names.push(self.name.clone());
        assert(text::views(names@) =~= seq![self.name@]);
        names
    }

    /// `CanReload`: whether the unit has a reload command.
    pub fn can_reload(&self) -> (r: bool)
        ensures
            r == reloadable(self.loaded),
    {
        match &self.loaded {
            Some(LoadedUnit::Service(service)) => service.specific.exec_reload.len() > 0,
            _ => false,
        }
    }

    /// `CanStart`: whether the unit can be started.
    pub fn can_start(&self) -> (r: bool)
        ensures
            r == (self.shown() is Some),
    {
        self.info().is_some()
    }

    /// `CanStop`: whether the unit can be stopped.
    pub fn can_stop(&self) -> (r: bool)
        ensures
            r == (self.shown() is Some),
    {
        self.info().is_some()
    }

    /// `InvocationID`: the identity of the current run, nothing before the
    /// first.
    pub fn invocation_id(&self) -> (r: Vec<u8>)
        ensures
            r@ == (match self.shown() {
                Some(info) => match info.service_runtime.invocation_id {
                    Some(id) => id@,
                    None => Seq::<u8>::empty(),
                },
                None => Seq::<u8>::empty(),
            }),
    {
        let mut out: Vec<u8> = Vec::new();
        if let Some(info) = self.info() {
            if let Some(id) = info.service_runtime.invocation_id {
                let mut i: usize = 0;
                while i < 16
                    invariant
                        i <= 16,
                        out@ == id@.take(i as int),
                    decreases 16 - i,
                {
                    out.push(id[i]);
                    assert(out@ =~= id@.take(i + 1));
                    i += 1;
                }
                assert(id@.take(16) =~= id@);
            }
        }
        out
    }

    /// `AllowIsolate`: whether the unit can be isolated.
    pub fn allow_isolate(&self) -> (r: bool)
        ensures
            r == (self.section() is Some && self.section()->0.allow_isolate && self.shown() is Some),
    {
        match self.unit_section() {
            Some(section) => section.allow_isolate && self.can_start(),
            None => false,
        }
    }

    /// `DefaultDependencies`: whether implicit dependencies are on.
    pub fn default_dependencies(&self) -> (r: bool)
        ensures
            r == (self.section() is Some ==> self.section()->0.default_dependencies),
    {
        match self.unit_section() {
            Some(section) => section.default_dependencies,
            None => true,
        }
    }

    /// `CollectMode`: the collection policy of inactive units.
    pub fn collect_mode(&self) -> (r: String)
        ensures
            r@ == text_or(self.section(), |s: UnitSection| collect_mode_word(s.collect_mode), "inactive"@),
    {
        match self.unit_section() {
            Some(section) => collect_mode_name(section.collect_mode),
            None => "inactive".to_owned(),
        }
    }

    /// `StartLimitBurst`: starts that are allowed in a window.
    pub fn start_limit_burst(&self) -> (r: u32)
        ensures
            r == (match self.section() {
                Some(section) => match section.start_limit_burst {
                    Some(burst) => burst,
                    None => 5,
                },
                None => 5,
            }),
    {
        match self.unit_section() {
            Some(section) => match section.start_limit_burst {
                Some(burst) => burst,
                None => 5,
            },
            None => 5,
        }
    }

    /// `Conditions`: the conditions; `results` says which hold.
    pub fn conditions(&self, results: &Vec<bool>) -> (r: Vec<(String, bool, bool, String, i32)>)
        requires
            self.section() is Some ==> results@.len() == self.section()->0.conditions@.len(),
        ensures
            match self.section() {
                Some(section) => r@.len() == section.conditions@.len() && forall|i: int|
                    0 <= i < r@.len() ==> shows_condition(#[trigger] r@[i], section.conditions@[i], false, results@[i]),
                None => r@.len() == 0,
            },
    {
        match self.unit_section() {
            Some(section) => condition_entries(&section.conditions, false, results),
            None => Vec::new(),
        }
    }

    /// `Asserts`: the assertions; `results` says which hold.
    pub fn asserts(&self, results: &Vec<bool>) -> (r: Vec<(String, bool, bool, String, i32)>)
        requires
            self.section() is Some ==> results@.len() == self.section()->0.asserts@.len(),
        ensures
            match self.section() {
                Some(section) => r@.len() == section.asserts@.len() && forall|i: int|
                    0 <= i < r@.len() ==> shows_condition(#[trigger] r@[i], section.asserts@[i], true, results@[i]),
                None => r@.len() == 0,
            },
    {
        match self.unit_section() {
            Some(section) => condition_entries(&section.asserts, true, results),
            None => Vec::new(),
        }
    }

    /// `Description`: as published, nothing where the unit was not.
    pub fn description(&self) -> (r: String)
        ensures
            r@ == text_or(self.shown(), |info: UnitInfo| info.description@, Seq::<char>::empty()),
    {
        match self.info() {
            Some(info) => info.description.clone(),
            None => String::new(),
        }
    }

    /// `LoadState`: as published, `not-found` where the unit was not.
    pub fn load_state(&self) -> (r: String)
        ensures
            r@ == text_or(self.shown(), |info: UnitInfo| info.load_state@, "not-found"@),
    {
        match self.info() {
            Some(info) => info.load_state.clone(),
            None => "not-found".to_owned(),
        }
    }

    /// `ActiveState`: as published, `inactive` where the unit was not.
    pub fn active_state(&self) -> (r: String)
        ensures
            r@ == text_or(self.shown(), |info: UnitInfo| info.active_state@, "inactive"@),
    {
        match self.info() {
            Some(info) => info.active_state.clone(),
            None => "inactive".to_owned(),
        }
    }

    /// `SubState`: as published, `dead` where the unit was not.
    pub fn sub_state(&self) -> (r: String)
        ensures
            r@ == text_or(self.shown(), |info: UnitInfo| info.sub_state@, "dead"@),
    {
        match self.info() {
            Some(info) => info.sub_state.clone(),
            None => "dead".to_owned(),
        }
    }

    /// The documentation URLs.
    pub fn documentation(&self) -> (r: Vec<String>)
        ensures
            text::views(r@) == (match self.section() {
                Some(section) => text::views(section.documentation@),
                None => Seq::<Seq<char>>::empty(),
            }),
    {
        match self.unit_section() {
            Some(section) => text::clone_names(&section.documentation),
            None => no_names(),
        }
    }

    /// The units required by this unit (`Requires`).
    pub fn required_units(&self) -> (r: Vec<String>)
        ensures
            text::views(r@) == (match self.section() {
                Some(section) => text::views(section.requires@),
                None => Seq::<Seq<char>>::empty(),
            }),
    {
        match self.unit_section() {
            Some(section) => text::clone_names(&section.requires),
            None => no_names(),
        }
    }

    /// The units that must already be active.
    pub fn requisite(&self) -> (r: Vec<String>)
        ensures
            text::views(r@) == (match self.section() {
                Some(section) => text::views(section.requisite@),
                None => Seq::<Seq<char>>::empty(),
            }),
    {
        match self.unit_section() {
            Some(section) => text::clone_names(&section.requisite),
            None => no_names(),
        }
    }

    /// The units weakly pulled in by this unit.
    pub fn wants(&self) -> (r: Vec<String>)
        ensures
            text::views(r@) == (match self.section() {
                Some(section) => text::views(section.wants@),
                None => Seq::<Seq<char>>::empty(),
            }),
    {
        match self.unit_section() {
            Some(section) => text::clone_names(&section.wants),
            None => no_names(),
        }
    }

    /// The units whose lifetime is bound to this unit.
    pub fn binds_to(&self) -> (r: Vec<String>)
        ensures
            text::views(r@) == (match self.section() {
                Some(section) => text::views(section.binds_to@),
                None => Seq::<Seq<char>>::empty(),
            }),
    {
        match self.unit_section() {
            Some(section) => text::clone_names(&section.binds_to),
            None => no_names(),
        }
    }

    /// The units whose stop and restart propagate here.
    pub fn part_of(&self) -> (r: Vec<String>)
        ensures
            text::views(r@) == (match self.section() {
                Some(section) => text::views(section.part_of@),
                None => Seq::<Seq<char>>::empty(),
            }),
    {
        match self.unit_section() {
            Some(section) => text::clone_names(&section.part_of),
            None => no_names(),
        }
    }

    /// The units kept active while this unit is active.
    pub fn upholds(&self) -> (r: Vec<String>)
        ensures
            text::views(r@) == (match self.section() {
                Some(section) => text::views(section.upholds@),
                None => Seq::<Seq<char>>::empty(),
            }),
    {
        match self.unit_section() {
            Some(section) => text::clone_names(&section.upholds),
            None => no_names(),
        }
    }

    /// The units that conflict with this unit.
    pub fn conflicts(&self) -> (r: Vec<String>)
        ensures
            text::views(r@) == (match self.section() {
                Some(section) => text::views(section.conflicts@),
                None => Seq::<Seq<char>>::empty(),
            }),
    {
        match self.unit_section() {
            Some(section) => text::clone_names(&section.conflicts),
            None => no_names(),
        }
    }

    /// The units ordered after this unit.
    pub fn before(&self) -> (r: Vec<String>)
        ensures
            text::views(r@) == (match self.section() {
                Some(section) => text::views(section.before@),
                None => Seq::<Seq<char>>::empty(),
            }),
    {
        match self.unit_section() {
            Some(section) => text::clone_names(&section.before),
            None => no_names(),
        }
    }

    /// The units ordered before this unit.
    pub fn after(&self) -> (r: Vec<String>)
        ensures
            text::views(r@) == (match self.section() {
                Some(section) => text::views(section.after@),
                None => Seq::<Seq<char>>::empty(),
            }),
    {
        match self.unit_section() {
            Some(section) => text::clone_names(&section.after),
            None => no_names(),
        }
    }

    /// The units started after successful completion.
    pub fn on_success(&self) -> (r: Vec<String>)
        ensures
            text::views(r@) == (match self.section() {
                Some(section) => text::views(section.on_success@),
                None => Seq::<Seq<char>>::empty(),
            }),
    {
        match self.unit_section() {
            Some(section) => text::clone_names(&section.on_success),
            None => no_names(),
        }
    }

    /// The units started after failure.
    pub fn on_failure(&self) -> (r: Vec<String>)
        ensures
            text::views(r@) == (match self.section() {
                Some(section) => text::views(section.on_failure@),
                None => Seq::<Seq<char>>::empty(),
            }),
    {
        match self.unit_section() {
            Some(section) => text::clone_names(&section.on_failure),
            None => no_names(),
        }
    }

    /// The units that a reload propagates to.
    pub fn propagates_reload_to(&self) -> (r: Vec<String>)
        ensures
            text::views(r@) == (match self.section() {
                Some(section) => text::views(section.propagates_reload_to@),
                None => Seq::<Seq<char>>::empty(),
            }),
    {
        match self.unit_section() {
            Some(section) => text::clone_names(&section.propagates_reload_to),
            None => no_names(),
        }
    }

    /// The units that propagate a reload here.
    pub fn reload_propagated_from(&self) -> (r: Vec<String>)
        ensures
            text::views(r@) == (match self.section() {
                Some(section) => text::views(section.reload_propagated_from@),
                None => Seq::<Seq<char>>::empty(),
            }),
    {
        match self.unit_section() {
            Some(section) => text::clone_names(&section.reload_propagated_from),
            None => no_names(),
        }
    }

    /// The units that a stop propagates to.
    pub fn propagates_stop_to(&self) -> (r: Vec<String>)
        ensures
            text::views(r@) == (match self.section() {
                Some(section) => text::views(section.propagates_stop_to@),
                None => Seq::<Seq<char>>::empty(),
            }),
    {
        match self.unit_section() {
            Some(section) => text::clone_names(&section.propagates_stop_to),
            None => no_names(),
        }
    }

    /// The units that propagate a stop here.
    pub fn stop_propagated_from(&self) -> (r: Vec<String>)
        ensures
            text::views(r@) == (match self.section() {
                Some(section) => text::views(section.stop_propagated_from@),
                None => Seq::<Seq<char>>::empty(),
            }),
    {
        match self.unit_section() {
            Some(section) => text::clone_names(&section.stop_propagated_from),
            None => no_names(),
        }
    }

    /// The units sharing this unit's namespaces.
    pub fn joins_namespace_of(&self) -> (r: Vec<String>)
        ensures
            text::views(r@) == (match self.section() {
                Some(section) => text::views(section.joins_namespace_of@),
                None => Seq::<Seq<char>>::empty(),
            }),
    {
        match self.unit_section() {
            Some(section) => text::clone_names(&section.joins_namespace_of),
            None => no_names(),
        }
    }

    /// The mount paths required by this unit.
    pub fn requires_mounts_for(&self) -> (r: Vec<String>)
        ensures
            text::views(r@) == (match self.section() {
                Some(section) => text::views(section.requires_mounts_for@),
                None => Seq::<Seq<char>>::empty(),
            }),
    {
        match self.unit_section() {
            Some(section) => text::clone_names(&section.requires_mounts_for),
            None => no_names(),
        }
    }

    /// The mount paths weakly required by this unit.
    pub fn wants_mounts_for(&self) -> (r: Vec<String>)
        ensures
            text::views(r@) == (match self.section() {
                Some(section) => text::views(section.wants_mounts_for@),
                None => Seq::<Seq<char>>::empty(),
            }),
    {
        match self.unit_section() {
            Some(section) => text::clone_names(&section.wants_mounts_for),
            None => no_names(),
        }
    }

    /// `StopWhenUnneeded`: stop the unit when nothing needs it.
    pub fn stop_when_unneeded(&self) -> (r: bool)
        ensures
            r == (self.section() is Some && self.section()->0.stop_when_unneeded),
    {
        match self.unit_section() {
            Some(section) => section.stop_when_unneeded,
            None => false,
        }
    }

    /// `RefuseManualStart`: reject manual starts.
    pub fn refuse_manual_start(&self) -> (r: bool)
        ensures
            r == (self.section() is Some && self.section()->0.refuse_manual_start),
    {
        match self.unit_section() {
            Some(section) => section.refuse_manual_start,
            None => false,
        }
    }

    /// `RefuseManualStop`: reject manual stops.
    pub fn refuse_manual_stop(&self) -> (r: bool)
        ensures
            r == (self.section() is Some && self.section()->0.refuse_manual_stop),
    {
        match self.unit_section() {
            Some(section) => section.refuse_manual_stop,
            None => false,
        }
    }

    /// `IgnoreOnIsolate`: isolation leaves the unit alone.
    pub fn ignore_on_isolate(&self) -> (r: bool)
        ensures
            r == (self.section() is Some && self.section()->0.ignore_on_isolate),
    {
        match self.unit_section() {
            Some(section) => section.ignore_on_isolate,
            None => false,
        }
    }

    /// `SurviveFinalKillSignal`: the final kill spares the unit's processes.
    pub fn survive_final_kill_signal(&self) -> (r: bool)
        ensures
            r == (self.section() is Some && self.section()->0.survive_final_kill_signal),
    {
        match self.unit_section() {
            Some(section) => section.survive_final_kill_signal,
            None => false,
        }
    }

    /// `SourcePath`: where a generated unit comes from.
    pub fn source_path(&self) -> (r: String)
        ensures
            r@ == text_or(self.section(), |s: UnitSection| s.source_path@, Seq::<char>::empty()),
    {
        match self.unit_section() {
            Some(section) => section.source_path.clone(),
            None => String::new(),
        }
    }

    /// `JobTimeoutRebootArgument`: the reboot argument of a job timeout.
    pub fn job_timeout_reboot_argument(&self) -> (r: String)
        ensures
            r@ == text_or(self.section(), |s: UnitSection| s.job_timeout_reboot_argument@, Seq::<char>::empty()),
    {
        match self.unit_section() {
            Some(section) => section.job_timeout_reboot_argument.clone(),
            None => String::new(),
        }
    }

    /// `RebootArgument`: the argument passed to reboot actions.
    pub fn reboot_argument(&self) -> (r: String)
        ensures
            r@ == text_or(self.section(), |s: UnitSection| s.reboot_argument@, Seq::<char>::empty()),
    {
        match self.unit_section() {
            Some(section) => section.reboot_argument.clone(),
            None => String::new(),
        }
    }

    /// `JobTimeoutAction`: action after a job timeout.
    pub fn job_timeout_action(&self) -> (r: String)
        ensures
            r@ == text_or(self.section(), |s: UnitSection| unit_action_word(s.job_timeout_action), "none"@),
    {
        match self.unit_section() {
            Some(section) => unit_action_name(section.job_timeout_action),
            None => "none".to_owned(),
        }
    }

    /// `StartLimitAction`: action after too many starts.
    pub fn start_limit_action(&self) -> (r: String)
        ensures
            r@ == text_or(self.section(), |s: UnitSection| unit_action_word(s.start_limit_action), "none"@),
    {
        match self.unit_section() {
            Some(section) => unit_action_name(section.start_limit_action),
            None => "none".to_owned(),
        }
    }

    /// `FailureAction`: action when the unit fails.
    pub fn failure_action(&self) -> (r: String)
        ensures
            r@ == text_or(self.section(), |s: UnitSection| unit_action_word(s.failure_action), "none"@),
    {
        match self.unit_section() {
            Some(section) => unit_action_name(section.failure_action),
            None => "none".to_owned(),
        }
    }

    /// `SuccessAction`: action after successful completion.
    pub fn success_action(&self) -> (r: String)
        ensures
            r@ == text_or(self.section(), |s: UnitSection| unit_action_word(s.success_action), "none"@),
    {
        match self.unit_section() {
            Some(section) => unit_action_name(section.success_action),
            None => "none".to_owned(),
        }
    }

    /// `OnSuccessJobMode`: the job mode for `OnSuccess=` units.
    pub fn on_success_job_mode(&self) -> (r: String)
        ensures
            r@ == text_or(self.section(), |s: UnitSection| mode_or(s.on_success_job_mode@, "fail"@), "fail"@),
    {
        match self.unit_section() {
            Some(section) => job_mode_name(section.on_success_job_mode.as_str(), "fail"),
            None => "fail".to_owned(),
        }
    }

    /// `OnFailureJobMode`: the job mode for `OnFailure=` units.
    pub fn on_failure_job_mode(&self) -> (r: String)
        ensures
            r@ == text_or(self.section(), |s: UnitSection| mode_or(s.on_failure_job_mode@, "replace"@), "replace"@),
    {
        match self.unit_section() {
            Some(section) => job_mode_name(section.on_failure_job_mode.as_str(), "replace"),
            None => "replace".to_owned(),
        }
    }

    /// The timeout for queued jobs, in microseconds; no limit where none is set.
    pub fn job_timeout_u_sec(&self) -> (r: u64)
        ensures
            r == (match self.section() {
                Some(section) => match section.job_timeout_sec {
                    Some(ns) => usec(ns),
                    None => u64::MAX,
                },
                None => u64::MAX,
            }),
    {
        match self.unit_section() {
            Some(section) => match section.job_timeout_sec {
                Some(ns) => duration_usec(ns),
                None => u64::MAX,
            },
            None => u64::MAX,
        }
    }

    /// The timeout for running jobs, in microseconds; no limit where none is set.
    pub fn job_running_timeout_u_sec(&self) -> (r: u64)
        ensures
            r == (match self.section() {
                Some(section) => match section.job_running_timeout_sec {
                    Some(ns) => usec(ns),
                    None => u64::MAX,
                },
                None => u64::MAX,
            }),
    {
        match self.unit_section() {
            Some(section) => match section.job_running_timeout_sec {
                Some(ns) => duration_usec(ns),
                None => u64::MAX,
            },
            None => u64::MAX,
        }
    }

    /// The start-rate window, in microseconds.
    pub fn start_limit_interval_u_sec(&self) -> (r: u64)
        ensures
            r == (match self.section() {
                Some(section) => match section.start_limit_interval_sec {
                    Some(ns) => usec(ns),
                    None => 10_000_000,
                },
                None => 10_000_000,
            }),
    {
        match self.unit_section() {
            Some(section) => match section.start_limit_interval_sec {
                Some(ns) => duration_usec(ns),
                None => 10_000_000,
            },
            None => 10_000_000,
        }
    }

    /// `FailureActionExitStatus`: exit status of that action, zero where none is set.
    pub fn failure_action_exit_status(&self) -> (r: i32)
        ensures
            r == (match self.section() {
                Some(section) => match section.failure_action_exit_status {
                    Some(status) => status,
                    None => 0,
                },
                None => 0,
            }),
    {
        match self.unit_section() {
            Some(section) => match section.failure_action_exit_status {
                Some(status) => status,
                None => 0,
            },
            None => 0,
        }
    }

    /// `SuccessActionExitStatus`: exit status of that action, zero where none is set.
    pub fn success_action_exit_status(&self) -> (r: i32)
        ensures
            r == (match self.section() {
                Some(section) => match section.success_action_exit_status {
                    Some(status) => status,
                    None => 0,
                },
                None => 0,
            }),
    {
        match self.unit_section() {
            Some(section) => match section.success_action_exit_status {
                Some(status) => status,
                None => 0,
            },
            None => 0,
        }
    }
}

fn no_names() -> (r: Vec<String>)
    ensures
        text::views(r@) == Seq::<Seq<char>>::empty(),
{
    let r: Vec<String> = Vec::new();
    assert(text::views(r@) =~= Seq::<Seq<char>>::empty());
    r
}

/// Conditional requests never start a unit that is down.
pub proof fn law_try_requests_start_nothing(info: Option<UnitInfo>, loaded: Option<LoadedUnit>)
    requires
        !published_as(info, "active"@, "activating"@),
        !published_as(info, "active"@, "reloading"@),
    ensures
        requested_kind(LifecycleRequest::TryRestart, info, loaded) == JobKind::Nop,
        requested_kind(LifecycleRequest::ReloadOrTryRestart, info, loaded) == JobKind::Nop,
{
}

/// Each interface has its own objects for jobs, by their numbers.
pub proof fn law_where_jobs_are_found(id: u32)
    ensures
        job_object(DbusObjectNamespace::Native, id) == "/io/rustd/Manager1/job/"@ + text::decimal(id as nat),
        job_object(DbusObjectNamespace::Systemd, id) == "/org/freedesktop/systemd1/job/"@ + text::decimal(id as nat),
{
}

/// A unit is shown as the first of its name in the snapshot.
pub proof fn law_the_first_of_a_name_is_shown(snapshot: Seq<UnitInfo>, name: Seq<char>, i: int)
    ensures
        0 <= i < snapshot.len() && snapshot[i].name@ == name && (forall|k: int| 0 <= k < i ==> (#[trigger] snapshot[k]).name@ != name) ==> published(snapshot, name)
            == Some(snapshot[i]),
        (forall|k: int| 0 <= k < snapshot.len() ==> (#[trigger] snapshot[k]).name@ != name) ==> published(snapshot, name) is None,
{
    crate::ipc_server::law_where_a_unit_is_found(snapshot, name);
}

/// Which job modes there are, and which requests take them: `isolate` and
/// `restart-dependencies` go with starting only, `triggering` with stopping.
pub proof fn law_which_modes_go_with_which_requests(mode: Seq<char>, request: Seq<char>, default: Seq<char>)
    ensures
        is_job_mode(mode) <==> mode == "fail"@ || mode == "lenient"@ || mode == "replace"@ || mode == "replace-irreversibly"@ || mode == "isolate"@ || mode == "flush"@ || mode == "ignore-dependencies"@ || mode == "ignore-requirements"@ || mode == "triggering"@ || mode == "restart-dependencies"@,
        !is_job_mode(mode) ==> mode_refused(mode, request) == Some("Job mode "@ + mode + " invalid"@) && mode_or(mode, default) == default,
        is_job_mode(mode) ==> mode_or(mode, default) == mode,
        request == "start"@ && is_job_mode(mode) && mode != "triggering"@ ==> mode_refused(mode, request) is None,
        request == "stop"@ && is_job_mode(mode) && mode != "isolate"@ && mode != "restart-dependencies"@ ==> mode_refused(mode, request) is None,
        is_job_mode(mode) && mode != "isolate"@ && mode != "triggering"@ && mode != "restart-dependencies"@ ==> mode_refused(mode, request) is None,
        request != "start"@ ==> mode_refused("isolate"@, request) == Some("Isolate is only valid for start."@),
        request != "stop"@ ==> mode_refused("triggering"@, request) == Some("--job-mode=triggering is only valid for stop."@),
        request != "start"@ ==> mode_refused("restart-dependencies"@, request) == Some("--job-mode=restart-dependencies is only valid for start."@),
{
    reveal_strlit("isolate");
    reveal_strlit("triggering");
    reveal_strlit("restart-dependencies");
    reveal_strlit("start");
    reveal_strlit("stop");
    assert("isolate"@.len() == 7 && "triggering"@.len() == 10 && "restart-dependencies"@.len() == 20);
    assert("start"@.len() == 5 && "stop"@.len() == 4);
}

/// Times are shown in microseconds, rounded down, up to what fits.
pub proof fn law_times_are_shown_in_microseconds(ns: u128, us: u64)
    ensures
        usec(ns) < u64::MAX ==> usec(ns) * 1000 <= ns < (usec(ns) + 1) * 1000,
        usec(ns) == u64::MAX ==> ns >= u64::MAX * 1000,
        us * 1000 <= u128::MAX ==> usec((us * 1000) as u128) == us,
{
    assert(us * 1000 <= 0x3e8_0000_0000_0000_0000);
    assert(((us * 1000) as u128) / 1000 == us);
}

/// The words for modes of collection and for actions.
pub proof fn law_words_for_settings(mode: CollectMode, action: UnitAction, request: LifecycleRequest)
    ensures
        mode is Inactive ==> collect_mode_word(mode) == "inactive"@,
        mode is InactiveOrFailed ==> collect_mode_word(mode) == "inactive-or-failed"@,
        action is Nothing ==> unit_action_word(action) == "none"@,
        action is Reboot ==> unit_action_word(action) == "reboot"@,
        action is RebootForce ==> unit_action_word(action) == "reboot-force"@,
        action is RebootImmediate ==> unit_action_word(action) == "reboot-immediate"@,
        action is Poweroff ==> unit_action_word(action) == "poweroff"@,
        action is PoweroffForce ==> unit_action_word(action) == "poweroff-force"@,
        action is PoweroffImmediate ==> unit_action_word(action) == "poweroff-immediate"@,
        action is Exit ==> unit_action_word(action) == "exit"@,
        action is ExitForce ==> unit_action_word(action) == "exit-force"@,
        action is SoftReboot ==> unit_action_word(action) == "soft-reboot"@,
        action is SoftRebootForce ==> unit_action_word(action) == "soft-reboot-force"@,
        action is Halt ==> unit_action_word(action) == "halt"@,
        action is KExec ==> unit_action_word(action) == "kexec"@,
        request is Start ==> request.word() == "start"@,
        request is Stop ==> request.word() == "stop"@,
        request is Restart ==> request.word() == "restart"@,
        request is Reload ==> request.word() == "reload"@,
        request is TryRestart ==> request.word() == "try-restart"@,
        request is ReloadOrRestart ==> request.word() == "reload-or-restart"@,
        request is ReloadOrTryRestart ==> request.word() == "reload-or-try-restart"@,
{
}

/// Conditions are shown under the names under which they are read, that of the
/// kernel's version under its newer one.
pub proof fn law_conditions_are_shown_as_they_are_read(kind: ConditionKind, is_assert: bool)
    ensures
        !(kind is Unknown) && !(kind is KernelVersion) ==> condition_kind(condition_word(kind)) == Some(kind),
        kind is KernelVersion ==> condition_word(kind) == "Version"@,
        kind matches ConditionKind::Unknown(name) ==> condition_word(kind) == name@,
        is_assert ==> condition_type(kind, is_assert) == "Assert"@ + condition_word(kind),
        !is_assert ==> condition_type(kind, is_assert) == "Condition"@ + condition_word(kind),
        condition_name(condition_type(kind, is_assert)) == condition_word(kind),
{
    law_conditions_have_their_names(condition_word(kind));
    law_how_conditions_are_named(condition_word(kind), Seq::empty(), Seq::empty());
}

/// What is shown of a condition: its type, its two marks, its value, and
/// whether it holds.
pub proof fn law_what_is_shown_of_a_condition(entry: (String, bool, bool, String, i32), condition: Condition, is_assert: bool, holds: bool)
    requires
        shows_condition(entry, condition, is_assert, holds),
    ensures
        entry.0@ == condition_type(condition.kind, is_assert),
        entry.1 == condition.trigger && entry.2 == condition.negate && entry.3@ == condition.value@,
        holds ==> entry.4 == 1,
        !holds ==> entry.4 == -1,
{
}

/// Which job a request comes to. A service can be reloaded where it says how; a
/// restart that is only tried does nothing to a unit that is not up.
pub proof fn law_which_job_a_request_comes_to(request: LifecycleRequest, info: Option<UnitInfo>, loaded: Option<LoadedUnit>)
    ensures
        reloadable(loaded) <==> loaded is Some && loaded->0 is Service && loaded->0->Service_0.specific.exec_reload@.len() > 0,
        ({
            let kind = requested_kind(request, info, loaded);
            let state = info->0.active_state@;
            let up = info is Some && (state == "active"@ || state == "activating"@);
            let reloads = info is Some && (state == "active"@ || state == "reloading"@);
            &&& request is Start ==> kind is Start
            &&& request is Stop ==> kind is Stop
            &&& request is Restart ==> kind is Restart
            &&& request is Reload ==> kind is Reload
            &&& request is TryRestart && up ==> kind is Restart
            &&& request is TryRestart && !up ==> kind is Nop
            &&& request is ReloadOrRestart && !reloadable(loaded) ==> kind is Restart
            &&& request is ReloadOrRestart && reloadable(loaded) && reloads ==> kind is Reload
            &&& request is ReloadOrRestart && reloadable(loaded) && !reloads ==> kind is Start
            &&& request is ReloadOrTryRestart && reloadable(loaded) && reloads ==> kind is Reload
            &&& request is ReloadOrTryRestart && reloadable(loaded) && !reloads ==> kind is Nop
            &&& request is ReloadOrTryRestart && !reloadable(loaded) && up ==> kind is Restart
            &&& request is ReloadOrTryRestart && !reloadable(loaded) && !up ==> kind is Nop
        }),
{
}

/// What an interface tells comes from the snapshot and the loaded unit; where
/// either is missing, a default stands for it.
pub proof fn law_what_an_interface_tells(unit: UnitInterface, f: spec_fn(UnitInfo) -> Seq<char>, g: spec_fn(UnitSection) -> Seq<char>, default: Seq<char>)
    ensures
        unit.shown() == published(unit.snapshot@, unit.name@),
        unit.loaded is None <==> unit.section() is None,
        unit.loaded matches Some(loaded) ==> unit.section() == Some(loaded.section()),
        unit.shown() matches Some(info) ==> text_or(unit.shown(), f, default) == f(info),
        unit.shown() is None ==> text_or(unit.shown(), f, default) == default,
        unit.section() matches Some(section) ==> text_or(unit.section(), g, default) == g(section),
        unit.section() is None ==> text_or(unit.section(), g, default) == default,
{
}

} // verus!
