//! What is checked and filled in before a service process is spawned.

use vstd::prelude::*;

use crate::paths;
use crate::sys;
use crate::text;

verus! {

/// How many paths a service may be given write access to.
pub const MAX_READ_WRITE_PATHS: usize = 256;

/// The system call filter's action that lets a call through.
pub const SECCOMP_ACTION_ALLOW: u32 = 0x7fff_0000;

/// What the system call filter does on one call.
#[derive(Debug, Clone, Copy, PartialEq, Eq, Structural)]
pub struct SeccompRule {
    pub nr: i32,
    pub action: u32,
}

/// Which restrictions a service process runs under. A setting is on where it
/// is not zero.
#[derive(Debug, Clone, Copy, PartialEq, Eq, Structural)]
pub struct SandboxFlags {
    pub no_new_privs: i32,
    pub private_tmp: i32,
    pub private_devices: i32,
    pub private_network: i32,
    pub private_mounts: i32,
    pub protect_system: i32,
    pub protect_home: i32,
    pub protect_kernel_tunables: i32,
    pub protect_kernel_modules: i32,
    pub protect_kernel_logs: i32,
    pub protect_clock: i32,
    pub protect_control_groups: i32,
    pub restrict_suid_sgid: i32,
    pub restrict_realtime: i32,
    pub restrict_namespaces: i32,
    pub memory_deny_write_execute: i32,
    pub syscall_filter_default_action: u32,
    pub syscall_filter_enabled: i32,
    pub restrict_native_syscalls: i32,
}

/// Whether a sandbox restricts nothing.
pub open spec fn unrestricted(flags: SandboxFlags) -> bool {
    flags == (SandboxFlags {
        no_new_privs: 0,
        private_tmp: 0,
        private_devices: 0,
        private_network: 0,
        private_mounts: 0,
        protect_system: 0,
        protect_home: 0,
        protect_kernel_tunables: 0,
        protect_kernel_modules: 0,
        protect_kernel_logs: 0,
        protect_clock: 0,
        protect_control_groups: 0,
        restrict_suid_sgid: 0,
        restrict_realtime: 0,
        restrict_namespaces: 0,
        memory_deny_write_execute: 0,
        syscall_filter_default_action: SECCOMP_ACTION_ALLOW,
        syscall_filter_enabled: 0,
        restrict_native_syscalls: 0,
    })
}

impl Default for SandboxFlags {
    fn default() -> (r: Self)
        ensures
            unrestricted(r),
    {
        SandboxFlags {
            no_new_privs: 0,
            private_tmp: 0,
            private_devices: 0,
            private_network: 0,
            private_mounts: 0,
            protect_system: 0,
            protect_home: 0,
            protect_kernel_tunables: 0,
            protect_kernel_modules: 0,
            protect_kernel_logs: 0,
            protect_clock: 0,
            protect_control_groups: 0,
            restrict_suid_sgid: 0,
            restrict_realtime: 0,
            restrict_namespaces: 0,
            memory_deny_write_execute: 0,
            syscall_filter_default_action: SECCOMP_ACTION_ALLOW,
            syscall_filter_enabled: 0,
            restrict_native_syscalls: 0,
        }
    }
}

/// The sandbox of a service as its settings make it.
#[derive(Debug)]
pub struct SpawnSandbox {
    pub flags: SandboxFlags,
    pub syscall_filter_rules: Vec<SeccompRule>,
}

impl Default for SpawnSandbox {
    fn default() -> (r: Self)
        ensures
            unrestricted(r.flags),
            r.syscall_filter_rules@ == Seq::<SeccompRule>::empty(),
    {
        SpawnSandbox { flags: SandboxFlags::default(), syscall_filter_rules: Vec::new() }
    }
}

/// The sandbox as it is handed to the spawner, with the paths that stay
/// writable.
#[derive(Debug)]
pub struct NativeSpawnSandbox {
    pub flags: SandboxFlags,
    pub syscall_filter_rules: Vec<SeccompRule>,
    pub read_write_paths: Vec<String>,
}

impl NativeSpawnSandbox {
    /// The same sandbox without writable paths; one that restricts nothing
    /// where there is none.
    pub fn from_legacy(value: Option<&SpawnSandbox>) -> (r: Self)
        ensures
            match value {
                Some(legacy) => r.flags == legacy.flags && r.syscall_filter_rules@ == legacy.syscall_filter_rules@,
                None => unrestricted(r.flags) && r.syscall_filter_rules@ == Seq::<SeccompRule>::empty(),
            },
            r.read_write_paths@ == Seq::<String>::empty(),
    {
        match value {
            Some(legacy) => NativeSpawnSandbox {
                flags: legacy.flags,
                syscall_filter_rules: legacy.syscall_filter_rules.clone(),
                read_write_paths: Vec::new(),
            },
            None => NativeSpawnSandbox {
                flags: SandboxFlags::default(),
                syscall_filter_rules: Vec::new(),
                read_write_paths: Vec::new(),
            },
        }
    }
}

/// A path without the sign that it may be missing.
pub open spec fn bare_path(raw: Seq<char>) -> Seq<char> {
    if raw.len() > 0 && raw[0] == '-' {
        raw.drop_first()
    } else {
        raw
    }
}

/// Whether a path can be made writable: absolute, without a NUL.
pub open spec fn acceptable(raw: Seq<char>) -> bool {
    paths::is_absolute(bare_path(raw)) && !raw.contains('\0')
}

fn is_acceptable(raw: &str) -> (r: bool)
    ensures
        r == acceptable(raw@),
{
    let chars = text::chars_of(raw);
    let count: usize = chars.len();
    let from: usize = if count > 0 && chars[0] == '-' {
        1
    } else {
        0
    };
    assert(bare_path(raw@) =~= raw@.skip(from as int));
    from < count && chars[from] == '/' && text::is_c_string(raw)
}

/// The error of a spawn with these writable paths, if it is refused: too many,
/// or one that cannot be made writable.
pub open spec fn paths_error(paths: Seq<Seq<char>>) -> Option<int> {
    if paths.len() > MAX_READ_WRITE_PATHS {
        Some(-sys::E2BIG as int)
    } else if exists|i: int| 0 <= i < paths.len() && !acceptable(#[trigger] paths[i]) {
        Some(-sys::EINVAL as int)
    } else {
        None
    }
}

/// Make the sandbox for a spawn out of a service's sandbox and its writable
/// paths. A negative error number where the paths are refused; nothing where
/// there is nothing to restrict.
pub fn prepare_spawn(sandbox: Option<&SpawnSandbox>, read_write_paths: Vec<String>) -> (r: Result<
    Option<NativeSpawnSandbox>,
    i32,
>)
    ensures
        match paths_error(text::views(read_write_paths@)) {
            Some(error) => r is Err && r->Err_0 == error,
            None => r is Ok && match r->Ok_0 {
                Some(native) => {
                    &&& sandbox is Some || read_write_paths@.len() > 0
                    &&& match sandbox {
                        Some(legacy) => native.flags == legacy.flags && native.syscall_filter_rules@
                            == legacy.syscall_filter_rules@,
                        None => unrestricted(native.flags) && native.syscall_filter_rules@ == Seq::<
                            SeccompRule,
                        >::empty(),
                    }
                    &&& native.read_write_paths@ == read_write_paths@
                },
                None => sandbox is None && read_write_paths@.len() == 0,
            },
        },
{
    let ghost views = text::views(read_write_paths@);
    if read_write_paths.len() > MAX_READ_WRITE_PATHS {
        return Err(-sys::E2BIG);
    }
    let mut i: usize = 0;
    while i < read_write_paths.len()
        invariant
            views == text::views(read_write_paths@),
            views.len() <= MAX_READ_WRITE_PATHS,
            i <= views.len(),
            forall|k: int| 0 <= k < i ==> acceptable(#[trigger] views[k]),
        decreases views.len() - i,
    {
        if !is_acceptable(read_write_paths[i].as_str()) {
            assert(!acceptable(views[i as int]));
            return Err(-sys::EINVAL);
        }
        i += 1;
    }
    if sandbox.is_none() && read_write_paths.len() == 0 {
        return Ok(None);
    }
    let mut native = NativeSpawnSandbox::from_legacy(sandbox);
    native.read_write_paths = read_write_paths;
    Ok(Some(native))
}

/// Why a program cannot be the spawn helper.
#[derive(Debug, Clone, Copy, PartialEq, Eq, Structural)]
pub enum HelperError {
    /// Its path is not absolute.
    Relative,
    /// Its path contains a NUL.
    Nul,
}

/// Whether a path can name the spawn helper.
pub fn check_helper_path(path: &str) -> (r: Result<(), HelperError>)
    ensures
        r == if !paths::is_absolute(path@) {
            Err::<(), HelperError>(HelperError::Relative)
        } else if path@.contains('\0') {
            Err(HelperError::Nul)
        } else {
            Ok(())
        },
{
    if !paths::absolute(path) {
        return Err(HelperError::Relative);
    }
    if !text::is_c_string(path) {
        return Err(HelperError::Nul);
    }
    Ok(())
}

/// Which paths may be written: at most 256, absolute but for a leading hyphen,
/// without zeros. Too many of them are refused before anything else.
pub proof fn law_which_paths_may_be_written(paths: Seq<Seq<char>>, raw: Seq<char>)
    ensures
        raw.len() > 0 && raw[0] == '/' && !raw.contains('\0') ==> acceptable(raw) && acceptable(seq!['-'] + raw),
        raw.contains('\0') ==> !acceptable(raw),
        raw.len() == 0 ==> !acceptable(raw),
        raw.len() > 0 && raw[0] != '/' && raw[0] != '-' ==> !acceptable(raw),
        raw.len() > 0 && raw[0] == '-' && (raw.len() == 1 || raw[1] != '/') ==> !acceptable(raw),
        paths.len() > 256 ==> paths_error(paths) == Some(-7int),
        paths.len() <= 256 && (exists|i: int| 0 <= i < paths.len() && !acceptable(#[trigger] paths[i])) ==> paths_error(paths) == Some(-22int),
        paths.len() <= 256 && (forall|i: int| 0 <= i < paths.len() ==> acceptable(#[trigger] paths[i])) ==> paths_error(paths) is None,
{
    let dashed = seq!['-'] + raw;
    assert(dashed.drop_first() =~= raw);
    if !raw.contains('\0') {
        assert forall|i: int| 0 <= i < dashed.len() implies dashed[i] != '\0' by {
            if i > 0 {
                assert(raw.contains(raw[i - 1]));
            }
        }
    }
}

/// A sandbox without restrictions has every switch off and lets every call pass.
pub proof fn law_what_no_restriction_is(flags: SandboxFlags)
    requires
        unrestricted(flags),
    ensures
        flags.no_new_privs == 0 && flags.private_tmp == 0 && flags.private_devices == 0 && flags.private_network == 0 && flags.private_mounts == 0,
        flags.protect_system == 0 && flags.protect_home == 0 && flags.protect_kernel_tunables == 0 && flags.protect_kernel_modules == 0,
        flags.protect_kernel_logs == 0 && flags.protect_clock == 0 && flags.protect_control_groups == 0,
        flags.restrict_suid_sgid == 0 && flags.restrict_realtime == 0 && flags.restrict_namespaces == 0 && flags.memory_deny_write_execute == 0,
        flags.syscall_filter_default_action == 0x7fff_0000 && flags.syscall_filter_enabled == 0 && flags.restrict_native_syscalls == 0,
        MAX_READ_WRITE_PATHS == 256,
{
}

} // verus!
