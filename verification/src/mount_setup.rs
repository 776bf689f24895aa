//! The kernel file systems that the manager mounts before anything else.

use vstd::prelude::*;

use crate::paths;

verus! {

/// Neither set-user-ID programs, nor programs, nor devices.
pub const NOSUID_NOEXEC_NODEV: u64 = 14;

/// Neither set-user-ID programs nor devices.
pub const NOSUID_NODEV: u64 = 6;

/// Neither set-user-ID programs nor programs.
pub const NOSUID_NOEXEC: u64 = 10;

/// No set-user-ID programs, access times always kept.
pub const NOSUID_STRICTATIME: u64 = 0x100_0002;

/// Neither set-user-ID programs nor devices, access times always kept.
pub const NOSUID_NODEV_STRICTATIME: u64 = 0x100_0006;

/// The number of the error that something is already mounted there.
pub const EBUSY: i32 = 16;

/// One file system to mount.
#[derive(Debug)]
pub struct ApiMount {
    pub source: &'static str,
    pub target: &'static str,
    pub fstype: &'static str,
    pub flags: u64,
    pub options: &'static str,
    /// A boot cannot continue without this mount.
    pub required: bool,
}

/// One file system to mount.
#[verifier::ext_equal]
pub struct ApiMountView {
    pub source: Seq<char>,
    pub target: Seq<char>,
    pub fstype: Seq<char>,
    pub flags: u64,
    pub options: Seq<char>,
    pub required: bool,
}

impl View for ApiMount {
    type V = ApiMountView;

    open spec fn view(&self) -> ApiMountView {
        ApiMountView {
            source: self.source@,
            target: self.target@,
            fstype: self.fstype@,
            flags: self.flags,
            options: self.options@,
            required: self.required,
        }
    }
}

/// The file systems to mount, in order: each one after those that it stands
/// on.
pub open spec fn api_mount_table() -> Seq<ApiMountView> {
    seq![
        ApiMountView {
            source: "proc"@,
            target: "/proc"@,
            fstype: "proc"@,
            flags: NOSUID_NOEXEC_NODEV,
            options: ""@,
            required: true,
        },
        ApiMountView {
            source: "sysfs"@,
            target: "/sys"@,
            fstype: "sysfs"@,
            flags: NOSUID_NOEXEC_NODEV,
            options: ""@,
            required: true,
        },
        ApiMountView {
            source: "devtmpfs"@,
            target: "/dev"@,
            fstype: "devtmpfs"@,
            flags: NOSUID_STRICTATIME,
            options: "mode=0755,size=4m,nr_inodes=1m"@,
            required: true,
        },
        ApiMountView {
            source: "devpts"@,
            target: "/dev/pts"@,
            fstype: "devpts"@,
            flags: NOSUID_NOEXEC,
            options: "mode=0620,gid=5,ptmxmode=0666"@,
            required: false,
        },
        ApiMountView {
            source: "tmpfs"@,
            target: "/dev/shm"@,
            fstype: "tmpfs"@,
            flags: NOSUID_NODEV_STRICTATIME,
            options: "mode=01777"@,
            required: false,
        },
        ApiMountView {
            source: "tmpfs"@,
            target: "/run"@,
            fstype: "tmpfs"@,
            flags: NOSUID_NODEV_STRICTATIME,
            options: "mode=0755,size=20%,nr_inodes=800k"@,
            required: false,
        },
        ApiMountView {
            source: "cgroup2"@,
            target: "/sys/fs/cgroup"@,
            fstype: "cgroup2"@,
            flags: NOSUID_NOEXEC_NODEV,
            options: "nsdelegate,memory_recursiveprot"@,
            required: true,
        },
        ApiMountView {
            source: "securityfs"@,
            target: "/sys/kernel/security"@,
            fstype: "securityfs"@,
            flags: NOSUID_NOEXEC_NODEV,
            options: ""@,
            required: false,
        },
        ApiMountView {
            source: "tmpfs"@,
            target: "/run/lock"@,
            fstype: "tmpfs"@,
            flags: NOSUID_NODEV,
            options: "mode=01777,size=5m"@,
            required: false,
        },
    ]
}

/// The file systems to mount, in order.
pub fn api_mounts() -> (r: Vec<ApiMount>)
    ensures
        r@.map_values(|m: ApiMount| m@) == api_mount_table(),
{
    let mut mounts: Vec<ApiMount> = Vec::new();
    mounts.push(
        ApiMount {
            source: "proc",
            target: "/proc",
            fstype: "proc",
            flags: NOSUID_NOEXEC_NODEV,
            options: "",
            required: true,
        },
    );
    mounts.push(
        ApiMount {
            source: "sysfs",
            target: "/sys",
            fstype: "sysfs",
            flags: NOSUID_NOEXEC_NODEV,
            options: "",
            required: true,
        },
    );
    mounts.push(
        ApiMount {
            source: "devtmpfs",
            target: "/dev",
            fstype: "devtmpfs",
            flags: NOSUID_STRICTATIME,
            options: "mode=0755,size=4m,nr_inodes=1m",
            required: true,
        },
    );
    mounts.push(
        ApiMount {
            source: "devpts",
            target: "/dev/pts",
            fstype: "devpts",
            flags: NOSUID_NOEXEC,
            options: "mode=0620,gid=5,ptmxmode=0666",
            required: false,
        },
    );
    mounts.push(
        ApiMount {
            source: "tmpfs",
            target: "/dev/shm",
            fstype: "tmpfs",
            flags: NOSUID_NODEV_STRICTATIME,
            options: "mode=01777",
            required: false,
        },
    );
    mounts.push(
        ApiMount {
            source: "tmpfs",
            target: "/run",
            fstype: "tmpfs",
            flags: NOSUID_NODEV_STRICTATIME,
            options: "mode=0755,size=20%,nr_inodes=800k",
            required: false,
        },
    );
    mounts.push(
        ApiMount {
            source: "cgroup2",
            target: "/sys/fs/cgroup",
            fstype: "cgroup2",
            flags: NOSUID_NOEXEC_NODEV,
            options: "nsdelegate,memory_recursiveprot",
            required: true,
        },
    );
    mounts.push(
        ApiMount {
            source: "securityfs",
            target: "/sys/kernel/security",
            fstype: "securityfs",
            flags: NOSUID_NOEXEC_NODEV,
            options: "",
            required: false,
        },
    );
    mounts.push(
        ApiMount {
            source: "tmpfs",
            target: "/run/lock",
            fstype: "tmpfs",
            flags: NOSUID_NODEV,
            options: "mode=01777,size=5m",
            required: false,
        },
    );
    assert(mounts@.map_values(|m: ApiMount| m@) =~= api_mount_table());
    mounts
}

/// Whether a path is the root of a mount: the root of the file system is, and
/// so is any path on another device than its parent. A path that cannot be
/// looked at is not.
pub fn is_mount_point(path: &str, device: Option<u64>, parent_device: Option<u64>) -> (r: bool)
    ensures
        r == match device {
            None => false,
            Some(own) => paths::same_path(path@, "/"@) || match parent_device {
                Some(parent) => own != parent,
                None => false,
            },
        },
{
    match device {
        None => false,
        Some(own) => {
            if paths::same(path, "/") {
                return true;
            }
            match parent_device {
                Some(parent) => own != parent,
                None => false,
            }
        },
    }
}

/// What follows from the result of one mount.
#[derive(Debug, Clone, Copy, PartialEq, Eq, Structural)]
pub enum MountOutcome {
    /// It is there.
    Mounted,
    /// It is not there, and a boot can do without it.
    Skip,
    /// A boot cannot continue.
    Fail,
}

/// How far one mount came.
#[derive(Debug, Clone, Copy, PartialEq, Eq, Structural)]
pub enum MountAttempt {
    /// The kernel mounted it.
    Done,
    /// The directory to mount it on could not be made.
    NoDirectory,
    /// The kernel refused, with this error number.
    Refused(i32),
}

/// What follows from one mount. Where the kernel says that something is already
/// mounted there, that is as good.
pub fn mount_outcome(mount: &ApiMount, attempt: MountAttempt) -> (r: MountOutcome)
    ensures
        r == if attempt == MountAttempt::Done || attempt == MountAttempt::Refused(EBUSY) {
            MountOutcome::Mounted
        } else if mount.required {
            MountOutcome::Fail
        } else {
            MountOutcome::Skip
        },
{
    let there = match attempt {
        MountAttempt::Done => true,
        MountAttempt::NoDirectory => false,
        MountAttempt::Refused(errno) => errno == EBUSY,
    };
    if there {
        MountOutcome::Mounted
    } else if mount.required {
        MountOutcome::Fail
    } else {
        MountOutcome::Skip
    }
}

/// What is mounted first, in this order, how, and whether it must succeed.
pub proof fn law_what_is_mounted_first(m: ApiMount)
    ensures
        api_mount_table().len() == 9,
        ({
            let m = api_mount_table()[0];
            m.source == "proc"@ && m.target == "/proc"@ && m.fstype == "proc"@ && m.flags == 14 && m.options == ""@ && m.required
        }),
        ({
            let m = api_mount_table()[1];
            m.source == "sysfs"@ && m.target == "/sys"@ && m.fstype == "sysfs"@ && m.flags == 14 && m.options == ""@ && m.required
        }),
        ({
            let m = api_mount_table()[2];
            m.source == "devtmpfs"@ && m.target == "/dev"@ && m.fstype == "devtmpfs"@ && m.flags == 0x100_0002 && m.options == "mode=0755,size=4m,nr_inodes=1m"@ && m.required
        }),
        ({
            let m = api_mount_table()[3];
            m.source == "devpts"@ && m.target == "/dev/pts"@ && m.fstype == "devpts"@ && m.flags == 10 && m.options == "mode=0620,gid=5,ptmxmode=0666"@ && !m.required
        }),
        ({
            let m = api_mount_table()[4];
            m.source == "tmpfs"@ && m.target == "/dev/shm"@ && m.fstype == "tmpfs"@ && m.flags == 0x100_0006 && m.options == "mode=01777"@ && !m.required
        }),
        ({
            let m = api_mount_table()[5];
            m.source == "tmpfs"@ && m.target == "/run"@ && m.fstype == "tmpfs"@ && m.flags == 0x100_0006 && m.options == "mode=0755,size=20%,nr_inodes=800k"@ && !m.required
        }),
        ({
            let m = api_mount_table()[6];
            m.source == "cgroup2"@ && m.target == "/sys/fs/cgroup"@ && m.fstype == "cgroup2"@ && m.flags == 14 && m.options == "nsdelegate,memory_recursiveprot"@ && m.required
        }),
        ({
            let m = api_mount_table()[7];
            m.source == "securityfs"@ && m.target == "/sys/kernel/security"@ && m.fstype == "securityfs"@ && m.flags == 14 && m.options == ""@ && !m.required
        }),
        ({
            let m = api_mount_table()[8];
            m.source == "tmpfs"@ && m.target == "/run/lock"@ && m.fstype == "tmpfs"@ && m.flags == 6 && m.options == "mode=01777,size=5m"@ && !m.required
        }),
        m@.source == m.source@ && m@.target == m.target@ && m@.fstype == m.fstype@ && m@.flags == m.flags && m@.options == m.options@ && m@.required == m.required,
        EBUSY == 16,
{
}

} // verus!
