//! Mount and swap units: what the kernel is asked, and when a unit counts as
//! active.

use vstd::prelude::*;

use crate::paths;
use crate::service::{RecordView, UnitRecord};
use crate::text;
use crate::unit::{LoadedUnit, MountSection, UnitState};

verus! {

pub const MS_RDONLY: u64 = 1;

pub const MS_NOSUID: u64 = 2;

pub const MS_NODEV: u64 = 4;

pub const MS_NOEXEC: u64 = 8;

pub const MS_SYNCHRONOUS: u64 = 16;

pub const MS_REMOUNT: u64 = 32;

pub const MS_DIRSYNC: u64 = 128;

pub const MS_NOATIME: u64 = 1024;

pub const MS_NODIRATIME: u64 = 2048;

pub const MS_BIND: u64 = 4096;

pub const MS_MOVE: u64 = 8192;

pub const MS_REC: u64 = 16384;

pub const MS_SILENT: u64 = 32768;

pub const MS_RELATIME: u64 = 0x20_0000;

pub const MS_STRICTATIME: u64 = 0x100_0000;

pub const MS_LAZYTIME: u64 = 0x200_0000;

pub const MNT_FORCE: i32 = 1;

pub const MNT_DETACH: i32 = 2;

/// The kernel flags that an option stands for. Options for the manager stand
/// for none; nothing for an option that is the file system's business.
pub open spec fn option_flags(option: Seq<char>) -> Option<u64> {
    if option == "defaults"@ || option == "rw"@ {
        Some(0)
    } else if option == "ro"@ {
        Some(MS_RDONLY)
    } else if option == "nosuid"@ {
        Some(MS_NOSUID)
    } else if option == "nodev"@ {
        Some(MS_NODEV)
    } else if option == "noexec"@ {
        Some(MS_NOEXEC)
    } else if option == "sync"@ {
        Some(MS_SYNCHRONOUS)
    } else if option == "dirsync"@ {
        Some(MS_DIRSYNC)
    } else if option == "remount"@ {
        Some(MS_REMOUNT)
    } else if option == "bind"@ {
        Some(MS_BIND)
    } else if option == "rbind"@ {
        Some(20480)
    } else if option == "move"@ {
        Some(MS_MOVE)
    } else if option == "silent"@ {
        Some(MS_SILENT)
    } else if option == "noatime"@ {
        Some(MS_NOATIME)
    } else if option == "nodiratime"@ {
        Some(MS_NODIRATIME)
    } else if option == "relatime"@ {
        Some(MS_RELATIME)
    } else if option == "strictatime"@ {
        Some(MS_STRICTATIME)
    } else if option == "lazytime"@ {
        Some(MS_LAZYTIME)
    } else if "x-systemd."@.is_prefix_of(option) || option == "_netdev"@ || option == "nofail"@ {
        Some(0)
    } else {
        None
    }
}

/// The flags of all options together.
pub open spec fn flags_of(options: Seq<Seq<char>>) -> u64
    decreases options.len(),
{
    if options.len() == 0 {
        0
    } else {
        let before = flags_of(options.drop_last());
        match option_flags(options.last()) {
            Some(flags) => before | flags,
            None => before,
        }
    }
}

/// The options that are the file system's business. An empty option is none.
pub open spec fn data_of(options: Seq<Seq<char>>) -> Seq<Seq<char>> {
    options.filter(|option: Seq<char>| option.len() > 0 && option_flags(option) is None)
}

fn kernel_flags(option: &str) -> (r: Option<u64>)
    ensures
        r == option_flags(option@),
{
    if text::same(option, "defaults") || text::same(option, "rw") {
        Some(0)
    } else if text::same(option, "ro") {
        Some(MS_RDONLY)
    } else if text::same(option, "nosuid") {
        Some(MS_NOSUID)
    } else if text::same(option, "nodev") {
        Some(MS_NODEV)
    } else if text::same(option, "noexec") {
        Some(MS_NOEXEC)
    } else if text::same(option, "sync") {
        Some(MS_SYNCHRONOUS)
    } else if text::same(option, "dirsync") {
        Some(MS_DIRSYNC)
    } else if text::same(option, "remount") {
        Some(MS_REMOUNT)
    } else if text::same(option, "bind") {
        Some(MS_BIND)
    } else if text::same(option, "rbind") {
        Some(20480)
    } else if text::same(option, "move") {
        Some(MS_MOVE)
    } else if text::same(option, "silent") {
        Some(MS_SILENT)
    } else if text::same(option, "noatime") {
        Some(MS_NOATIME)
    } else if text::same(option, "nodiratime") {
        Some(MS_NODIRATIME)
    } else if text::same(option, "relatime") {
        Some(MS_RELATIME)
    } else if text::same(option, "strictatime") {
        Some(MS_STRICTATIME)
    } else if text::same(option, "lazytime") {
        Some(MS_LAZYTIME)
    } else if text::starts_with(option, "x-systemd.") || text::same(option, "_netdev") || text::same(option, "nofail") {
        Some(0)
    } else {
        None
    }
}

/// Split mount options into kernel flags and what the file system is told.
pub fn parse_mount_options(options: &str) -> (r: (u64, String))
    ensures
        r.0 == flags_of(text::pieces(options@, ',')),
        r.1@ == text::joined_by(data_of(text::pieces(options@, ',')), ","@),
{
    let list = text::split(options, ',');
    let ghost all = text::pieces(options@, ',');
    let ghost pred = |option: Seq<char>| option.len() > 0 && option_flags(option) is None;
    let mut flags: u64 = 0;
    let mut data: Vec<String> = Vec::new();
    let mut i: usize = 0;
    proof {
        reveal_with_fuel(Seq::filter, 1);
        assert(all.take(0) =~= Seq::empty());
        assert(text::views(data@) =~= data_of(all.take(0)));
    }
    while i < list.len()
        invariant
            text::views(list@) == all,
            i <= list@.len(),
            pred == (|option: Seq<char>| option.len() > 0 && option_flags(option) is None),
            flags == flags_of(all.take(i as int)),
            text::views(data@) == data_of(all.take(i as int)),
        decreases list@.len() - i,
    {
        let option = list[i].as_str();
        proof {
            assert(option@ == all[i as int]);
            assert(all.take(i + 1).drop_last() =~= all.take(i as int));
            assert(all.take(i + 1) =~= all.take(i as int).push(option@));
            all.take(i as int).lemma_filter_push(option@, pred);
        }
        match kernel_flags(option) {
            Some(more) => {
                flags = flags | more;
            },
            None => {
                if !option.is_empty() {
                    let ghost before = text::views(data@);
                    data.push(option.to_owned());
                    assert(text::views(data@) =~= before.push(option@));
                }
            },
        }
        i += 1;
    }
    assert(all.take(i as int) =~= all);
    (flags, text::join_by(&data, ","))
}

/// What is to be done about the mode of a mount point.
#[derive(Debug, Clone, Copy, PartialEq, Eq, Structural)]
pub enum DirectoryMode {
    /// Leave it.
    Keep,
    /// Set it.
    Change(u32),
    /// The setting is not a mode.
    Invalid,
}

/// What stands after the zeroes in front.
pub open spec fn after_zeroes(s: Seq<char>) -> Seq<char>
    decreases s.len(),
{
    if s.len() > 0 && s[0] == '0' {
        after_zeroes(s.drop_first())
    } else {
        s
    }
}

/// The value of octal digits.
pub open spec fn octal_value(s: Seq<char>) -> nat
    decreases s.len(),
{
    if s.len() == 0 {
        0
    } else {
        octal_value(s.drop_last()) * 8 + (s.last() as int - '0' as int) as nat
    }
}

/// Whether a string is one or more octal digits.
pub open spec fn is_octal(s: Seq<char>) -> bool {
    s.len() > 0 && forall|i: int| 0 <= i < s.len() ==> '0' <= #[trigger] s[i] <= '7'
}

/// The mode that a setting denotes: zeroes, perhaps a plus sign, and octal
/// digits. Zeroes alone denote none.
pub open spec fn mode_of(setting: Seq<char>) -> DirectoryMode {
    if setting.len() == 0 {
        DirectoryMode::Keep
    } else {
        let rest = after_zeroes(setting);
        let digits = if rest.len() > 0 && rest[0] == '+' {
            rest.drop_first()
        } else {
            rest
        };
        if is_octal(digits) && octal_value(digits) <= u32::MAX {
            DirectoryMode::Change(octal_value(digits) as u32)
        } else {
            DirectoryMode::Invalid
        }
    }
}

/// The mode that a setting denotes.
pub fn directory_mode(setting: &str) -> (r: DirectoryMode)
    ensures
        r == mode_of(setting@),
{
    let chars = text::chars_of(setting);
    let count: usize = chars.len();
    if count == 0 {
        return DirectoryMode::Keep;
    }
    let mut from: usize = 0;
    assert(chars@.skip(0) =~= chars@);
    while from < count && chars[from] == '0'
        invariant
            count == chars@.len(),
            chars@ == setting@,
            from <= count,
            after_zeroes(setting@) == after_zeroes(chars@.skip(from as int)),
        decreases count - from,
    {
        assert(chars@.skip(from as int).drop_first() =~= chars@.skip(from + 1));
        from += 1;
    }
    assert(after_zeroes(setting@) =~= chars@.skip(from as int));
    if from < count && chars[from] == '+' {
        assert(chars@.skip(from as int).drop_first() =~= chars@.skip(from + 1));
        from += 1;
    }
    let ghost digits = chars@.skip(from as int);
    if from == count {
        return DirectoryMode::Invalid;
    }
    let mut value: u32 = 0;
    let mut too_large = false;
    let mut i: usize = from;
    assert(digits.take(0) =~= Seq::<char>::empty());
    while i < count
        invariant
            count == chars@.len(),
            from < count,
            from <= i <= count,
            digits == chars@.skip(from as int),
            mode_of(setting@) == (if is_octal(digits) && octal_value(digits) <= u32::MAX {
                DirectoryMode::Change(octal_value(digits) as u32)
            } else {
                DirectoryMode::Invalid
            }),
            forall|k: int| 0 <= k < i - from ==> '0' <= #[trigger] digits[k] <= '7',
            !too_large ==> value == octal_value(digits.take(i - from)),
            too_large ==> octal_value(digits.take(i - from)) > u32::MAX,
        decreases count - i,
    {
        let c = chars[i];
        assert(digits[i - from] == c);
        if !('0' <= c && c <= '7') {
            return DirectoryMode::Invalid;
        }
        let d: u32 = c as u32 - '0' as u32;
        assert(digits.take(i + 1 - from).drop_last() =~= digits.take(i - from));
        if !too_large {
            if value > (u32::MAX - d) / 8 {
                too_large = true;
            } else {
                value = value * 8 + d;
            }
        }
        i += 1;
    }
    assert(digits.take(i - from) =~= digits);
    if too_large {
        DirectoryMode::Invalid
    } else {
        DirectoryMode::Change(value)
    }
}

/// What the kernel is asked in order to mount.
#[derive(Debug)]
pub struct MountPlan {
    pub source: String,
    pub target: String,
    /// Absent where the kernel is to find out.
    pub fstype: Option<String>,
    pub flags: u64,
    /// Absent where there are no options for the file system.
    pub data: Option<String>,
    /// The mode to give the mount point after it is made.
    pub mode: DirectoryMode,
}

/// Why a unit cannot be mounted or used as swap.
#[derive(Debug, Clone, Copy, PartialEq, Eq, Structural)]
pub enum FilesystemError {
    /// It is a unit of another type.
    WrongType,
    /// The mount point is not absolute.
    RelativeWhere,
    /// It does not say what.
    NoWhat,
}

/// Why a mount section cannot be mounted, if it cannot.
pub open spec fn mount_error(section: MountSection) -> Option<FilesystemError> {
    if !paths::is_absolute(section.where_path@) {
        Some(FilesystemError::RelativeWhere)
    } else if section.what@.len() == 0 {
        Some(FilesystemError::NoWhat)
    } else {
        None
    }
}

/// Whether a plan is that of a mount section.
pub open spec fn is_plan_of(plan: MountPlan, section: MountSection) -> bool {
    let options = text::pieces(section.options@, ',');
    let data = text::joined_by(data_of(options), ","@);
    &&& plan.source@ == section.what@
    &&& plan.target@ == section.where_path@
    &&& text::opt_view(plan.fstype) == (if section.fs_type@.len() == 0 || section.fs_type@ == "auto"@ {
        None
    } else {
        Some(section.fs_type@)
    })
    &&& plan.flags == flags_of(options)
    &&& text::opt_view(plan.data) == (if data.len() == 0 {
        None
    } else {
        Some(data)
    })
    &&& plan.mode == mode_of(section.directory_mode@)
}

/// What the kernel is asked in order to mount a unit.
pub fn activate_mount(record: &UnitRecord) -> (r: Result<MountPlan, FilesystemError>)
    ensures
        match record.loaded {
            LoadedUnit::Mount(mount) => match mount_error(mount.specific) {
                Some(error) => r == Err::<MountPlan, FilesystemError>(error),
                None => r is Ok && is_plan_of(r->Ok_0, mount.specific),
            },
            _ => r == Err::<MountPlan, FilesystemError>(FilesystemError::WrongType),
        },
{
    let section = match &record.loaded {
        LoadedUnit::Mount(mount) => &mount.specific,
        _ => return Err(FilesystemError::WrongType),
    };
    if !paths::absolute(section.where_path.as_str()) {
        return Err(FilesystemError::RelativeWhere);
    }
    if section.what.as_str().is_empty() {
        return Err(FilesystemError::NoWhat);
    }
    let parsed = parse_mount_options(section.options.as_str());
    let fstype = if section.fs_type.as_str().is_empty() || text::same(section.fs_type.as_str(), "auto") {
        None
    } else {
        Some(section.fs_type.clone())
    };
    let data = if parsed.1.as_str().is_empty() {
        None
    } else {
        Some(parsed.1)
    };
    Ok(
        MountPlan {
            source: section.what.clone(),
            target: section.where_path.clone(),
            fstype,
            flags: parsed.0,
            data,
            mode: directory_mode(section.directory_mode.as_str()),
        },
    )
}

/// The flags of the unmount of a mount section.
pub open spec fn unmount_flags(section: MountSection) -> i32 {
    if section.lazy_unmount && section.force_unmount {
        3
    } else if section.lazy_unmount {
        MNT_DETACH
    } else if section.force_unmount {
        MNT_FORCE
    } else {
        0
    }
}

/// The mount point to unmount and the flags.
pub fn deactivate_mount(record: &UnitRecord) -> (r: Result<(String, i32), FilesystemError>)
    ensures
        match record.loaded {
            LoadedUnit::Mount(mount) => r is Ok && r->Ok_0.0@ == mount.specific.where_path@ && r->Ok_0.1 == unmount_flags(
                mount.specific,
            ),
            _ => r == Err::<(String, i32), FilesystemError>(FilesystemError::WrongType),
        },
{
    match &record.loaded {
        LoadedUnit::Mount(mount) => {
            let mut flags: i32 = 0;
            if mount.specific.lazy_unmount {
                flags = flags + MNT_DETACH;
            }
            if mount.specific.force_unmount {
                flags = flags + MNT_FORCE;
            }
            Ok((mount.specific.where_path.clone(), flags))
        },
        _ => Err(FilesystemError::WrongType),
    }
}

/// The flags of a swap of a given priority: preferred, and the priority within
/// its range.
pub open spec fn swap_flags(priority: Option<i32>) -> i32 {
    match priority {
        Some(p) => if p < 0 {
            0x8000
        } else if p > 0x7fff {
            0xffff
        } else {
            (0x8000 + p) as i32
        },
        None => 0,
    }
}

/// The area to use as swap and the flags.
pub fn activate_swap(record: &UnitRecord) -> (r: Result<(String, i32), FilesystemError>)
    ensures
        match record.loaded {
            LoadedUnit::Swap(swap) => if swap.specific.what@.len() == 0 {
                r == Err::<(String, i32), FilesystemError>(FilesystemError::NoWhat)
            } else {
                r is Ok && r->Ok_0.0@ == swap.specific.what@ && r->Ok_0.1 == swap_flags(swap.specific.priority)
            },
            _ => r == Err::<(String, i32), FilesystemError>(FilesystemError::WrongType),
        },
{
    match &record.loaded {
        LoadedUnit::Swap(swap) => {
            if swap.specific.what.as_str().is_empty() {
                return Err(FilesystemError::NoWhat);
            }
            let flags: i32 = match swap.specific.priority {
                Some(p) => {
                    if p < 0 {
                        0x8000
                    } else if p > 0x7fff {
                        0xffff
                    } else {
                        0x8000 + p
                    }
                },
                None => 0,
            };
            Ok((swap.specific.what.clone(), flags))
        },
        _ => Err(FilesystemError::WrongType),
    }
}

/// The area to stop using as swap.
pub fn deactivate_swap(record: &UnitRecord) -> (r: Result<String, FilesystemError>)
    ensures
        match record.loaded {
            LoadedUnit::Swap(swap) => r is Ok && r->Ok_0@ == swap.specific.what@,
            _ => r == Err::<String, FilesystemError>(FilesystemError::WrongType),
        },
{
    match &record.loaded {
        LoadedUnit::Swap(swap) => Ok(swap.specific.what.clone()),
        _ => Err(FilesystemError::WrongType),
    }
}

/// Take what the kernel returned: the unit changes its state only where the
/// call succeeded.
pub fn settle(record: &mut UnitRecord, result: i32, activated: bool) -> (r: bool)
    ensures
        r == (result >= 0),
        final(record)@ == (RecordView {
            state: if result < 0 {
                old(record).state
            } else if activated {
                UnitState::Active
            } else {
                UnitState::Inactive
            },
            ..old(record)@
        }),
{
    if result < 0 {
        return false;
    }
    if activated {
        record.state = UnitState::Active;
    } else {
        record.state = UnitState::Inactive;
    }
    true
}

/// Which flags the mount options stand for. Options of the service manager
/// stand for none; what is not known goes to the file system.
pub proof fn law_which_flags_options_stand_for(option: Seq<char>, name: Seq<char>)
    ensures
        option_flags("defaults"@) == Some(0u64),
        option_flags("rw"@) == Some(0u64),
        option_flags("ro"@) == Some(1u64),
        option_flags("nosuid"@) == Some(2u64),
        option_flags("nodev"@) == Some(4u64),
        option_flags("noexec"@) == Some(8u64),
        option_flags("sync"@) == Some(16u64),
        option_flags("dirsync"@) == Some(128u64),
        option_flags("remount"@) == Some(32u64),
        option_flags("bind"@) == Some(4096u64),
        option_flags("rbind"@) == Some(20480u64),
        option_flags("move"@) == Some(8192u64),
        option_flags("silent"@) == Some(32768u64),
        option_flags("noatime"@) == Some(1024u64),
        option_flags("nodiratime"@) == Some(2048u64),
        option_flags("relatime"@) == Some(0x20_0000u64),
        option_flags("strictatime"@) == Some(0x100_0000u64),
        option_flags("lazytime"@) == Some(0x200_0000u64),
        option_flags("_netdev"@) == Some(0u64),
        option_flags("nofail"@) == Some(0u64),
        option_flags("x-systemd."@ + name) == Some(0u64),
        option_flags(option) is None <==> !(option == "defaults"@ || option == "rw"@ || option == "ro"@ || option == "nosuid"@ || option == "nodev"@ || option == "noexec"@ || option == "sync"@ || option == "dirsync"@ || option == "remount"@ || option == "bind"@ || option == "rbind"@ || option == "move"@ || option == "silent"@ || option == "noatime"@ || option == "nodiratime"@ || option == "relatime"@ || option == "strictatime"@ || option == "lazytime"@ || option == "_netdev"@ || option == "nofail"@ || "x-systemd."@.is_prefix_of(option)),
{
    reveal_strlit("defaults");
    reveal_strlit("rw");
    reveal_strlit("ro");
    reveal_strlit("nosuid");
    reveal_strlit("nodev");
    reveal_strlit("noexec");
    reveal_strlit("sync");
    reveal_strlit("dirsync");
    reveal_strlit("remount");
    reveal_strlit("bind");
    reveal_strlit("rbind");
    reveal_strlit("move");
    reveal_strlit("silent");
    reveal_strlit("noatime");
    reveal_strlit("nodiratime");
    reveal_strlit("relatime");
    reveal_strlit("strictatime");
    reveal_strlit("lazytime");
    reveal_strlit("_netdev");
    reveal_strlit("nofail");
    reveal_strlit("x-systemd.");
    assert("defaults"@.len() == 8);
    assert("rw"@.len() == 2);
    assert("ro"@.len() == 2);
    assert("nosuid"@.len() == 6);
    assert("nodev"@.len() == 5);
    assert("noexec"@.len() == 6);
    assert("sync"@.len() == 4);
    assert("dirsync"@.len() == 7);
    assert("remount"@.len() == 7);
    assert("bind"@.len() == 4);
    assert("rbind"@.len() == 5);
    assert("move"@.len() == 4);
    assert("silent"@.len() == 6);
    assert("noatime"@.len() == 7);
    assert("nodiratime"@.len() == 10);
    assert("relatime"@.len() == 8);
    assert("strictatime"@.len() == 11);
    assert("lazytime"@.len() == 8);
    assert("_netdev"@.len() == 7);
    assert("nofail"@.len() == 6);
    assert("_netdev"@[0] == '_');
    assert("bind"@[0] == 'b');
    assert("defaults"@[0] == 'd');
    assert("dirsync"@[0] == 'd');
    assert("lazytime"@[0] == 'l');
    assert("move"@[0] == 'm');
    assert("noatime"@[0] == 'n');
    assert("nodev"@[0] == 'n');
    assert("noexec"@[0] == 'n');
    assert("noexec"@[2] == 'e');
    assert("nofail"@[0] == 'n');
    assert("nofail"@[2] == 'f');
    assert("nosuid"@[0] == 'n');
    assert("nosuid"@[2] == 's');
    assert("rbind"@[0] == 'r');
    assert("relatime"@[0] == 'r');
    assert("remount"@[0] == 'r');
    assert("ro"@[1] == 'o');
    assert("rw"@[1] == 'w');
    assert("silent"@[0] == 's');
    assert("sync"@[0] == 's');
    let own = "x-systemd."@ + name;
    assert("x-systemd."@ =~= own.subrange(0, "x-systemd."@.len() as int));
    assert(own[1] == '-');
    lemma_own_options_differ(name);
}

proof fn lemma_own_options_differ(name: Seq<char>)
    ensures
        option_flags("x-systemd."@ + name) == Some(0u64),
{
    reveal_strlit("defaults");
    reveal_strlit("rw");
    reveal_strlit("ro");
    reveal_strlit("nosuid");
    reveal_strlit("nodev");
    reveal_strlit("noexec");
    reveal_strlit("sync");
    reveal_strlit("dirsync");
    reveal_strlit("remount");
    reveal_strlit("bind");
    reveal_strlit("rbind");
    reveal_strlit("move");
    reveal_strlit("silent");
    reveal_strlit("noatime");
    reveal_strlit("nodiratime");
    reveal_strlit("relatime");
    reveal_strlit("strictatime");
    reveal_strlit("lazytime");
    reveal_strlit("_netdev");
    reveal_strlit("nofail");
    reveal_strlit("x-systemd.");
    let own = "x-systemd."@ + name;
    assert("x-systemd."@ =~= own.subrange(0, "x-systemd."@.len() as int));
    assert(own[0] == 'x');
    assert("defaults"@[0] != 'x');
    assert("rw"@[0] != 'x');
    assert("ro"@[0] != 'x');
    assert("nosuid"@[0] != 'x');
    assert("nodev"@[0] != 'x');
    assert("noexec"@[0] != 'x');
    assert("sync"@[0] != 'x');
    assert("dirsync"@[0] != 'x');
    assert("remount"@[0] != 'x');
    assert("bind"@[0] != 'x');
    assert("rbind"@[0] != 'x');
    assert("move"@[0] != 'x');
    assert("silent"@[0] != 'x');
    assert("noatime"@[0] != 'x');
    assert("nodiratime"@[0] != 'x');
    assert("relatime"@[0] != 'x');
    assert("strictatime"@[0] != 'x');
    assert("lazytime"@[0] != 'x');
    assert("_netdev"@[0] != 'x');
    assert("nofail"@[0] != 'x');
}

/// Flags are put together; options that are neither known nor empty are kept as
/// data, in their order.
pub proof fn law_options_are_taken_one_by_one(options: Seq<Seq<char>>, option: Seq<char>)
    ensures
        flags_of(Seq::empty()) == 0,
        data_of(Seq::empty()).len() == 0,
        option_flags(option) matches Some(f) ==> flags_of(options.push(option)) == flags_of(options) | f && data_of(options.push(option)) == data_of(options),
        option_flags(option) is None ==> flags_of(options.push(option)) == flags_of(options),
        option_flags(option) is None && option.len() > 0 ==> data_of(options.push(option)) == data_of(options).push(option),
        option.len() == 0 ==> data_of(options.push(option)) == data_of(options),
{
    let keep = |o: Seq<char>| o.len() > 0 && option_flags(o) is None;
    assert(options.push(option).drop_last() =~= options);
    options.lemma_filter_push(option, keep);
    assert(Seq::<Seq<char>>::empty().filter(keep).len() == 0) by {
        reveal(Seq::filter);
    }
}

/// A mode is read in base eight: each digit counts eight times the one behind
/// it.
pub proof fn law_modes_are_octal(s: Seq<char>, d: char)
    requires
        '0' <= d <= '7',
    ensures
        octal_value(Seq::empty()) == 0,
        octal_value(s.push(d)) == octal_value(s) * 8 + (d as int - 48),
{
    assert(s.push(d).drop_last() =~= s);
}

/// What a mode setting says: nothing where it is empty; its value where it has
/// digits only, with zeros or a plus sign before them, and fits in 32 bits.
/// Zeros alone say no mode.
pub proof fn law_what_a_mode_setting_says(digits: Seq<char>, setting: Seq<char>, i: int)
    requires
        digits.len() > 0,
        digits[0] != '0',
        forall|k: int| 0 <= k < digits.len() ==> '0' <= #[trigger] digits[k] <= '7',
    ensures
        setting.len() == 0 <==> mode_of(setting) is Keep,
        octal_value(digits) <= u32::MAX ==> mode_of(digits) == DirectoryMode::Change(octal_value(digits) as u32) && mode_of(seq!['+'] + digits)
            == DirectoryMode::Change(octal_value(digits) as u32),
        octal_value(digits) > u32::MAX ==> mode_of(digits) is Invalid,
        setting.len() > 0 ==> mode_of(seq!['0'] + setting) == mode_of(setting),
        mode_of(seq!['0']) is Invalid,
        0 <= i < setting.len() && !('0' <= setting[i] <= '7') && setting[i] != '+' ==> mode_of(setting) is Invalid,
{
    let plus = seq!['+'] + digits;
    assert(plus.drop_first() =~= digits);
    let more = seq!['0'] + setting;
    assert(more.drop_first() =~= setting);
    let zero = seq!['0'];
    assert(zero.drop_first() =~= Seq::<char>::empty());
    reveal_with_fuel(after_zeroes, 2);
    if 0 <= i < setting.len() && !('0' <= setting[i] <= '7') && setting[i] != '+' {
        let n = lemma_after_zeroes(setting);
        let rest = after_zeroes(setting);
        assert(i >= n);
        assert(rest[i - n] == setting[i]);
        if rest[0] == '+' {
            assert(rest.drop_first()[i - n - 1] == setting[i]);
        }
    }
}

proof fn lemma_after_zeroes(s: Seq<char>) -> (n: int)
    ensures
        0 <= n <= s.len(),
        after_zeroes(s) == s.skip(n),
        forall|i: int| 0 <= i < n ==> #[trigger] s[i] == '0',
    decreases s.len(),
{
    if s.len() > 0 && s[0] == '0' {
        let rest = s.drop_first();
        let k = lemma_after_zeroes(rest);
        assert(rest.skip(k) =~= s.skip(k + 1));
        assert forall|i: int| 0 <= i < k + 1 implies #[trigger] s[i] == '0' by {
            if i > 0 {
                assert(s[i] == rest[i - 1]);
            }
        }
        k + 1
    } else {
        assert(s.skip(0) =~= s);
        0
    }
}

/// What is mounted and unmounted how. A mount needs an absolute place and a
/// source; no file system type is given where it is to be found out.
pub proof fn law_what_a_mount_takes(section: MountSection, plan: MountPlan)
    ensures
        mount_error(section) is None <==> section.where_path@.len() > 0 && section.where_path@[0] == '/' && section.what@.len() > 0,
        section.where_path@.len() == 0 || section.where_path@[0] != '/' ==> mount_error(section) == Some(FilesystemError::RelativeWhere),
        section.where_path@.len() > 0 && section.where_path@[0] == '/' && section.what@.len() == 0 ==> mount_error(section) == Some(FilesystemError::NoWhat),
        is_plan_of(plan, section) ==> {
            &&& plan.source@ == section.what@
            &&& plan.target@ == section.where_path@
            &&& section.fs_type@.len() == 0 || section.fs_type@ == "auto"@ <==> plan.fstype is None
            &&& plan.fstype matches Some(t) ==> t@ == section.fs_type@
            &&& plan.flags == flags_of(text::pieces(section.options@, ','))
            &&& plan.data matches Some(d) ==> d@ == text::joined_by(data_of(text::pieces(section.options@, ',')), ","@) && d@.len() > 0
            &&& plan.data is None <==> text::joined_by(data_of(text::pieces(section.options@, ',')), ","@).len() == 0
            &&& plan.mode == mode_of(section.directory_mode@)
        },
        unmount_flags(section) == (if section.force_unmount { 1int } else { 0 }) + (if section.lazy_unmount { 2int } else { 0 }),
{
}

/// A swap's priority is limited to 15 bits and stands behind its mark.
pub proof fn law_how_a_priority_is_given(priority: i32)
    ensures
        swap_flags(None) == 0,
        swap_flags(Some(priority)) >= 0x8000,
        0 <= priority <= 0x7fff ==> swap_flags(Some(priority)) - 0x8000 == priority,
        priority < 0 ==> swap_flags(Some(priority)) == 0x8000,
        priority > 0x7fff ==> swap_flags(Some(priority)) == 0xffff,
{
}

} // verus!
