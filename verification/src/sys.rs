//! Numbers of the Linux kernel interface.
//!
//! Those that are the same on every architecture are constants. The others
//! come from the C library's headers for the machine that the library is built
//! for.

use vstd::bytes::spec_u32_from_le_bytes;
use vstd::prelude::*;

verus! {

pub const EIO: i32 = 5;

pub const E2BIG: i32 = 7;

pub const EAGAIN: i32 = 11;

pub const EINVAL: i32 = 22;

pub const SIGHUP: i32 = 1;

pub const SIGINT: i32 = 2;

pub const SIGABRT: i32 = 6;

pub const SIGKILL: i32 = 9;

pub const SIGPIPE: i32 = 13;

pub const SIGTERM: i32 = 15;

pub const CLD_EXITED: i32 = 1;

/// The signals whose numbers differ between architectures.
#[derive(Debug, Clone, Copy, PartialEq, Eq, Structural)]
pub struct SignalNumbers {
    pub chld: i32,
    pub usr1: i32,
    pub usr2: i32,
    pub winch: i32,
    pub pwr: i32,
}

impl SignalNumbers {
    /// One of the three tables that Linux has: that of most architectures, that
    /// of MIPS and that of SPARC.
    pub open spec fn on_linux(self) -> bool {
        ||| self == SignalNumbers { chld: 17, usr1: 10, usr2: 12, winch: 28, pwr: 30 }
        ||| self == SignalNumbers { chld: 18, usr1: 16, usr2: 17, winch: 20, pwr: 19 }
        ||| self == SignalNumbers { chld: 20, usr1: 30, usr2: 31, winch: 28, pwr: 29 }
    }
}

/// `libc::SIGCHLD`, `libc::SIGUSR1`, `libc::SIGUSR2`, `libc::SIGWINCH` and
/// `libc::SIGPWR`. Which numbers they are depends on the architecture; claimed
/// is that they are those of one of the three tables that the crate holds for
/// Linux.
#[verifier::external_body]
pub(crate) fn signal_numbers() -> (r: SignalNumbers)
    ensures
        r.on_linux(),
{
    SignalNumbers {
        chld: libc::SIGCHLD,
        usr1: libc::SIGUSR1,
        usr2: libc::SIGUSR2,
        winch: libc::SIGWINCH,
        pwr: libc::SIGPWR,
    }
}

/// The errors whose numbers differ between architectures.
#[derive(Debug, Clone, Copy, PartialEq, Eq, Structural)]
pub struct ErrorNumbers {
    pub nodata: i32,
    pub badmsg: i32,
    pub protonosupport: i32,
    pub nobufs: i32,
    pub hostdown: i32,
    pub stale: i32,
}

impl ErrorNumbers {
    /// One of the three tables that Linux has: that of most architectures, that
    /// of MIPS and that of SPARC.
    pub open spec fn on_linux(self) -> bool {
        ||| self == ErrorNumbers {
            nodata: 61,
            badmsg: 74,
            protonosupport: 93,
            nobufs: 105,
            hostdown: 112,
            stale: 116,
        }
        ||| self == ErrorNumbers {
            nodata: 61,
            badmsg: 77,
            protonosupport: 120,
            nobufs: 132,
            hostdown: 147,
            stale: 151,
        }
        ||| self == ErrorNumbers {
            nodata: 111,
            badmsg: 76,
            protonosupport: 43,
            nobufs: 55,
            hostdown: 64,
            stale: 70,
        }
    }
}

/// `libc::ENODATA`, `libc::EBADMSG`, `libc::EPROTONOSUPPORT`, `libc::ENOBUFS`,
/// `libc::EHOSTDOWN` and `libc::ESTALE`. Which numbers they are depends on the
/// architecture; claimed is that they are those of one of the three tables that
/// the crate holds for Linux.
#[verifier::external_body]
pub(crate) fn error_numbers() -> (r: ErrorNumbers)
    ensures
        r.on_linux(),
{
    ErrorNumbers {
        nodata: libc::ENODATA,
        badmsg: libc::EBADMSG,
        protonosupport: libc::EPROTONOSUPPORT,
        nobufs: libc::ENOBUFS,
        hostdown: libc::EHOSTDOWN,
        stale: libc::ESTALE,
    }
}

/// The resource limits whose numbers differ between architectures.
#[derive(Debug, Clone, Copy, PartialEq, Eq, Structural)]
pub struct LimitNumbers {
    pub rss: u32,
    pub nproc: u32,
    pub nofile: u32,
    pub memlock: u32,
    pub address_space: u32,
}

impl LimitNumbers {
    /// One of the three tables that Linux has: that of most architectures, that
    /// of MIPS and that of SPARC.
    pub open spec fn on_linux(self) -> bool {
        ||| self == LimitNumbers { rss: 5, nproc: 6, nofile: 7, memlock: 8, address_space: 9 }
        ||| self == LimitNumbers { rss: 7, nproc: 8, nofile: 5, memlock: 9, address_space: 6 }
        ||| self == LimitNumbers { rss: 5, nproc: 7, nofile: 6, memlock: 8, address_space: 9 }
    }
}

/// `libc::RLIMIT_RSS`, `libc::RLIMIT_NPROC`, `libc::RLIMIT_NOFILE`,
/// `libc::RLIMIT_MEMLOCK` and `libc::RLIMIT_AS`. Which numbers they are depends
/// on the architecture; claimed is that they are those of one of the three
/// tables that the crate holds for Linux.
#[verifier::external_body]
pub(crate) fn limit_numbers() -> (r: LimitNumbers)
    ensures
        r.on_linux(),
{
    LimitNumbers {
        rss: libc::RLIMIT_RSS as u32,
        nproc: libc::RLIMIT_NPROC as u32,
        nofile: libc::RLIMIT_NOFILE as u32,
        memlock: libc::RLIMIT_MEMLOCK as u32,
        address_space: libc::RLIMIT_AS as u32,
    }
}

/// `u32::from_ne_bytes`: the number that four bytes make in the byte order of
/// the machine, the least significant byte first or last.
#[verifier::external_body]
pub(crate) fn native_u32(bytes: [u8; 4]) -> (r: u32)
    ensures
        r == spec_u32_from_le_bytes(bytes@) || r == spec_u32_from_le_bytes(bytes@.reverse()),
{
    u32::from_ne_bytes(bytes)
}

/// `libc::SIGRTMIN`: the first real-time signal that the C library leaves to
/// programs. The C library picks the number at run time, so nothing is claimed
/// of it.
#[verifier::external_body]
pub(crate) fn sigrtmin() -> i32 {
    libc::SIGRTMIN()
}

/// The numbers that are the same on every architecture.
pub proof fn law_numbers_of_the_kernel()
    ensures
        EIO == 5 && E2BIG == 7 && EAGAIN == 11 && EINVAL == 22,
        SIGHUP == 1 && SIGINT == 2 && SIGABRT == 6 && SIGKILL == 9 && SIGPIPE == 13 && SIGTERM == 15,
        CLD_EXITED == 1,
{
}

/// On Linux the number of one signal, error or limit tells the others: they
/// are of one table.
pub proof fn law_one_number_tells_the_others(s: SignalNumbers, e: ErrorNumbers, l: LimitNumbers)
    requires
        s.on_linux() && e.on_linux() && l.on_linux(),
    ensures
        s.chld == 17 || s.chld == 18 || s.chld == 20,
        s.chld == 17 ==> s.usr1 == 10 && s.usr2 == 12 && s.winch == 28 && s.pwr == 30,
        s.chld == 18 ==> s.usr1 == 16 && s.usr2 == 17 && s.winch == 20 && s.pwr == 19,
        s.chld == 20 ==> s.usr1 == 30 && s.usr2 == 31 && s.winch == 28 && s.pwr == 29,
        e.badmsg == 74 || e.badmsg == 77 || e.badmsg == 76,
        e.badmsg == 74 ==> e.nodata == 61 && e.protonosupport == 93 && e.nobufs == 105 && e.hostdown == 112 && e.stale == 116,
        e.badmsg == 77 ==> e.nodata == 61 && e.protonosupport == 120 && e.nobufs == 132 && e.hostdown == 147 && e.stale == 151,
        e.badmsg == 76 ==> e.nodata == 111 && e.protonosupport == 43 && e.nobufs == 55 && e.hostdown == 64 && e.stale == 70,
        l.nofile == 7 || l.nofile == 5 || l.nofile == 6,
        l.nofile == 7 ==> l.rss == 5 && l.nproc == 6 && l.memlock == 8 && l.address_space == 9,
        l.nofile == 5 ==> l.rss == 7 && l.nproc == 8 && l.memlock == 9 && l.address_space == 6,
        l.nofile == 6 ==> l.rss == 5 && l.nproc == 7 && l.memlock == 8 && l.address_space == 9,
{
}

} // verus!
