//! Priorities of journal entries.

use vstd::prelude::*;

verus! {

pub const EMERG: u8 = 0;

pub const ALERT: u8 = 1;

pub const CRIT: u8 = 2;

pub const ERR: u8 = 3;

pub const WARNING: u8 = 4;

pub const NOTICE: u8 = 5;

pub const INFO: u8 = 6;

pub const DEBUG: u8 = 7;

/// The short name of a priority.
pub open spec fn priority_name(p: u8) -> Seq<char> {
    if p == EMERG {
        "emerg"@
    } else if p == ALERT {
        "alert"@
    } else if p == CRIT {
        "crit"@
    } else if p == ERR {
        "err"@
    } else if p == WARNING {
        "warning"@
    } else if p == NOTICE {
        "notice"@
    } else if p == INFO {
        "info"@
    } else if p == DEBUG {
        "debug"@
    } else {
        "unknown"@
    }
}

/// Return the short name for a priority level.
pub fn name(p: u8) -> (r: &'static str)
    ensures
        r@ == priority_name(p),
{
    match p {
        0 => "emerg",
        1 => "alert",
        2 => "crit",
        3 => "err",
        4 => "warning",
        5 => "notice",
        6 => "info",
        7 => "debug",
        _ => "unknown",
    }
}

/// The names of the priorities, the most urgent first; a number beyond them has
/// none.
pub proof fn law_priorities_have_their_names(p: u8)
    ensures
        priority_name(0) == "emerg"@,
        priority_name(1) == "alert"@,
        priority_name(2) == "crit"@,
        priority_name(3) == "err"@,
        priority_name(4) == "warning"@,
        priority_name(5) == "notice"@,
        priority_name(6) == "info"@,
        priority_name(7) == "debug"@,
        p > 7 ==> priority_name(p) == "unknown"@,
{
}

} // verus!
