//! The rules of writing a journal file: what counts as damage, how a damaged
//! file is put aside, and how much was written.

use vstd::prelude::*;

use crate::journal::entry::JournalEntry;
use crate::sys::{self, ErrorNumbers};
use crate::text;

verus! {

/// Whether an error number says that the contents of a journal are invalid, on
/// a machine with these numbers.
pub open spec fn is_structural(errno: i32, numbers: ErrorNumbers) -> bool {
    errno == sys::EIO || errno == numbers.badmsg || errno == numbers.nodata || errno == numbers.protonosupport || errno
        == numbers.hostdown || errno == numbers.stale || errno == sys::EINVAL
}

/// Whether an error number says that the contents of a journal are invalid, on
/// a machine with the given numbers.
pub fn is_corruption_errno_with(errno: i32, numbers: &ErrorNumbers) -> (r: bool)
    ensures
        r == is_structural(errno, *numbers),
{
    errno == sys::EIO || errno == numbers.badmsg || errno == numbers.nodata || errno == numbers.protonosupport || errno
        == numbers.hostdown || errno == numbers.stale || errno == sys::EINVAL
}

/// Whether an error number says that the contents of a journal are invalid,
/// with the numbers of this machine.
pub fn is_corruption_errno(errno: i32) -> (r: bool)
    ensures
        exists|numbers: ErrorNumbers| numbers.on_linux() && r == #[trigger] is_structural(errno, numbers),
{
    is_corruption_errno_with(errno, &sys::error_numbers())
}

/// What to do when a journal could not be opened.
#[derive(Debug, Clone, Copy, PartialEq, Eq, Structural)]
pub enum OpenStep {
    /// Report the error.
    Fail,
    /// Move the damaged file aside and open a fresh one.
    Quarantine,
}

/// What to do when a journal could not be opened. Only errors that identify
/// invalid contents of a file that is there cause it to be replaced.
pub open spec fn opened(errno: Option<i32>, exists: bool, numbers: ErrorNumbers) -> OpenStep {
    match errno {
        Some(errno) if is_structural(errno, numbers) && exists => OpenStep::Quarantine,
        _ => OpenStep::Fail,
    }
}

/// What to do when a journal could not be opened, on a machine with the given
/// numbers.
pub fn open_step_with(errno: Option<i32>, exists: bool, numbers: &ErrorNumbers) -> (r: OpenStep)
    ensures
        r == opened(errno, exists, *numbers),
{
    match errno {
        Some(errno) => {
            if is_corruption_errno_with(errno, numbers) && exists {
                OpenStep::Quarantine
            } else {
                OpenStep::Fail
            }
        },
        None => OpenStep::Fail,
    }
}

/// What to do when a journal could not be opened, with the numbers of this
/// machine.
pub fn open_step(errno: Option<i32>, exists: bool) -> (r: OpenStep)
    ensures
        exists|numbers: ErrorNumbers| numbers.on_linux() && r == #[trigger] opened(errno, exists, numbers),
{
    open_step_with(errno, exists, &sys::error_numbers())
}

/// What an append came to.
#[derive(Debug, Clone, Copy, PartialEq, Eq, Structural)]
pub enum AppendStep {
    /// The entry is in the file.
    Done,
    /// Report this error.
    Fail(i32),
    /// Put the damaged file aside and try once more.
    Recover(i32),
    /// The second try failed too.
    RetryFailed(i32),
}

/// What an append came to, from what the file layer returned: negative for an
/// error. A damaged file is replaced once.
pub open spec fn appended(rc: i32, retried: bool, numbers: ErrorNumbers) -> AppendStep {
    if rc >= 0 {
        AppendStep::Done
    } else if retried {
        AppendStep::RetryFailed((-rc) as i32)
    } else if is_structural((-rc) as i32, numbers) {
        AppendStep::Recover((-rc) as i32)
    } else {
        AppendStep::Fail((-rc) as i32)
    }
}

/// What an append came to, on a machine with the given numbers.
pub fn append_step_with(rc: i32, retried: bool, numbers: &ErrorNumbers) -> (r: AppendStep)
    requires
        rc > i32::MIN,
    ensures
        r == appended(rc, retried, *numbers),
{
    if rc >= 0 {
        AppendStep::Done
    } else if retried {
        AppendStep::RetryFailed(-rc)
    } else if is_corruption_errno_with(-rc, numbers) {
        AppendStep::Recover(-rc)
    } else {
        AppendStep::Fail(-rc)
    }
}

/// What an append came to, with the numbers of this machine.
pub fn append_step(rc: i32, retried: bool) -> (r: AppendStep)
    requires
        rc > i32::MIN,
    ensures
        exists|numbers: ErrorNumbers| numbers.on_linux() && r == #[trigger] appended(rc, retried, numbers),
{
    append_step_with(rc, retried, &sys::error_numbers())
}

/// The size that an entry of `fields` fields is reckoned at.
pub open spec fn estimate(fields: int) -> int {
    64 + 16 * fields
}

/// The account of an open journal file.
#[derive(Debug)]
pub struct JournalWriter {
    /// Absolute path of the journal file.
    pub path: String,
    /// Running estimate of bytes written to this file.
    pub bytes_written: u64,
}

impl JournalWriter {
    /// The account of a file that was just opened.
    pub fn open(path: &str) -> (r: Self)
        ensures
            r.path@ == path@,
            r.bytes_written == 0,
    {
        JournalWriter { path: path.to_owned(), bytes_written: 0 }
    }

    /// Whether every field name of an entry can be handed to the file layer:
    /// none contains a NUL.
    pub fn can_append(entry: &JournalEntry) -> (r: bool)
        requires
            entry.wf(),
        ensures
            r == forall|key: Seq<char>| #[trigger] entry@.fields.dom().contains(key) ==> !key.contains('\0'),
    {
        let mut i: usize = 0;
        let count: usize = entry.fields.len();
        proof {
            entry.fields.lemma_keys();
        }
        while i < count
            invariant
                entry.wf(),
                count == entry.fields.keys().len(),
                i <= count,
                forall|k: int| 0 <= k < i ==> !(#[trigger] entry.fields.keys()[k]).contains('\0'),
                forall|name: Seq<char>|
                    entry.fields@.dom().contains(name) <==> entry.fields.keys().contains(name),
            decreases count - i,
        {
            let key = entry.fields.key_at(i);
            if !text::is_c_string(key) {
                assert(entry.fields.keys().contains(entry.fields.keys()[i as int]));
                assert(entry@.fields.dom().contains(entry.fields.keys()[i as int]));
                return false;
            }
            i += 1;
        }
        assert forall|key: Seq<char>| #[trigger] entry@.fields.dom().contains(key) implies !key.contains('\0') by {
            assert(entry.fields@.dom().contains(key));
            assert(entry.fields.keys().contains(key));
            let k = choose|k: int| 0 <= k < entry.fields.keys().len() && entry.fields.keys()[k] == key;
            assert(!entry.fields.keys()[k].contains('\0'));
        }
        true
    }

    /// Account for an entry that was appended.
    pub fn append(&mut self, entry: &JournalEntry)
        requires
            entry.wf(),
            old(self).bytes_written + estimate(entry.fields.keys().len() as int) <= u64::MAX,
        ensures
            final(self).path == old(self).path,
            final(self).bytes_written == old(self).bytes_written + estimate(entry.fields.keys().len() as int),
    {
        let count: u64 = entry.fields.len() as u64;
        self.bytes_written = self.bytes_written + (64 + count * 16);
    }

    /// Account for a fresh file in place of a damaged one.
    pub fn reopen_after_corruption(&mut self)
        ensures
            final(self).path == old(self).path,
            final(self).bytes_written == 0,
    {
        self.bytes_written = 0;
    }
}

/// How often a name for a damaged file is tried.
pub const QUARANTINE_ATTEMPTS: u32 = 1024;

/// The name under which a damaged file is put aside.
pub open spec fn quarantine(name: Seq<char>, timestamp: nat, pid: nat, sequence: nat) -> Seq<char> {
    name + ".corrupt-"@ + text::decimal(timestamp) + "-"@ + text::decimal(pid) + "-"@ + text::decimal(sequence)
}

/// The next name to try for a damaged file, after `attempts` that were taken.
pub fn quarantine_name(name: &str, timestamp: u128, pid: u32, sequence: u64, attempts: u32) -> (r: Option<String>)
    ensures
        match r {
            Some(candidate) => attempts < QUARANTINE_ATTEMPTS && candidate@ == quarantine(
                name@,
                timestamp as nat,
                pid as nat,
                sequence as nat,
            ),
            None => attempts >= QUARANTINE_ATTEMPTS,
        },
{
    if attempts >= QUARANTINE_ATTEMPTS {
        return None;
    }
    let mut out = name.to_owned();
    out.push_str(".corrupt-");
    out.push_str(text::decimal_of(timestamp).as_str());
    out.push_str("-");
    out.push_str(text::decimal_of(pid as u128).as_str());
    out.push_str("-");
    out.push_str(text::decimal_of(sequence as u128).as_str());
    Some(out)
}

/// Which errors say that a journal is damaged: an error of input or output, an
/// invalid argument, and those that a damaged file gives; no other.
pub proof fn law_which_errors_are_damage(errno: i32, numbers: ErrorNumbers)
    ensures
        is_structural(errno, numbers) <==> {
            ||| errno == 5 || errno == 22
            ||| errno == numbers.badmsg || errno == numbers.nodata || errno == numbers.protonosupport
            ||| errno == numbers.hostdown || errno == numbers.stale
        },
{
}

/// A journal is set aside exactly when its file is there and is damaged.
pub proof fn law_when_a_journal_is_set_aside(errno: Option<i32>, exists: bool, numbers: ErrorNumbers)
    ensures
        opened(errno, exists, numbers) is Quarantine <==> exists && errno is Some && is_structural(errno->0, numbers),
        opened(errno, exists, numbers) is Fail <==> !(exists && errno is Some && is_structural(errno->0, numbers)),
{
}

/// An entry is written, or its error is reported; damage is recovered from
/// once.
pub proof fn law_damage_is_recovered_from_once(rc: i32, retried: bool, numbers: ErrorNumbers)
    requires
        rc > i32::MIN,
    ensures
        appended(rc, retried, numbers) is Done <==> rc >= 0,
        rc < 0 && retried ==> appended(rc, retried, numbers) is RetryFailed && appended(rc, retried, numbers)->RetryFailed_0 == -rc,
        rc < 0 && !retried && is_structural((-rc) as i32, numbers) ==> appended(rc, retried, numbers) is Recover && appended(
            rc,
            retried,
            numbers,
        )->Recover_0 == -rc,
        rc < 0 && !retried && !is_structural((-rc) as i32, numbers) ==> appended(rc, retried, numbers) is Fail && appended(
            rc,
            retried,
            numbers,
        )->Fail_0 == -rc,
{
}

/// What an entry is taken to need on disk: 64 bytes, and 16 for each field.
pub proof fn law_what_an_entry_needs(fields: int)
    ensures
        estimate(0) == 64,
        estimate(fields + 1) == estimate(fields) + 16,
{
}

/// A journal that was set aside is named after the journal, the time, the
/// process and how many were set aside.
pub proof fn law_how_a_damaged_journal_is_named(name: Seq<char>, timestamp: nat, pid: nat, sequence: nat)
    ensures
        name.is_prefix_of(quarantine(name, timestamp, pid, sequence)),
        quarantine(name, timestamp, pid, sequence).skip(name.len() as int) == ".corrupt-"@ + text::decimal(timestamp) + "-"@
            + text::decimal(pid) + "-"@ + text::decimal(sequence),
{
    let q = quarantine(name, timestamp, pid, sequence);
    assert(name =~= q.subrange(0, name.len() as int));
    assert(q.skip(name.len() as int) =~= ".corrupt-"@ + text::decimal(timestamp) + "-"@ + text::decimal(pid) + "-"@ + text::decimal(
        sequence,
    ));
}

} // verus!
