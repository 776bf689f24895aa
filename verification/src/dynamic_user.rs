//! Ephemeral user allocation.
//!
//! Allocations are tracked as lock files named after the user number and the
//! service. A lock file is created exclusively, so that concurrent managers
//! cannot take the same one.

use vstd::prelude::*;

use crate::paths;
use crate::text;

verus! {

/// Lowest dynamic user number.
pub const DYNAMIC_UID_MIN: u32 = 61184;

/// Highest dynamic user number.
pub const DYNAMIC_UID_MAX: u32 = 65519;

/// Where lock files are kept by default.
pub const DEFAULT_DIRECTORY: &'static str = "/run/rustd/dynamic-uid";

/// The directory for lock files: the native setting, else the one of other
/// managers, else the default.
pub fn dynamic_uid_dir(native: Option<&str>, legacy: Option<&str>) -> (r: String)
    ensures
        r@ == match (native, legacy) {
            (Some(dir), _) => dir@,
            (None, Some(dir)) => dir@,
            (None, None) => DEFAULT_DIRECTORY@,
        },
{
    match native {
        Some(dir) => dir.to_owned(),
        None => match legacy {
            Some(dir) => dir.to_owned(),
            None => DEFAULT_DIRECTORY.to_owned(),
        },
    }
}

/// The name of a lock file.
pub open spec fn lock_name(uid: nat, service_name: Seq<char>) -> Seq<char> {
    text::decimal(uid) + "-"@ + service_name
}

/// An allocated user.
#[derive(Debug)]
pub struct DynamicUser {
    pub uid: u32,
    pub name: String,
    pub lock_path: String,
}

impl DynamicUser {
    /// The group of the user, which has the same number.
    pub fn gid(&self) -> (r: u32)
        ensures
            r == self.uid,
    {
        self.uid
    }
}

/// What came of an attempt to create a lock file.
#[derive(Debug, Clone, Copy, PartialEq, Eq, Structural)]
pub enum LockResult {
    Created,
    AlreadyExists,
    Failed,
}

/// What to do after an attempt to create a lock file.
#[derive(Debug)]
pub enum AllocationStep {
    /// The user is allocated.
    Allocated(DynamicUser),
    /// Try the next number.
    Next,
    /// Report the error.
    Failed,
    /// Every number is taken.
    Exhausted,
}

/// A search for a free number, from the lowest up.
#[derive(Debug)]
pub struct Allocation {
    service_name: String,
    directory: String,
    uid: u32,
}

/// Where a search stands.
#[verifier::ext_equal]
pub struct AllocationView {
    pub service_name: Seq<char>,
    pub directory: Seq<char>,
    pub uid: u32,
}

impl View for Allocation {
    type V = AllocationView;

    closed spec fn view(&self) -> AllocationView {
        AllocationView { service_name: self.service_name@, directory: self.directory@, uid: self.uid }
    }
}

impl AllocationView {
    /// The number is in range.
    pub open spec fn in_range(self) -> bool {
        DYNAMIC_UID_MIN <= self.uid <= DYNAMIC_UID_MAX
    }

    /// The lock file to create next.
    pub open spec fn lock_path(self) -> Seq<char> {
        paths::joined(self.directory, lock_name(self.uid as nat, self.service_name))
    }
}

impl Allocation {
    #[verifier::type_invariant]
    spec fn wf(self) -> bool {
        DYNAMIC_UID_MIN <= self.uid <= DYNAMIC_UID_MAX
    }

    /// Start a search for `service_name` with lock files in `directory`.
    pub fn allocate_in(service_name: &str, directory: &str) -> (r: Self)
        ensures
            r@ == (AllocationView {
                service_name: service_name@,
                directory: directory@,
                uid: DYNAMIC_UID_MIN,
            }),
    {
        Allocation { service_name: service_name.to_owned(), directory: directory.to_owned(), uid: DYNAMIC_UID_MIN }
    }

    /// The lock file to create next.
    pub fn lock_path(&self) -> (r: String)
        ensures
            r@ == self@.lock_path(),
    {
        let mut name = text::decimal_of(self.uid as u128);
        name.push_str("-");
        name.push_str(self.service_name.as_str());
        paths::join(self.directory.as_str(), name.as_str())
    }

    /// Go on after an attempt to create that lock file.
    pub fn on_result(&mut self, result: LockResult) -> (r: AllocationStep)
        ensures
            old(self)@.in_range(),
            final(self)@.in_range(),
            match result {
                LockResult::Created => r is Allocated && r->Allocated_0.uid == old(self)@.uid && r->Allocated_0.name@
                    == old(self)@.service_name && r->Allocated_0.lock_path@ == old(self)@.lock_path()
                    && final(self)@ == old(self)@,
                LockResult::AlreadyExists => if old(self)@.uid == DYNAMIC_UID_MAX {
                    r is Exhausted && final(self)@ == old(self)@
                } else {
                    r is Next && final(self)@ == (AllocationView { uid: (old(self)@.uid + 1) as u32, ..old(self)@ })
                },
                LockResult::Failed => r is Failed && final(self)@ == old(self)@,
            },
    {
        proof {
            use_type_invariant(&*self);
        }
        match result {
            LockResult::Created => AllocationStep::Allocated(
                DynamicUser { uid: self.uid, name: self.service_name.clone(), lock_path: self.lock_path() },
            ),
            LockResult::AlreadyExists => {
                if self.uid == DYNAMIC_UID_MAX {
                    AllocationStep::Exhausted
                } else {
                    self.uid = self.uid + 1;
                    AllocationStep::Next
                }
            },
            LockResult::Failed => AllocationStep::Failed,
        }
    }
}

/// Two numbers never share a lock file of one service.
pub proof fn law_lock_names_are_distinct(a: nat, b: nat, service_name: Seq<char>)
    ensures
        lock_name(a, service_name) == lock_name(b, service_name) <==> a == b,
{
    if lock_name(a, service_name) == lock_name(b, service_name) {
        let x = text::decimal(a);
        let y = text::decimal(b);
        let tail = "-"@ + service_name;
        assert(lock_name(a, service_name) =~= x + tail);
        assert(lock_name(b, service_name) =~= y + tail);
        assert(x.len() == y.len());
        assert(x =~= (x + tail).take(x.len() as int));
        assert(y =~= (y + tail).take(y.len() as int));
        text::lemma_decimal_reads_back(a);
        text::lemma_decimal_reads_back(b);
    }
}

/// The lock of a number in a directory: the number and the service's name with
/// a hyphen between them. Numbers go from 61184 to 65519.
pub proof fn law_where_a_number_is_locked(uid: nat, service_name: Seq<char>, v: AllocationView)
    ensures
        lock_name(uid, service_name) == text::decimal(uid) + seq!['-'] + service_name,
        v.in_range() <==> 61184 <= v.uid <= 65519,
        v.lock_path() == paths::joined(v.directory, text::decimal(v.uid as nat) + seq!['-'] + v.service_name),
        DEFAULT_DIRECTORY@ == "/run/rustd/dynamic-uid"@,
{
    reveal_strlit("-");
    assert("-"@ =~= seq!['-']);
}

} // verus!
