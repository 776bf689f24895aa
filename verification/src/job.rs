//! Job queue and live job registry.
//!
//! A `Job` is an intent to start, stop, reload, restart, or isolate a named
//! unit. Job identifiers are allocated once per manager lifetime and remain
//! stable while jobs move between the cross-thread queue and the manager's
//! ordered execution queue.
//!
//! The registry is plain state: whoever shares it between threads wraps it in
//! a lock, and a queue's methods take the registry they work with.

use vstd::prelude::*;

use crate::names::NameMap;
use crate::text;
use crate::unit::UnitState;

verus! {

/// The kind of work a job requests.
#[derive(Debug, Clone, Copy, PartialEq, Eq, Structural)]
pub enum JobKind {
    /// A completed no-op transaction for a conditional request that does not
    /// apply to the unit's current state.
    Nop,
    /// Activate the unit.
    Start,
    /// Deactivate the unit.
    Stop,
    /// Run the unit's reload transaction.
    Reload,
    /// Stop the unit and start it again after deactivation completes.
    Restart,
    /// Replace the active unit graph with an isolatable target transaction.
    Isolate,
}

impl JobKind {
    /// The D-Bus job type string of each kind.
    pub open spec fn name(self) -> Seq<char> {
        match self {
            JobKind::Nop => "nop"@,
            JobKind::Start | JobKind::Isolate => "start"@,
            JobKind::Stop => "stop"@,
            JobKind::Reload => "reload"@,
            JobKind::Restart => "restart"@,
        }
    }

    /// Canonical D-Bus job type string.
    pub fn as_str(self) -> (r: &'static str)
        ensures
            r@ == self.name(),
    {
        match self {
            JobKind::Nop => "nop",
            JobKind::Start | JobKind::Isolate => "start",
            JobKind::Stop => "stop",
            JobKind::Reload => "reload",
            JobKind::Restart => "restart",
        }
    }
}

/// Runtime state exported by `io.rustd.Manager1.Job.State`.
#[derive(Debug, Clone, Copy, PartialEq, Eq, Structural)]
pub enum JobState {
    /// The job is queued behind ordering prerequisites.
    Waiting,
    /// The manager has begun executing the job.
    Running,
}

impl JobState {
    /// The D-Bus string of each state.
    pub open spec fn name(self) -> Seq<char> {
        match self {
            JobState::Waiting => "waiting"@,
            JobState::Running => "running"@,
        }
    }

    /// Canonical D-Bus state string.
    pub fn as_str(self) -> (r: &'static str)
        ensures
            r@ == self.name(),
    {
        match self {
            JobState::Waiting => "waiting",
            JobState::Running => "running",
        }
    }
}

/// Completion result exported in the Manager `JobRemoved` signal.
#[derive(Debug, Clone, Copy, PartialEq, Eq, Structural)]
pub enum JobResult {
    Done,
    Canceled,
    Timeout,
    Failed,
    Dependency,
    Skipped,
    Invalid,
    Frozen,
    Concurrency,
}

impl JobResult {
    /// The D-Bus string of each result.
    pub open spec fn name(self) -> Seq<char> {
        match self {
            JobResult::Done => "done"@,
            JobResult::Canceled => "canceled"@,
            JobResult::Timeout => "timeout"@,
            JobResult::Failed => "failed"@,
            JobResult::Dependency => "dependency"@,
            JobResult::Skipped => "skipped"@,
            JobResult::Invalid => "invalid"@,
            JobResult::Frozen => "frozen"@,
            JobResult::Concurrency => "concurrency"@,
        }
    }

    /// Canonical D-Bus result string.
    pub fn as_str(self) -> (r: &'static str)
        ensures
            r@ == self.name(),
    {
        match self {
            JobResult::Done => "done",
            JobResult::Canceled => "canceled",
            JobResult::Timeout => "timeout",
            JobResult::Failed => "failed",
            JobResult::Dependency => "dependency",
            JobResult::Skipped => "skipped",
            JobResult::Invalid => "invalid",
            JobResult::Frozen => "frozen",
            JobResult::Concurrency => "concurrency",
        }
    }

    /// The results that the failure counter counts.
    pub open spec fn counts_as_failed(self) -> bool {
        self is Failed || self is Invalid || self is Frozen || self is Concurrency
    }

    fn increments_failed_counter(self) -> (r: bool)
        ensures
            r == self.counts_as_failed(),
    {
        matches!(self, JobResult::Failed | JobResult::Invalid | JobResult::Frozen | JobResult::Concurrency)
    }
}

/// A single pending or running unit operation.
#[derive(Debug)]
pub struct Job {
    /// Monotonically increasing identifier. Zero is reserved for internal
    /// implementation steps that are not exported on D-Bus.
    pub id: u32,
    /// What to do.
    pub kind: JobKind,
    /// Name of the unit this job targets.
    pub unit_name: String,
}

/// A job as its identifier, kind and the characters of its unit's name.
pub struct JobView {
    pub id: u32,
    pub kind: JobKind,
    pub unit: Seq<char>,
}

impl View for Job {
    type V = JobView;

    open spec fn view(&self) -> JobView {
        JobView { id: self.id, kind: self.kind, unit: self.unit_name@ }
    }
}

impl Clone for Job {
    fn clone(&self) -> (r: Self)
        ensures
            r == *self,
    {
        Job { id: self.id, kind: self.kind, unit_name: self.unit_name.clone() }
    }
}

/// Immutable identity plus mutable state for one live exported job.
#[derive(Debug)]
pub struct JobInfo {
    pub id: u32,
    pub kind: JobKind,
    pub unit_name: String,
    pub state: JobState,
}

/// A live job by its fields' views.
pub struct JobInfoView {
    pub id: u32,
    pub kind: JobKind,
    pub unit: Seq<char>,
    pub state: JobState,
}

impl View for JobInfo {
    type V = JobInfoView;

    open spec fn view(&self) -> JobInfoView {
        JobInfoView { id: self.id, kind: self.kind, unit: self.unit_name@, state: self.state }
    }
}

impl Clone for JobInfo {
    fn clone(&self) -> (r: Self)
        ensures
            r == *self,
    {
        JobInfo { id: self.id, kind: self.kind, unit_name: self.unit_name.clone(), state: self.state }
    }
}

/// Ordered registry event consumed by the manager's D-Bus signal publisher.
#[derive(Debug)]
pub enum JobEvent {
    /// A new job object must be registered and announced.
    New(JobInfo),
    /// A live job changed between the waiting and running states.
    StateChanged(JobInfo),
    /// A job completed and its object must be removed.
    Removed { job: JobInfo, result: JobResult },
}

/// An event by the views of the jobs in it.
pub enum JobEventView {
    New(JobInfoView),
    StateChanged(JobInfoView),
    Removed { job: JobInfoView, result: JobResult },
}

impl View for JobEvent {
    type V = JobEventView;

    open spec fn view(&self) -> JobEventView {
        match self {
            JobEvent::New(job) => JobEventView::New(job@),
            JobEvent::StateChanged(job) => JobEventView::StateChanged(job@),
            JobEvent::Removed { job, result } => JobEventView::Removed { job: job@, result: *result },
        }
    }
}

/// Registry of all externally visible jobs.
#[derive(Debug)]
pub struct JobRegistry {
    next_id: u32,
    n_installed: u32,
    n_failed: u32,
    /// Ascending by identifier.
    live: Vec<JobInfo>,
    owners: Vec<(u32, String)>,
    /// Pairs of identifiers; the first must finish before the second may run.
    edges: Vec<(u32, u32)>,
    events: Vec<JobEvent>,
}

/// What a registry holds.
pub struct JobRegistryView {
    /// The identifier that the next installed job gets.
    pub next_id: u32,
    /// How many jobs were installed, as far as the counter reaches.
    pub n_installed: u32,
    /// How many jobs finished with a result that counts as failed.
    pub n_failed: u32,
    /// The live jobs by identifier.
    pub live: Map<u32, JobInfoView>,
    /// Who owns which job.
    pub owners: Set<(u32, Seq<char>)>,
    /// Pairs of identifiers; the first must finish before the second may run.
    pub edges: Set<(u32, u32)>,
    /// Events not drained yet, oldest first.
    pub events: Seq<JobEventView>,
}

/// Live jobs by their views.
pub open spec fn job_infos(jobs: Seq<JobInfo>) -> Seq<JobInfoView> {
    jobs.map_values(|job: JobInfo| job@)
}

/// Events by their views.
pub open spec fn job_events(events: Seq<JobEvent>) -> Seq<JobEventView> {
    events.map_values(|event: JobEvent| event@)
}

/// Whether `jobs` are the jobs of `live`, ascending by identifier.
pub open spec fn is_listing(jobs: Seq<JobInfoView>, live: Map<u32, JobInfoView>) -> bool {
    &&& forall|i: int, j: int| 0 <= i < j < jobs.len() ==> (#[trigger] jobs[i]).id < (#[trigger] jobs[j]).id
    &&& forall|i: int| 0 <= i < jobs.len() ==> live.dom().contains((#[trigger] jobs[i]).id) && live[jobs[i].id] == jobs[i]
    &&& forall|id: u32| #[trigger] live.dom().contains(id) ==> exists|i: int| 0 <= i < jobs.len() && (#[trigger] jobs[i]).id == id
}

/// The live jobs that must finish before `id` may run.
pub open spec fn live_before(v: JobRegistryView, id: u32) -> Map<u32, JobInfoView> {
    v.live.restrict(Set::new(|other: u32| v.edges.contains((other, id))))
}

/// The live jobs that wait for `id`.
pub open spec fn live_after(v: JobRegistryView, id: u32) -> Map<u32, JobInfoView> {
    v.live.restrict(Set::new(|other: u32| v.edges.contains((id, other))))
}

/// The live job with identifier `id`, if there is one.
pub open spec fn live_job(v: JobRegistryView, id: u32) -> Option<JobInfoView> {
    if v.live.dom().contains(id) {
        Some(v.live[id])
    } else {
        None
    }
}

pub open spec fn saturating_succ(n: u32) -> u32 {
    if n == u32::MAX {
        n
    } else {
        (n + 1) as u32
    }
}

/// The registry after a job was installed.
pub open spec fn installed(v: JobRegistryView, kind: JobKind, unit: Seq<char>, owner: Option<Seq<char>>) -> JobRegistryView {
    let job = JobInfoView { id: v.next_id, kind, unit, state: JobState::Waiting };
    JobRegistryView {
        next_id: (v.next_id + 1) as u32,
        n_installed: saturating_succ(v.n_installed),
        live: v.live.insert(v.next_id, job),
        owners: match owner {
            Some(name) if name.len() > 0 => v.owners.insert((v.next_id, name)),
            _ => v.owners,
        },
        events: v.events.push(JobEventView::New(job)),
        ..v
    }
}

/// The registry after live job `id` finished.
pub open spec fn finished(v: JobRegistryView, id: u32, result: JobResult) -> JobRegistryView {
    if v.live.dom().contains(id) {
        JobRegistryView {
            n_failed: if result.counts_as_failed() {
                saturating_succ(v.n_failed)
            } else {
                v.n_failed
            },
            live: v.live.remove(id),
            owners: v.owners.filter(|o: (u32, Seq<char>)| o.0 != id),
            edges: v.edges.filter(|e: (u32, u32)| e.0 != id && e.1 != id),
            events: v.events.push(JobEventView::Removed { job: v.live[id], result }),
            ..v
        }
    } else {
        v
    }
}

/// The registry after live job `id` was marked running.
pub open spec fn marked_running(v: JobRegistryView, id: u32) -> JobRegistryView {
    if v.live.dom().contains(id) && v.live[id].state != JobState::Running {
        let job = JobInfoView { state: JobState::Running, ..v.live[id] };
        JobRegistryView {
            live: v.live.insert(id, job),
            events: v.events.push(JobEventView::StateChanged(job)),
            ..v
        }
    } else {
        v
    }
}

/// Kinds of work that run in the reverse of the start order.
pub open spec fn stops(kind: JobKind) -> bool {
    kind is Stop || kind is Restart
}

/// Whether `unit` is ordered after `dependency`.
pub open spec fn ordered_after(afters: Map<Seq<char>, Vec<String>>, unit: Seq<char>, dependency: Seq<char>) -> bool {
    afters.dom().contains(unit) && text::views(afters[unit]@).contains(dependency)
}

/// Whether the `After=` lists order live job `first` before live job `second`.
///
/// A job whose unit comes after another job's unit waits for that job, unless
/// it takes its unit down: then the other job waits for it.
pub open spec fn orders(live: Map<u32, JobInfoView>, afters: Map<Seq<char>, Vec<String>>, first: u32, second: u32) -> bool {
    &&& live.dom().contains(first)
    &&& live.dom().contains(second)
    &&& first != second
    &&& {
        ||| !stops(live[second].kind) && ordered_after(afters, live[second].unit, live[first].unit)
        ||| stops(live[first].kind) && ordered_after(afters, live[first].unit, live[second].unit)
    }
}

/// Whether a job's kind runs in the reverse of the start order.
pub fn orders_as_stop(kind: JobKind) -> (r: bool)
    ensures
        r == stops(kind),
{
    matches!(kind, JobKind::Stop | JobKind::Restart)
}

impl View for JobRegistry {
    type V = JobRegistryView;

    closed spec fn view(&self) -> JobRegistryView {
        JobRegistryView {
            next_id: self.next_id,
            n_installed: self.n_installed,
            n_failed: self.n_failed,
            live: live_map(self.live@),
            owners: Set::new(|o: (u32, Seq<char>)| owns(self.owners@, o)),
            edges: Set::new(|e: (u32, u32)| self.edges@.contains(e)),
            events: job_events(self.events@),
        }
    }
}

spec fn owns(owners: Seq<(u32, String)>, o: (u32, Seq<char>)) -> bool {
    exists|i: int| 0 <= i < owners.len() && (#[trigger] owners[i]).0 == o.0 && owners[i].1@ == o.1
}

spec fn has_id(live: Seq<JobInfo>, id: u32) -> bool {
    exists|i: int| 0 <= i < live.len() && (#[trigger] live[i]).id == id
}

spec fn live_map(live: Seq<JobInfo>) -> Map<u32, JobInfoView> {
    Map::new(
        |id: u32| has_id(live, id),
        |id: u32| live[choose|i: int| 0 <= i < live.len() && (#[trigger] live[i]).id == id]@,
    )
}

spec fn ascending(live: Seq<JobInfo>) -> bool {
    forall|i: int, j: int| 0 <= i < j < live.len() ==> (#[trigger] live[i]).id < (#[trigger] live[j]).id
}

proof fn lemma_live_at(live: Seq<JobInfo>, i: int)
    requires
        ascending(live),
        0 <= i < live.len(),
    ensures
        live_map(live).dom().contains(live[i].id),
        live_map(live)[live[i].id] == live[i]@,
{
    let id = live[i].id;
    let k = choose|k: int| 0 <= k < live.len() && (#[trigger] live[k]).id == id;
    assert(live[k].id == id);
    if k < i {
    } else if i < k {
    }
}

/// Removing the job at `i` removes its identifier from the map.
proof fn lemma_live_remove(live: Seq<JobInfo>, i: int)
    requires
        ascending(live),
        0 <= i < live.len(),
    ensures
        ascending(live.remove(i)),
        live_map(live.remove(i)) == live_map(live).remove(live[i].id),
{
    let rest = live.remove(i);
    let want = live_map(live).remove(live[i].id);
    assert forall|a: int, b: int| 0 <= a < b < rest.len() implies (#[trigger] rest[a]).id < (#[trigger] rest[b]).id by {
        let a2 = if a < i { a } else { a + 1 };
        let b2 = if b < i { b } else { b + 1 };
        assert(live[a2].id < live[b2].id);
    }
    assert forall|id: u32| live_map(rest).dom().contains(id) <==> want.dom().contains(id) by {
        if has_id(rest, id) {
            let a = choose|a: int| 0 <= a < rest.len() && (#[trigger] rest[a]).id == id;
            let a2 = if a < i { a } else { a + 1 };
            assert(live[a2].id == id);
            if a2 < i {
                assert(live[a2].id < live[i].id);
            } else {
                assert(live[i].id < live[a2].id);
            }
        }
        if has_id(live, id) && id != live[i].id {
            let a = choose|a: int| 0 <= a < live.len() && (#[trigger] live[a]).id == id;
            let a2 = if a < i { a } else { a - 1 };
            assert(rest[a2].id == id);
        }
    }
    assert forall|id: u32| live_map(rest).dom().contains(id) implies live_map(rest)[id] == want[id] by {
        let a = choose|a: int| 0 <= a < rest.len() && (#[trigger] rest[a]).id == id;
        lemma_live_at(rest, a);
        let a2 = if a < i { a } else { a + 1 };
        lemma_live_at(live, a2);
    }
    assert(live_map(rest) =~= want);
}

/// Appending a job with a fresh, larger identifier inserts it into the map.
proof fn lemma_live_push(live: Seq<JobInfo>, job: JobInfo)
    requires
        ascending(live),
        forall|i: int| 0 <= i < live.len() ==> (#[trigger] live[i]).id < job.id,
    ensures
        ascending(live.push(job)),
        live_map(live.push(job)) == live_map(live).insert(job.id, job@),
{
    let longer = live.push(job);
    let want = live_map(live).insert(job.id, job@);
    assert forall|id: u32| live_map(longer).dom().contains(id) <==> want.dom().contains(id) by {
        if has_id(longer, id) {
            let a = choose|a: int| 0 <= a < longer.len() && (#[trigger] longer[a]).id == id;
            if a < live.len() {
                assert(live[a].id == id);
            }
        }
        if has_id(live, id) {
            let a = choose|a: int| 0 <= a < live.len() && (#[trigger] live[a]).id == id;
            assert(longer[a].id == id);
        }
        if id == job.id {
            assert(longer[live.len() as int].id == id);
        }
    }
    assert forall|id: u32| live_map(longer).dom().contains(id) implies live_map(longer)[id] == want[id] by {
        let a = choose|a: int| 0 <= a < longer.len() && (#[trigger] longer[a]).id == id;
        lemma_live_at(longer, a);
        if a < live.len() {
            lemma_live_at(live, a);
        }
    }
    assert(live_map(longer) =~= want);
}

/// Replacing the job at `i` by one with the same identifier.
proof fn lemma_live_set(live: Seq<JobInfo>, i: int, job: JobInfo)
    requires
        ascending(live),
        0 <= i < live.len(),
        job.id == live[i].id,
    ensures
        ascending(live.update(i, job)),
        live_map(live.update(i, job)) == live_map(live).insert(job.id, job@),
{
    let newer = live.update(i, job);
    let want = live_map(live).insert(job.id, job@);
    assert forall|a: int, b: int| 0 <= a < b < newer.len() implies (#[trigger] newer[a]).id < (#[trigger] newer[b]).id by {
        assert(live[a].id < live[b].id);
    }
    assert forall|id: u32| live_map(newer).dom().contains(id) <==> want.dom().contains(id) by {
        if has_id(newer, id) {
            let a = choose|a: int| 0 <= a < newer.len() && (#[trigger] newer[a]).id == id;
            assert(live[a].id == id);
        }
        if has_id(live, id) {
            let a = choose|a: int| 0 <= a < live.len() && (#[trigger] live[a]).id == id;
            assert(newer[a].id == id);
        }
        if id == job.id {
            assert(newer[i].id == id);
        }
    }
    assert forall|id: u32| live_map(newer).dom().contains(id) implies live_map(newer)[id] == want[id] by {
        let a = choose|a: int| 0 <= a < newer.len() && (#[trigger] newer[a]).id == id;
        lemma_live_at(newer, a);
        lemma_live_at(live, a);
        if a < i {
            assert(live[a].id < live[i].id);
        } else if i < a {
            assert(live[i].id < live[a].id);
        }
    }
    assert(live_map(newer) =~= want);
}

impl JobRegistryView {
    /// What a registry without jobs holds.
    pub open spec fn initial() -> Self {
        JobRegistryView {
            next_id: 1,
            n_installed: 0,
            n_failed: 0,
            live: Map::empty(),
            owners: Set::empty(),
            edges: Set::empty(),
            events: Seq::empty(),
        }
    }

    /// What holds of every registry: jobs are filed under their own
    /// identifiers, which are positive and were all handed out; owners and
    /// ordering pairs are kept for live jobs only; and no job waits for itself.
    pub open spec fn valid(self) -> bool {
        &&& 0 < self.next_id
        &&& self.live.dom().finite()
        &&& forall|id: u32| #[trigger] self.live.dom().contains(id) ==> self.live[id].id == id && 0 < id < self.next_id
        &&& forall|o: (u32, Seq<char>)| #[trigger] self.owners.contains(o) ==> self.live.dom().contains(o.0)
        &&& forall|e: (u32, u32)| #[trigger] self.edges.contains(e) ==> self.live.dom().contains(e.0) && self.live.dom().contains(e.1) && e.0 != e.1
    }
}

/// The ordering pair that two jobs give, `job`'s unit coming after `other`'s.
spec fn pair(job: JobInfo, other: JobInfo) -> (u32, u32) {
    if stops(job.kind) {
        (job.id, other.id)
    } else {
        (other.id, job.id)
    }
}

/// Whether `e` is the pair of job `p` with another live job on one of `names`.
spec fn linked(live: Seq<JobInfo>, p: int, names: Seq<Seq<char>>, e: (u32, u32)) -> bool {
    exists|r: int| 0 <= r < live.len() && r != p && names.contains((#[trigger] live[r]).unit_name@) && e == pair(live[p], live[r])
}

/// Whether `e` is the pair of job `p` with one of the first `k` jobs, on unit `name`.
spec fn linked_below(live: Seq<JobInfo>, p: int, k: int, name: Seq<char>, e: (u32, u32)) -> bool {
    exists|r: int| 0 <= r < k && r != p && (#[trigger] live[r]).unit_name@ == name && e == pair(live[p], live[r])
}

/// Add the ordering pairs of job `p` with the jobs on the units in `deps`.
fn link_job(live: &Vec<JobInfo>, p: usize, deps: &Vec<String>, edges: &mut Vec<(u32, u32)>)
    requires
        ascending(live@),
        p < live@.len(),
    ensures
        forall|e: (u32, u32)| #[trigger] final(edges)@.contains(e) <==> old(edges)@.contains(e) || linked(live@, p as int, text::views(deps@), e),
{
    let ghost before = edges@;
    let ghost names = text::views(deps@);
    let mut q: usize = 0;
    while q < deps.len()
        invariant
            ascending(live@),
            p < live@.len(),
            q <= deps@.len(),
            names == text::views(deps@),
            forall|e: (u32, u32)| #[trigger] edges@.contains(e) <==> before.contains(e) || linked(live@, p as int, names.take(q as int), e),
        decreases deps@.len() - q,
    {
        let ghost outer = edges@;
        let mut r: usize = 0;
        while r < live.len()
            invariant
                ascending(live@),
                p < live@.len(),
                q < deps@.len(),
                r <= live@.len(),
                names == text::views(deps@),
                forall|e: (u32, u32)| #[trigger] edges@.contains(e) <==> outer.contains(e) || linked_below(live@, p as int, r as int, names[q as int], e),
            decreases live@.len() - r,
        {
            let ghost inner = edges@;
            let other = &live[r];
            if text::same(other.unit_name.as_str(), deps[q].as_str()) && live[p].id != other.id {
                let e = if orders_as_stop(live[p].kind) {
                    (live[p].id, other.id)
                } else {
                    (other.id, live[p].id)
                };
                edges.push(e);
                proof {
                    assert(e == pair(live@[p as int], live@[r as int]));
                    assert forall|x: (u32, u32)| #[trigger] edges@.contains(x) <==> outer.contains(x) || linked_below(live@, p as int, r + 1, names[q as int], x) by {
                        assert(edges@.contains(x) <==> inner.contains(x) || x == e) by {
                            if inner.contains(x) {
                                let k = choose|k: int| 0 <= k < inner.len() && inner[k] == x;
                                assert(edges@[k] == x);
                            }
                            if x == e {
                                assert(edges@[inner.len() as int] == x);
                            }
                        }
                        if x == e {
                            assert(live@[r as int].unit_name@ == names[q as int]);
                        }
                    }
                }
            } else {
                proof {
                    assert forall|x: (u32, u32)| linked_below(live@, p as int, r + 1, names[q as int], x) implies linked_below(live@, p as int, r as int, names[q as int], x) by {
                        let k = choose|k: int| 0 <= k < r + 1 && k != p && (#[trigger] live@[k]).unit_name@ == names[q as int] && x == pair(live@[p as int], live@[k]);
                        if k == r {
                            if k < p {
                                assert(live@[k].id < live@[p as int].id);
                            } else {
                                assert(live@[p as int].id < live@[k].id);
                            }
                        }
                    }
                }
            }
            r += 1;
        }
        proof {
            let taken = names.take(q as int);
            let more = names.take(q + 1);
            assert(more =~= taken.push(names[q as int]));
            assert forall|e: (u32, u32)| #[trigger] edges@.contains(e) <==> before.contains(e) || linked(live@, p as int, more, e) by {
                if linked(live@, p as int, more, e) {
                    let k = choose|k: int| 0 <= k < live@.len() && k != p && more.contains((#[trigger] live@[k]).unit_name@) && e == pair(live@[p as int], live@[k]);
                    let nm = live@[k].unit_name@;
                    let m = choose|m: int| 0 <= m < more.len() && more[m] == nm;
                    if m < q {
                        assert(taken[m] == nm);
                        assert(linked(live@, p as int, taken, e));
                    } else {
                        assert(linked_below(live@, p as int, live@.len() as int, names[q as int], e));
                    }
                }
                if linked(live@, p as int, taken, e) {
                    let k = choose|k: int| 0 <= k < live@.len() && k != p && taken.contains((#[trigger] live@[k]).unit_name@) && e == pair(live@[p as int], live@[k]);
                    let nm = live@[k].unit_name@;
                    let m = choose|m: int| 0 <= m < taken.len() && taken[m] == nm;
                    assert(more[m] == nm);
                }
                if linked_below(live@, p as int, live@.len() as int, names[q as int], e) {
                    let k = choose|k: int| 0 <= k < live@.len() && k != p && (#[trigger] live@[k]).unit_name@ == names[q as int] && e == pair(live@[p as int], live@[k]);
                    assert(more[q as int] == live@[k].unit_name@);
                    assert(more.contains(live@[k].unit_name@));
                }
            }
        }
        q += 1;
    }
    assert(names.take(q as int) =~= names);
}

/// Whether `e` is a pair that one of the first `n` jobs gives.
spec fn linked_upto(live: Seq<JobInfo>, afters: Map<Seq<char>, Vec<String>>, n: int, e: (u32, u32)) -> bool {
    exists|p: int| 0 <= p < n && afters.dom().contains((#[trigger] live[p]).unit_name@) && linked(live, p, text::views(afters[live[p].unit_name@]@), e)
}

/// The pairs that all jobs give are those that the `After=` lists order.
proof fn lemma_linked(live: Seq<JobInfo>, afters: Map<Seq<char>, Vec<String>>, e: (u32, u32))
    requires
        ascending(live),
    ensures
        linked_upto(live, afters, live.len() as int, e) <==> orders(live_map(live), afters, e.0, e.1),
{
    let m = live_map(live);
    if linked_upto(live, afters, live.len() as int, e) {
        let p = choose|p: int| 0 <= p < live.len() && afters.dom().contains((#[trigger] live[p]).unit_name@) && linked(live, p, text::views(afters[live[p].unit_name@]@), e);
        let names = text::views(afters[live[p].unit_name@]@);
        let r = choose|r: int| 0 <= r < live.len() && r != p && names.contains((#[trigger] live[r]).unit_name@) && e == pair(live[p], live[r]);
        lemma_live_at(live, p);
        lemma_live_at(live, r);
        if p < r {
            assert(live[p].id < live[r].id);
        } else {
            assert(live[r].id < live[p].id);
        }
    }
    if orders(m, afters, e.0, e.1) {
        let a = choose|a: int| 0 <= a < live.len() && (#[trigger] live[a]).id == e.0;
        let b = choose|b: int| 0 <= b < live.len() && (#[trigger] live[b]).id == e.1;
        lemma_live_at(live, a);
        lemma_live_at(live, b);
        if !stops(m[e.1].kind) && ordered_after(afters, m[e.1].unit, m[e.0].unit) {
            assert(e == pair(live[b], live[a]));
            assert(linked(live, b, text::views(afters[live[b].unit_name@]@), e));
        } else {
            assert(e == pair(live[a], live[b]));
            assert(linked(live, a, text::views(afters[live[a].unit_name@]@), e));
        }
    }
}

impl JobRegistry {
    /// Live jobs stand in the order of their identifiers.
    pub closed spec fn sorted(&self) -> bool {
        ascending(self.live@)
    }

    /// The registry's invariant.
    pub open spec fn wf(&self) -> bool {
        self.sorted() && self@.valid()
    }

    /// A registry without jobs.
    pub fn new() -> (r: Self)
        ensures
            r.wf(),
            r@ == JobRegistryView::initial(),
    {
        let r = JobRegistry {
            next_id: 1,
            n_installed: 0,
            n_failed: 0,
            live: Vec::new(),
            owners: Vec::new(),
            edges: Vec::new(),
            events: Vec::new(),
        };
        proof {
            assert(r@.live =~= Map::empty());
            assert(r@.owners =~= Set::empty());
            assert(r@.edges =~= Set::empty());
            assert(r@.events =~= Seq::empty());
        }
        r
    }

    /// Position of a live job.
    fn position(&self, id: u32) -> (r: Option<usize>)
        requires
            self.sorted(),
        ensures
            match r {
                Some(i) => i < self.live@.len() && self.live@[i as int].id == id && self@.live.dom().contains(id)
                    && self@.live[id] == self.live@[i as int]@,
                None => !self@.live.dom().contains(id),
            },
    {
        let mut i: usize = 0;
        while i < self.live.len()
            invariant
                self.sorted(),
                i <= self.live@.len(),
                forall|k: int| 0 <= k < i ==> (#[trigger] self.live@[k]).id != id,
            decreases self.live@.len() - i,
        {
            if self.live[i].id == id {
                proof {
                    lemma_live_at(self.live@, i as int);
                }
                return Some(i);
            }
            i += 1;
        }
        None
    }

    /// Whether another identifier can be handed out.
    pub fn can_allocate(&self) -> (r: bool)
        ensures
            r == (self@.next_id < u32::MAX),
    {
        self.next_id < u32::MAX
    }

    fn allocate(&mut self, kind: JobKind, unit_name: String, owner: Option<String>) -> (r: Job)
        requires
            old(self).wf(),
            old(self)@.next_id < u32::MAX,
        ensures
            final(self).wf(),
            final(self)@ == installed(old(self)@, kind, unit_name@, text::opt_view(owner)),
            r@ == (JobView { id: old(self)@.next_id, kind, unit: unit_name@ }),
    {
        let ghost before = *self;
        let ghost owner_view = text::opt_view(owner);
        let id: u32 = self.next_id;
        self.next_id = self.next_id + 1;
        let info = JobInfo { id, kind, unit_name: unit_name.clone(), state: JobState::Waiting };
        proof {
            assert forall|i: int| 0 <= i < before.live@.len() implies (#[trigger] before.live@[i]).id < id by {
                lemma_live_at(before.live@, i);
            }
            lemma_live_push(before.live@, info);
        }
        self.live.push(info.clone());
        if self.n_installed < u32::MAX {
            self.n_installed = self.n_installed + 1;
        }
        if let Some(name) = owner {
            if !name.as_str().is_empty() {
                let ghost owners = self.owners@;
                let ghost nm = name@;
                self.owners.push((id, name));
                proof {
                    let added = self.owners@[owners.len() as int];
                    assert(self.owners@ =~= owners.push(added));
                    assert forall|o: (u32, Seq<char>)| self@.owners.contains(o) <==> before@.owners.insert((id, nm)).contains(o) by {
                        lemma_owns_push(owners, added, o);
                    }
                    assert(self@.owners =~= before@.owners.insert((id, nm)));
                }
            }
        }
        self.events.push(JobEvent::New(info));
        proof {
            let want = installed(before@, kind, unit_name@, owner_view);
            assert(self@.live == want.live);
            assert(self@.events =~= want.events);
            assert(self@.edges == want.edges);
            assert(self@.owners == want.owners);
            assert(self@ == want);
            assert(self@.live.dom() =~= before@.live.dom().insert(id));
        }
        Job { id, kind, unit_name }
    }

    /// Return the total number of externally visible jobs installed by this
    /// manager instance.
    pub fn n_installed(&self) -> (r: u32)
        ensures
            r == self@.n_installed,
    {
        self.n_installed
    }

    /// Return the total number of jobs that completed with an upstream
    /// failure-counted result.
    ///
    /// `failed`, `invalid`, `frozen`, and `concurrency` are counted; timeout,
    /// dependency, and canceled outcomes are not.
    pub fn n_failed(&self) -> (r: u32)
        ensures
            r == self@.n_failed,
    {
        self.n_failed
    }

    /// Return a copy of one live job.
    pub fn get(&self, id: u32) -> (r: Option<JobInfo>)
        requires
            self.wf(),
        ensures
            match r {
                Some(job) => live_job(self@, id) == Some(job@),
                None => live_job(self@, id) is None,
            },
    {
        match self.position(id) {
            Some(i) => Some(self.live[i].clone()),
            None => None,
        }
    }

    /// True when no exported job is waiting or running.
    pub fn is_empty(&self) -> (r: bool)
        requires
            self.wf(),
        ensures
            r == (self@.live == Map::<u32, JobInfoView>::empty()),
    {
        proof {
            if self.live@.len() > 0 {
                lemma_live_at(self.live@, 0);
            } else {
                assert(self@.live =~= Map::<u32, JobInfoView>::empty());
            }
        }
        self.live.len() == 0
    }

    /// True when the exported job still exists.
    pub fn is_live(&self, id: u32) -> (r: bool)
        requires
            self.wf(),
        ensures
            r == self@.live.dom().contains(id),
    {
        self.position(id).is_some()
    }

    /// Return all live jobs in numeric identifier order.
    pub fn list(&self) -> (r: Vec<JobInfo>)
        requires
            self.wf(),
        ensures
            is_listing(job_infos(r@), self@.live),
    {
        let r = self.live.clone();
        proof {
            assert(r@ =~= self.live@);
            let v = job_infos(r@);
            assert forall|i: int| 0 <= i < v.len() implies self@.live.dom().contains((#[trigger] v[i]).id) && self@.live[v[i].id] == v[i] by {
                lemma_live_at(self.live@, i);
            }
            assert forall|i: int, j: int| 0 <= i < j < v.len() implies (#[trigger] v[i]).id < (#[trigger] v[j]).id by {
                assert(self.live@[i].id < self.live@[j].id);
            }
            assert forall|id: u32| #[trigger] self@.live.dom().contains(id) implies exists|i: int| 0 <= i < v.len() && (#[trigger] v[i]).id == id by {
                let i = choose|i: int| 0 <= i < self.live@.len() && (#[trigger] self.live@[i]).id == id;
                assert(v[i].id == id);
            }
        }
        r
    }

    /// Return the oldest live job attached to `unit_name`.
    pub fn for_unit(&self, unit_name: &str) -> (r: Option<JobInfo>)
        requires
            self.wf(),
        ensures
            match r {
                Some(job) => {
                    &&& live_job(self@, job.id) == Some(job@)
                    &&& job.unit_name@ == unit_name@
                    &&& forall|id: u32| #[trigger] self@.live.dom().contains(id) && self@.live[id].unit == unit_name@ ==> job.id <= id
                },
                None => forall|id: u32| #[trigger] self@.live.dom().contains(id) ==> self@.live[id].unit != unit_name@,
            },
    {
        let mut i: usize = 0;
        while i < self.live.len()
            invariant
                self.wf(),
                i <= self.live@.len(),
                forall|k: int| 0 <= k < i ==> (#[trigger] self.live@[k]).unit_name@ != unit_name@,
            decreases self.live@.len() - i,
        {
            if text::same(self.live[i].unit_name.as_str(), unit_name) {
                proof {
                    lemma_live_at(self.live@, i as int);
                    assert forall|id: u32| #[trigger] self@.live.dom().contains(id) && self@.live[id].unit == unit_name@ implies self.live@[i as int].id <= id by {
                        let k = choose|k: int| 0 <= k < self.live@.len() && (#[trigger] self.live@[k]).id == id;
                        lemma_live_at(self.live@, k);
                        if k > i {
                            assert(self.live@[i as int].id < self.live@[k].id);
                        }
                    }
                }
                return Some(self.live[i].clone());
            }
            i += 1;
        }
        proof {
            assert forall|id: u32| #[trigger] self@.live.dom().contains(id) implies self@.live[id].unit != unit_name@ by {
                let k = choose|k: int| 0 <= k < self.live@.len() && (#[trigger] self.live@[k]).id == id;
                lemma_live_at(self.live@, k);
            }
        }
        None
    }

    /// Return whether `sender` created or otherwise owns the job.
    pub fn is_owner(&self, id: u32, sender: &str) -> (r: bool)
        ensures
            r == self@.owners.contains((id, sender@)),
    {
        let mut i: usize = 0;
        while i < self.owners.len()
            invariant
                i <= self.owners@.len(),
                forall|k: int| 0 <= k < i ==> !((#[trigger] self.owners@[k]).0 == id && self.owners@[k].1@ == sender@),
            decreases self.owners@.len() - i,
        {
            if self.owners[i].0 == id && text::same(self.owners[i].1.as_str(), sender) {
                assert(owns(self.owners@, (id, sender@)));
                return true;
            }
            i += 1;
        }
        false
    }

    /// Whether `first` must finish before `second` may run.
    fn has_edge(&self, first: u32, second: u32) -> (r: bool)
        ensures
            r == self@.edges.contains((first, second)),
    {
        let mut i: usize = 0;
        while i < self.edges.len()
            invariant
                i <= self.edges@.len(),
                forall|k: int| 0 <= k < i ==> #[trigger] self.edges@[k] != (first, second),
            decreases self.edges@.len() - i,
        {
            if self.edges[i].0 == first && self.edges[i].1 == second {
                assert(self.edges@[i as int] == (first, second));
                return true;
            }
            i += 1;
        }
        false
    }

    /// The live jobs of `chosen`, in order; `chosen` says which side of the
    /// ordering pairs of `id` is meant.
    fn related(&self, id: u32, earlier: bool) -> (r: Vec<JobInfo>)
        requires
            self.wf(),
        ensures
            is_listing(job_infos(r@), if earlier {
                live_before(self@, id)
            } else {
                live_after(self@, id)
            }),
    {
        let ghost chosen = if earlier {
            live_before(self@, id)
        } else {
            live_after(self@, id)
        };
        let mut out: Vec<JobInfo> = Vec::new();
        let mut i: usize = 0;
        while i < self.live.len()
            invariant
                self.wf(),
                i <= self.live@.len(),
                chosen == (if earlier {
                    live_before(self@, id)
                } else {
                    live_after(self@, id)
                }),
                forall|a: int, b: int| 0 <= a < b < out@.len() ==> (#[trigger] out@[a]).id < (#[trigger] out@[b]).id,
                forall|a: int| 0 <= a < out@.len() ==> chosen.dom().contains((#[trigger] out@[a]).id) && chosen[out@[a].id] == out@[a]@,
                forall|a: int| 0 <= a < out@.len() && i < self.live@.len() ==> (#[trigger] out@[a]).id < self.live@[i as int].id,
                forall|k: int| 0 <= k < i && chosen.dom().contains((#[trigger] self.live@[k]).id) ==> has_id(out@, self.live@[k].id),
            decreases self.live@.len() - i,
        {
            let other = self.live[i].id;
            let keep = if earlier {
                self.has_edge(other, id)
            } else {
                self.has_edge(id, other)
            };
            let ghost prev = out@;
            proof {
                lemma_live_at(self.live@, i as int);
                if i + 1 < self.live@.len() {
                    assert(self.live@[i as int].id < self.live@[i + 1].id);
                }
            }
            if keep {
                out.push(self.live[i].clone());
                proof {
                    assert(out@[prev.len() as int].id == self.live@[i as int].id);
                }
            }
            proof {
                assert forall|k: int| 0 <= k < i + 1 && chosen.dom().contains((#[trigger] self.live@[k]).id) implies has_id(out@, self.live@[k].id) by {
                    if k < i {
                        assert(has_id(prev, self.live@[k].id));
                        let a = choose|a: int| 0 <= a < prev.len() && (#[trigger] prev[a]).id == self.live@[k].id;
                        assert(out@[a].id == self.live@[k].id);
                    }
                }
            }
            i += 1;
        }
        proof {
            let v = job_infos(out@);
            assert forall|a: int, b: int| 0 <= a < b < v.len() implies (#[trigger] v[a]).id < (#[trigger] v[b]).id by {
                assert(out@[a].id < out@[b].id);
            }
            assert forall|a: int| 0 <= a < v.len() implies chosen.dom().contains((#[trigger] v[a]).id) && chosen[v[a].id] == v[a] by {
                assert(chosen.dom().contains(out@[a].id));
            }
            assert forall|x: u32| #[trigger] chosen.dom().contains(x) implies exists|a: int| 0 <= a < v.len() && (#[trigger] v[a]).id == x by {
                let k = choose|k: int| 0 <= k < self.live@.len() && (#[trigger] self.live@[k]).id == x;
                assert(has_id(out@, self.live@[k].id));
                let a = choose|a: int| 0 <= a < out@.len() && (#[trigger] out@[a]).id == x;
                assert(v[a].id == x);
            }
        }
        out
    }

    /// Return jobs that must finish before `id` may run, ordered by job ID.
    pub fn get_before(&self, id: u32) -> (r: Vec<JobInfo>)
        requires
            self.wf(),
        ensures
            is_listing(job_infos(r@), live_before(self@, id)),
    {
        self.related(id, true)
    }

    /// Return jobs that are waiting for `id`, ordered by job ID.
    pub fn get_after(&self, id: u32) -> (r: Vec<JobInfo>)
        requires
            self.wf(),
        ensures
            is_listing(job_infos(r@), live_after(self@, id)),
    {
        self.related(id, false)
    }

    /// Rebuild live job ordering from canonical unit `After=` relationships.
    pub fn refresh_ordering(&mut self, afters: &NameMap<Vec<String>>)
        requires
            old(self).wf(),
            afters.wf(),
        ensures
            final(self).wf(),
            forall|e: (u32, u32)| #[trigger] final(self)@.edges.contains(e) <==> orders(old(self)@.live, afters@, e.0, e.1),
            final(self)@ == (JobRegistryView { edges: final(self)@.edges, ..old(self)@ }),
    {
        let ghost before = *self;
        let mut edges: Vec<(u32, u32)> = Vec::new();
        let mut p: usize = 0;
        while p < self.live.len()
            invariant
                *self == before,
                self.wf(),
                afters.wf(),
                p <= self.live@.len(),
                forall|e: (u32, u32)| #[trigger] edges@.contains(e) <==> linked_upto(self.live@, afters@, p as int, e),
            decreases self.live@.len() - p,
        {
            let ghost prev = edges@;
            let ghost name = self.live@[p as int].unit_name@;
            if let Some(deps) = afters.get(self.live[p].unit_name.as_str()) {
                link_job(&self.live, p, deps, &mut edges);
                proof {
                    assert forall|e: (u32, u32)| #[trigger] edges@.contains(e) <==> linked_upto(self.live@, afters@, p + 1, e) by {
                        assert(edges@.contains(e) <==> prev.contains(e) || linked(self.live@, p as int, text::views(afters@[name]@), e));
                        if linked_upto(self.live@, afters@, p as int, e) {
                            let k = choose|k: int| 0 <= k < p && afters@.dom().contains((#[trigger] self.live@[k]).unit_name@) && linked(self.live@, k, text::views(afters@[self.live@[k].unit_name@]@), e);
                            assert(afters@.dom().contains(self.live@[k].unit_name@));
                        }
                        if linked(self.live@, p as int, text::views(afters@[name]@), e) {
                            assert(afters@.dom().contains(self.live@[p as int].unit_name@));
                        }
                    }
                }
            } else {
                proof {
                    assert forall|e: (u32, u32)| linked_upto(self.live@, afters@, p as int, e) <==> linked_upto(self.live@, afters@, p + 1, e) by {
                        if linked_upto(self.live@, afters@, p as int, e) {
                            let k = choose|k: int| 0 <= k < p && afters@.dom().contains((#[trigger] self.live@[k]).unit_name@) && linked(self.live@, k, text::views(afters@[self.live@[k].unit_name@]@), e);
                            assert(afters@.dom().contains(self.live@[k].unit_name@));
                        }
                    }
                }
            }
            p += 1;
        }
        self.edges = edges;
        proof {
            assert forall|e: (u32, u32)| #[trigger] self@.edges.contains(e) <==> orders(before@.live, afters@, e.0, e.1) by {
                lemma_linked(self.live@, afters@, e);
            }
        }
    }

    /// Transition a waiting job to running.
    pub fn mark_running(&mut self, id: u32) -> (r: bool)
        requires
            old(self).wf(),
        ensures
            final(self).wf(),
            r == old(self)@.live.dom().contains(id),
            final(self)@ == marked_running(old(self)@, id),
    {
        let ghost before = *self;
        match self.position(id) {
            Some(i) => {
                if self.live[i].state == JobState::Running {
                    return true;
                }
                let mut changed = self.live[i].clone();
                changed.state = JobState::Running;
                proof {
                    lemma_live_set(before.live@, i as int, changed);
                }
                self.live.set(i, changed.clone());
                self.events.push(JobEvent::StateChanged(changed));
                proof {
                    let want = marked_running(before@, id);
                    assert(self@.events =~= want.events);
                    assert(self@.live == want.live);
                    assert(self@ == want);
                    assert(self@.live.dom() =~= before@.live.dom());
                }
                true
            },
            None => false,
        }
    }

    /// Remove a live job and queue its completion event.
    pub fn finish(&mut self, id: u32, result: JobResult) -> (r: Option<JobInfo>)
        requires
            old(self).wf(),
        ensures
            final(self).wf(),
            final(self)@ == finished(old(self)@, id, result),
            match r {
                Some(job) => live_job(old(self)@, id) == Some(job@),
                None => live_job(old(self)@, id) is None,
            },
    {
        let ghost before = *self;
        let i = match self.position(id) {
            Some(i) => i,
            None => return None,
        };
        proof {
            lemma_live_remove(before.live@, i as int);
        }
        let job = self.live.remove(i);
        if result.increments_failed_counter() {
            if self.n_failed < u32::MAX {
                self.n_failed = self.n_failed + 1;
            }
        }
        self.forget(id);
        self.events.push(JobEvent::Removed { job: job.clone(), result });
        proof {
            let want = finished(before@, id, result);
            assert(self@.events =~= want.events);
            assert(self@.live == want.live);
            assert(self@.owners =~= want.owners);
            assert(self@.edges =~= want.edges);
            assert(self@ == want);
            assert(self@.live.dom() =~= before@.live.dom().remove(id));
        }
        Some(job)
    }

    /// Drop the owners and ordering pairs of `id`.
    fn forget(&mut self, id: u32)
        ensures
            final(self).live == old(self).live,
            final(self).next_id == old(self).next_id,
            final(self).n_installed == old(self).n_installed,
            final(self).n_failed == old(self).n_failed,
            final(self).events == old(self).events,
            final(self)@.owners == old(self)@.owners.filter(|o: (u32, Seq<char>)| o.0 != id),
            final(self)@.edges == old(self)@.edges.filter(|e: (u32, u32)| e.0 != id && e.1 != id),
    {
        let ghost before = *self;
        let mut owners: Vec<(u32, String)> = Vec::new();
        let mut i: usize = 0;
        while i < self.owners.len()
            invariant
                *self == before,
                i <= self.owners@.len(),
                forall|o: (u32, Seq<char>)| owns(owners@, o) <==> owns(self.owners@.take(i as int), o) && o.0 != id,
            decreases self.owners@.len() - i,
        {
            let ghost prev = owners@;
            let ghost seen = self.owners@.take(i as int);
            let ghost more = self.owners@.take(i + 1);
            let ghost at = self.owners@[i as int];
            if self.owners[i].0 != id {
                owners.push((self.owners[i].0, self.owners[i].1.clone()));
            }
            proof {
                assert forall|o: (u32, Seq<char>)| owns(owners@, o) <==> owns(more, o) && o.0 != id by {
                    lemma_owns_push(seen, at, o);
                    assert(more =~= seen.push(at));
                    if at.0 != id {
                        lemma_owns_push(prev, at, o);
                    }
                }
            }
            i += 1;
        }
        assert(self.owners@.take(i as int) =~= self.owners@);
        let mut edges: Vec<(u32, u32)> = Vec::new();
        let mut k: usize = 0;
        while k < self.edges.len()
            invariant
                *self == before,
                k <= self.edges@.len(),
                forall|e: (u32, u32)| #[trigger] edges@.contains(e) <==> self.edges@.take(k as int).contains(e) && e.0 != id && e.1 != id,
            decreases self.edges@.len() - k,
        {
            let ghost prev = edges@;
            let ghost seen = self.edges@.take(k as int);
            let ghost more = self.edges@.take(k + 1);
            let e = self.edges[k];
            if e.0 != id && e.1 != id {
                edges.push(e);
            }
            proof {
                assert(more =~= seen.push(e));
                assert forall|x: (u32, u32)| #[trigger] edges@.contains(x) <==> more.contains(x) && x.0 != id && x.1 != id by {
                    lemma_contains_push(seen, e, x);
                    lemma_contains_push(prev, e, x);
                }
            }
            k += 1;
        }
        assert(self.edges@.take(k as int) =~= self.edges@);
        self.owners = owners;
        self.edges = edges;
        proof {
            assert(self@.owners =~= before@.owners.filter(|o: (u32, Seq<char>)| o.0 != id));
            assert(self@.edges =~= before@.edges.filter(|e: (u32, u32)| e.0 != id && e.1 != id));
        }
    }

    /// Drain queued job lifecycle events in creation order.
    pub fn drain_events(&mut self) -> (r: Vec<JobEvent>)
        requires
            old(self).wf(),
        ensures
            final(self).wf(),
            job_events(r@) == old(self)@.events,
            final(self)@ == (JobRegistryView { events: Seq::empty(), ..old(self)@ }),
    {
        let mut events: Vec<JobEvent> = Vec::new();
        std::mem::swap(&mut events, &mut self.events);
        assert(self@.events =~= Seq::empty());
        events
    }
}

proof fn lemma_owns_push(owners: Seq<(u32, String)>, at: (u32, String), o: (u32, Seq<char>))
    ensures
        owns(owners.push(at), o) <==> owns(owners, o) || (at.0 == o.0 && at.1@ == o.1),
{
    let more = owners.push(at);
    if owns(owners, o) {
        let k = choose|k: int| 0 <= k < owners.len() && (#[trigger] owners[k]).0 == o.0 && owners[k].1@ == o.1;
        assert(more[k].0 == o.0);
    }
    if at.0 == o.0 && at.1@ == o.1 {
        assert(more[owners.len() as int].0 == o.0);
    }
    if owns(more, o) {
        let k = choose|k: int| 0 <= k < more.len() && (#[trigger] more[k]).0 == o.0 && more[k].1@ == o.1;
        if k < owners.len() {
            assert(owners[k].0 == o.0);
        }
    }
}

proof fn lemma_contains_push<A>(s: Seq<A>, a: A, x: A)
    ensures
        s.push(a).contains(x) <==> s.contains(x) || x == a,
{
    let more = s.push(a);
    if s.contains(x) {
        let k = choose|k: int| 0 <= k < s.len() && s[k] == x;
        assert(more[k] == x);
    }
    if x == a {
        assert(more[s.len() as int] == x);
    }
}

/// Jobs by their views.
pub open spec fn job_views(jobs: Seq<Job>) -> Seq<JobView> {
    jobs.map_values(|job: Job| job@)
}

/// Whether a queued job still counts: it is internal, or its exported job is live.
pub open spec fn current(v: JobRegistryView, job: JobView) -> bool {
    job.id == 0 || v.live.dom().contains(job.id)
}

/// The queued jobs that still count, in order.
pub open spec fn still_current(v: JobRegistryView, pending: Seq<JobView>) -> Seq<JobView> {
    pending.filter(|job: JobView| current(v, job))
}

/// Unit states in which no transition is under way.
pub open spec fn settled(state: UnitState) -> bool {
    state is Active || state is Inactive || state is Failed || state is Maintenance
}

/// Whether the states of the units that a start job's unit comes after let it
/// start. Units without a known state do not hold it back.
pub open spec fn start_ready(job: JobView, states: Map<Seq<char>, UnitState>, afters: Map<Seq<char>, Vec<String>>) -> bool {
    job.kind is Start ==> forall|dep: Seq<char>| #[trigger] ordered_after(afters, job.unit, dep) && states.dom().contains(dep) ==> settled(states[dep])
}

/// Whether a job may run now: no live job must finish first, and its unit's
/// `After=` dependencies are settled.
pub open spec fn ready(v: JobRegistryView, states: Map<Seq<char>, UnitState>, afters: Map<Seq<char>, Vec<String>>, job: JobView) -> bool {
    &&& job.id == 0 || live_before(v, job.id).dom() == Set::<u32>::empty()
    &&& start_ready(job, states, afters)
}

/// Whether the job at `k` is the first of `jobs` that may run now.
pub open spec fn is_first_ready(v: JobRegistryView, states: Map<Seq<char>, UnitState>, afters: Map<Seq<char>, Vec<String>>, jobs: Seq<JobView>, k: int) -> bool {
    &&& 0 <= k < jobs.len()
    &&& ready(v, states, afters, jobs[k])
    &&& forall|i: int| 0 <= i < k ==> !ready(v, states, afters, #[trigger] jobs[i])
}

/// The jobs of `pending` that may run now, in order.
pub open spec fn ready_jobs(v: JobRegistryView, states: Map<Seq<char>, UnitState>, afters: Map<Seq<char>, Vec<String>>, pending: Seq<JobView>) -> Seq<JobView> {
    pending.filter(|job: JobView| ready(v, states, afters, job))
}

/// The jobs of `pending` that may not run yet, in order.
pub open spec fn held_jobs(v: JobRegistryView, states: Map<Seq<char>, UnitState>, afters: Map<Seq<char>, Vec<String>>, pending: Seq<JobView>) -> Seq<JobView> {
    pending.filter(|job: JobView| !ready(v, states, afters, job))
}

proof fn lemma_filter_all<A>(s: Seq<A>, p: spec_fn(A) -> bool)
    requires
        forall|i: int| 0 <= i < s.len() ==> p(#[trigger] s[i]),
    ensures
        s.filter(p) == s,
    decreases s.len(),
{
    reveal(Seq::filter);
    if s.len() > 0 {
        lemma_filter_all(s.drop_last(), p);
        assert(s =~= s.drop_last().push(s.last()));
    }
}

proof fn lemma_filter_none<A>(s: Seq<A>, p: spec_fn(A) -> bool)
    requires
        forall|i: int| 0 <= i < s.len() ==> !p(#[trigger] s[i]),
    ensures
        s.filter(p) == Seq::<A>::empty(),
    decreases s.len(),
{
    reveal(Seq::filter);
    if s.len() > 0 {
        lemma_filter_none(s.drop_last(), p);
    }
}

/// Taking the first element that meets `p` out of a sequence.
proof fn lemma_filter_pop<A>(s: Seq<A>, k: int, p: spec_fn(A) -> bool, q: spec_fn(A) -> bool)
    requires
        0 <= k < s.len(),
        p(s[k]),
        forall|i: int| 0 <= i < k ==> !p(#[trigger] s[i]),
        forall|a: A| #[trigger] q(a) == !p(a),
    ensures
        s.filter(p) == seq![s[k]] + s.remove(k).filter(p),
        s.filter(q) == s.remove(k).filter(q),
{
    let front = s.take(k);
    let mid = seq![s[k]];
    let back = s.skip(k + 1);
    assert(s =~= front + mid + back);
    assert(s.remove(k) =~= front + back);
    lemma_filter_none(front, p);
    Seq::filter_distributes_over_add(front + mid, back, p);
    Seq::filter_distributes_over_add(front, mid, p);
    Seq::filter_distributes_over_add(front, back, p);
    Seq::filter_distributes_over_add(front + mid, back, q);
    Seq::filter_distributes_over_add(front, mid, q);
    Seq::filter_distributes_over_add(front, back, q);
    lemma_filter_all(mid, p);
    lemma_filter_none(mid, q);
    assert(s.filter(p) =~= mid + s.remove(k).filter(p));
    assert(s.filter(q) =~= s.remove(k).filter(q));
}

/// Whether a start job's ordering dependencies are settled.
pub fn job_is_ready(job: &Job, states: &NameMap<UnitState>, afters: &NameMap<Vec<String>>) -> (r: bool)
    requires
        states.wf(),
        afters.wf(),
    ensures
        r == start_ready(job@, states@, afters@),
{
    if !matches!(job.kind, JobKind::Start) {
        return true;
    }
    let deps = match afters.get(job.unit_name.as_str()) {
        Some(deps) => deps,
        None => return true,
    };
    let ghost names = text::views(deps@);
    let mut i: usize = 0;
    while i < deps.len()
        invariant
            states.wf(),
            i <= deps@.len(),
            names == text::views(deps@),
            job.kind is Start,
            afters@.dom().contains(job.unit_name@),
            *deps == afters@[job.unit_name@],
            forall|k: int| 0 <= k < i && states@.dom().contains(#[trigger] names[k]) ==> settled(states@[names[k]]),
        decreases deps@.len() - i,
    {
        assert(names[i as int] == deps@[i as int]@);
        if let Some(state) = states.get(deps[i].as_str()) {
            let ok = matches!(*state, UnitState::Active | UnitState::Inactive | UnitState::Failed | UnitState::Maintenance);
            if !ok {
                proof {
                    assert(names.contains(names[i as int]));
                    assert(states@.dom().contains(names[i as int]));
                    assert(!settled(states@[names[i as int]]));
                    assert(job@.unit == job.unit_name@);
                    assert(ordered_after(afters@, job.unit_name@, names[i as int]));
                    assert(!start_ready(job@, states@, afters@));
                }
                return false;
            }
        }
        i += 1;
    }
    true
}

/// Ordered queue of pending jobs.
#[derive(Debug)]
pub struct JobQueue {
    pending: Vec<Job>,
}

impl View for JobQueue {
    type V = Seq<JobView>;

    closed spec fn view(&self) -> Seq<JobView> {
        job_views(self.pending@)
    }
}

impl Default for JobQueue {
    fn default() -> (r: Self)
        ensures
            r@ == Seq::<JobView>::empty(),
    {
        let r = JobQueue { pending: Vec::new() };
        assert(r@ =~= Seq::<JobView>::empty());
        r
    }
}

impl JobQueue {
    /// Append a new exported job and return its stable identity.
    pub fn enqueue(&mut self, registry: &mut JobRegistry, kind: JobKind, unit_name: &str) -> (r: Job)
        requires
            old(registry).wf(),
            old(registry)@.next_id < u32::MAX,
        ensures
            final(registry).wf(),
            final(registry)@ == installed(old(registry)@, kind, unit_name@, None),
            r@ == (JobView { id: old(registry)@.next_id, kind, unit: unit_name@ }),
            final(self)@ == old(self)@.push(r@),
    {
        self.enqueue_owned(registry, kind, unit_name, None)
    }

    /// Append a new exported job and associate it with a D-Bus owner.
    pub fn enqueue_owned(&mut self, registry: &mut JobRegistry, kind: JobKind, unit_name: &str, owner: Option<String>) -> (r: Job)
        requires
            old(registry).wf(),
            old(registry)@.next_id < u32::MAX,
        ensures
            final(registry).wf(),
            final(registry)@ == installed(old(registry)@, kind, unit_name@, text::opt_view(owner)),
            r@ == (JobView { id: old(registry)@.next_id, kind, unit: unit_name@ }),
            final(self)@ == old(self)@.push(r@),
    {
        let ghost before = self@;
        let job = registry.allocate(kind, unit_name.to_owned(), owner);
        self.pending.push(job.clone());
        assert(self@ =~= before.push(job@));
        job
    }

    /// Append an unexported implementation step.
    pub fn enqueue_internal(&mut self, kind: JobKind, unit_name: &str)
        ensures
            final(self)@ == old(self)@.push(JobView { id: 0, kind, unit: unit_name@ }),
    {
        let ghost before = self@;
        self.pending.push(Job { id: 0, kind, unit_name: unit_name.to_owned() });
        assert(self@ =~= before.push(JobView { id: 0, kind, unit: unit_name@ }));
    }

    /// Move an already allocated job into this queue without changing its ID.
    pub fn push_existing(&mut self, registry: &JobRegistry, job: Job)
        requires
            registry.wf(),
        ensures
            final(self)@ == (if current(registry@, job@) {
                old(self)@.push(job@)
            } else {
                old(self)@
            }),
    {
        let ghost before = self@;
        if job.id == 0 || registry.is_live(job.id) {
            self.pending.push(job);
            assert(self@ =~= before.push(job@));
        }
    }

    /// Remove and return the oldest queued job, preserving its identity.
    /// Jobs ahead of it that no longer count are dropped.
    pub fn pop_front(&mut self, registry: &JobRegistry) -> (r: Option<Job>)
        requires
            registry.wf(),
        ensures
            match r {
                Some(job) => exists|k: int| {
                    &&& 0 <= k < old(self)@.len()
                    &&& #[trigger] old(self)@[k] == job@
                    &&& current(registry@, job@)
                    &&& forall|i: int| 0 <= i < k ==> !current(registry@, #[trigger] old(self)@[i])
                    &&& final(self)@ == old(self)@.skip(k + 1)
                },
                None => {
                    &&& forall|i: int| 0 <= i < old(self)@.len() ==> !current(registry@, #[trigger] old(self)@[i])
                    &&& final(self)@ == Seq::<JobView>::empty()
                },
            },
    {
        let ghost before = self@;
        let ghost mut k: int = 0;
        while self.pending.len() > 0
            invariant
                registry.wf(),
                before == old(self)@,
                0 <= k <= before.len(),
                self@ == before.skip(k),
                forall|i: int| 0 <= i < k ==> !current(registry@, #[trigger] before[i]),
            decreases self.pending@.len(),
        {
            let ghost prev = self.pending@;
            let job = self.pending.remove(0);
            proof {
                assert(job_views(prev) == before.skip(k));
                assert(before.skip(k).len() == before.len() - k);
                assert(job_views(prev).len() == prev.len());
                assert(before.skip(k)[0] == before[k]);
                assert(job_views(prev)[0] == job@);
                assert(self@ =~= before.skip(k + 1)) by {
                    assert forall|i: int| 0 <= i < self@.len() implies self@[i] == before.skip(k + 1)[i] by {
                        assert(self@[i] == job_views(prev)[i + 1]);
                        assert(before.skip(k)[i + 1] == before[k + 1 + i]);
                    }
                }
            }
            if job.id == 0 || registry.is_live(job.id) {
                return Some(job);
            }
            proof {
                k = k + 1;
            }
        }
        assert(before.skip(k).len() == 0);
        assert(self@ =~= Seq::<JobView>::empty());
        None
    }

    /// Rebuild ordering edges shared with the scheduler and D-Bus job objects.
    pub fn refresh_ordering(&self, registry: &mut JobRegistry, afters: &NameMap<Vec<String>>)
        requires
            old(registry).wf(),
            afters.wf(),
        ensures
            final(registry).wf(),
            forall|e: (u32, u32)| #[trigger] final(registry)@.edges.contains(e) <==> orders(old(registry)@.live, afters@, e.0, e.1),
            final(registry)@ == (JobRegistryView { edges: final(registry)@.edges, ..old(registry)@ }),
    {
        registry.refresh_ordering(afters);
    }

    /// Drop the jobs that no longer count.
    fn prune(&mut self, registry: &JobRegistry)
        requires
            registry.wf(),
        ensures
            final(self)@ == still_current(registry@, old(self)@),
    {
        let ghost before = self@;
        let ghost keep = |job: JobView| current(registry@, job);
        let mut kept: Vec<Job> = Vec::new();
        let mut i: usize = 0;
        proof {
            assert(before.take(0) =~= Seq::<JobView>::empty());
            lemma_filter_none(before.take(0), keep);
            assert(job_views(kept@) =~= Seq::<JobView>::empty());
        }
        while i < self.pending.len()
            invariant
                registry.wf(),
                before == self@,
                i <= self.pending@.len(),
                keep == (|job: JobView| current(registry@, job)),
                job_views(kept@) == before.take(i as int).filter(keep),
            decreases self.pending@.len() - i,
        {
            let ghost prev = kept@;
            if self.pending[i].id == 0 || registry.is_live(self.pending[i].id) {
                kept.push(self.pending[i].clone());
            }
            proof {
                let elem = before[i as int];
                assert(before.take(i + 1) =~= before.take(i as int).push(elem));
                before.take(i as int).lemma_filter_push(elem, keep);
                if keep(elem) {
                    assert(job_views(kept@) =~= job_views(prev).push(elem));
                }
            }
            i += 1;
        }
        assert(before.take(i as int) =~= before);
        self.pending = kept;
    }

    /// Return the next job whose ordering prerequisites are satisfied.
    ///
    /// A `Start` job is ready when all `After=` dependencies of the target
    /// unit are settled and every live prerequisite job has completed.
    /// Stop/restart ordering is reversed.
    pub fn pop_ready(&mut self, registry: &JobRegistry, states: &NameMap<UnitState>, afters: &NameMap<Vec<String>>) -> (r: Option<Job>)
        requires
            registry.wf(),
            states.wf(),
            afters.wf(),
        ensures
            match r {
                Some(job) => exists|k: int| {
                    &&& #[trigger] is_first_ready(registry@, states@, afters@, still_current(registry@, old(self)@), k)
                    &&& job@ == still_current(registry@, old(self)@)[k]
                    &&& final(self)@ == still_current(registry@, old(self)@).remove(k)
                },
                None => {
                    let kept = still_current(registry@, old(self)@);
                    &&& forall|i: int| 0 <= i < kept.len() ==> !ready(registry@, states@, afters@, #[trigger] kept[i])
                    &&& final(self)@ == kept
                },
            },
    {
        self.prune(registry);
        let ghost kept = self@;
        let mut i: usize = 0;
        while i < self.pending.len()
            invariant
                registry.wf(),
                states.wf(),
                afters.wf(),
                kept == self@,
                kept == still_current(registry@, old(self)@),
                i <= self.pending@.len(),
                forall|k: int| 0 <= k < i ==> !ready(registry@, states@, afters@, #[trigger] kept[k]),
            decreases self.pending@.len() - i,
        {
            let id = self.pending[i].id;
            assert(kept[i as int] == self.pending@[i as int]@);
            let free = id == 0 || Self::nothing_before(registry, id);
            if free && job_is_ready(&self.pending[i], states, afters) {
                let job = self.pending.remove(i);
                proof {
                    assert(self@ =~= kept.remove(i as int));
                    assert(is_first_ready(registry@, states@, afters@, kept, i as int));
                }
                return Some(job);
            }
            i += 1;
        }
        None
    }

    /// Whether no live job must finish before `id`.
    fn nothing_before(registry: &JobRegistry, id: u32) -> (r: bool)
        requires
            registry.wf(),
        ensures
            r == (live_before(registry@, id).dom() == Set::<u32>::empty()),
    {
        let jobs = registry.get_before(id);
        proof {
            let v = job_infos(jobs@);
            let m = live_before(registry@, id);
            if jobs@.len() == 0 {
                assert forall|x: u32| !m.dom().contains(x) by {
                    if m.dom().contains(x) {
                        let a = choose|a: int| 0 <= a < v.len() && (#[trigger] v[a]).id == x;
                        assert(v.len() == 0);
                    }
                }
                assert(m.dom() =~= Set::<u32>::empty());
            } else {
                assert(m.dom().contains(v[0].id));
            }
        }
        jobs.len() == 0
    }

    /// Drain all currently-ready jobs, returning them in order.
    pub fn drain_ready(&mut self, registry: &JobRegistry, states: &NameMap<UnitState>, afters: &NameMap<Vec<String>>) -> (r: Vec<Job>)
        requires
            registry.wf(),
            states.wf(),
            afters.wf(),
        ensures
            job_views(r@) == ready_jobs(registry@, states@, afters@, still_current(registry@, old(self)@)),
            final(self)@ == held_jobs(registry@, states@, afters@, still_current(registry@, old(self)@)),
    {
        let ghost kept = still_current(registry@, self@);
        let mut out: Vec<Job> = Vec::new();
        proof {
            assert(job_views(out@) =~= Seq::<JobView>::empty());
            assert(Seq::<JobView>::empty() + ready_jobs(registry@, states@, afters@, kept) =~= ready_jobs(registry@, states@, afters@, kept));
        }
        loop
            invariant_except_break
                registry.wf(),
                states.wf(),
                afters.wf(),
                job_views(out@) + ready_jobs(registry@, states@, afters@, still_current(registry@, self@)) == ready_jobs(registry@, states@, afters@, kept),
                held_jobs(registry@, states@, afters@, still_current(registry@, self@)) == held_jobs(registry@, states@, afters@, kept),
            ensures
                job_views(out@) == ready_jobs(registry@, states@, afters@, kept),
                self@ == held_jobs(registry@, states@, afters@, kept),
            decreases still_current(registry@, self@).len(),
        {
            let ghost all = self@;
            let ghost prev = still_current(registry@, all);
            let ghost taken = job_views(out@);
            let next = self.pop_ready(registry, states, afters);
            match next {
                Some(job) => {
                    proof {
                        lemma_pop(registry@, states@, afters@, all, job@, self@);
                    }
                    out.push(job);
                    proof {
                        assert(job_views(out@) =~= taken.push(job@));
                        let rest = ready_jobs(registry@, states@, afters@, still_current(registry@, self@));
                        assert(taken.push(job@) + rest =~= taken + (seq![job@] + rest));
                    }
                },
                None => {
                    proof {
                        lemma_none_ready(registry@, states@, afters@, prev);
                        assert(taken + Seq::<JobView>::empty() =~= taken);
                    }
                    break;
                },
            }
        }
        out
    }

    /// Cancel a job whether it is still in this queue or already running.
    pub fn cancel(&mut self, registry: &mut JobRegistry, id: u32) -> (r: bool)
        requires
            old(registry).wf(),
        ensures
            final(registry).wf(),
            r == old(registry)@.live.dom().contains(id),
            final(registry)@ == finished(old(registry)@, id, JobResult::Canceled),
            final(self)@ == (if id == 0 {
                old(self)@
            } else {
                old(self)@.filter(|job: JobView| job.id != id)
            }),
    {
        if id == 0 {
            return false;
        }
        self.drop_id(id);
        registry.finish(id, JobResult::Canceled).is_some()
    }

    /// Drop the queued jobs with identifier `id`.
    fn drop_id(&mut self, id: u32)
        ensures
            final(self)@ == old(self)@.filter(|job: JobView| job.id != id),
    {
        let ghost before = self@;
        let ghost keep = |job: JobView| job.id != id;
        let mut kept: Vec<Job> = Vec::new();
        let mut i: usize = 0;
        proof {
            assert(before.take(0) =~= Seq::<JobView>::empty());
            lemma_filter_none(before.take(0), keep);
            assert(job_views(kept@) =~= Seq::<JobView>::empty());
        }
        while i < self.pending.len()
            invariant
                before == self@,
                i <= self.pending@.len(),
                keep == (|job: JobView| job.id != id),
                job_views(kept@) == before.take(i as int).filter(keep),
            decreases self.pending@.len() - i,
        {
            let ghost prev = kept@;
            if self.pending[i].id != id {
                kept.push(self.pending[i].clone());
            }
            proof {
                let elem = before[i as int];
                assert(before.take(i + 1) =~= before.take(i as int).push(elem));
                before.take(i as int).lemma_filter_push(elem, keep);
                if keep(elem) {
                    assert(job_views(kept@) =~= job_views(prev).push(elem));
                }
            }
            i += 1;
        }
        assert(before.take(i as int) =~= before);
        self.pending = kept;
    }

    /// Cancel every live job and return the number that were canceled.
    pub fn cancel_all(&mut self, registry: &mut JobRegistry) -> (r: usize)
        requires
            old(registry).wf(),
        ensures
            final(registry).wf(),
            r == old(registry)@.live.dom().len(),
            exists|jobs: Seq<JobInfoView>| {
                &&& #[trigger] is_listing(jobs, old(registry)@.live)
                &&& final(registry)@ == (JobRegistryView {
                    live: Map::empty(),
                    owners: Set::empty(),
                    edges: Set::empty(),
                    events: old(registry)@.events + canceled_events(jobs),
                    ..old(registry)@
                })
            },
            final(self)@ == old(self)@.filter(|job: JobView| !old(registry)@.live.dom().contains(job.id)),
    {
        let ghost before = registry@;
        let ghost queue = self@;
        let jobs = registry.list();
        let ghost listed = job_infos(jobs@);
        let mut i: usize = 0;
        proof {
            assert(canceled_events(listed.take(0)) =~= Seq::<JobEventView>::empty());
            assert(before.events + Seq::<JobEventView>::empty() =~= before.events);
            lemma_filter_all(queue, |job: JobView| !ids_of(listed.take(0)).contains(job.id));
        }
        while i < jobs.len()
            invariant
                registry.wf(),
                before.valid(),
                listed == job_infos(jobs@),
                is_listing(listed, before.live),
                i <= jobs@.len(),
                forall|id: u32| #[trigger] registry@.live.dom().contains(id) <==> before.live.dom().contains(id) && !ids_of(listed.take(i as int)).contains(id),
                forall|id: u32| #[trigger] registry@.live.dom().contains(id) ==> registry@.live[id] == before.live[id],
                registry@.live.dom().len() + i == before.live.dom().len(),
                registry@.events == before.events + canceled_events(listed.take(i as int)),
                registry@.next_id == before.next_id,
                registry@.n_installed == before.n_installed,
                registry@.n_failed == before.n_failed,
                self@ == queue.filter(|job: JobView| !ids_of(listed.take(i as int)).contains(job.id)),
            decreases jobs@.len() - i,
        {
            let ghost prev = registry@;
            let ghost prev_queue = self@;
            let id = jobs[i].id;
            let ghost done = listed.take(i as int);
            let ghost more = listed.take(i + 1);
            proof {
                assert(listed[i as int].id == id);
                assert(more =~= done.push(listed[i as int]));
                assert forall|x: u32| ids_of(more).contains(x) <==> ids_of(done).contains(x) || x == id by {
                    if ids_of(done).contains(x) {
                        let k = choose|k: int| 0 <= k < done.len() && (#[trigger] done[k]).id == x;
                        assert(more[k].id == x);
                    }
                    if x == id {
                        assert(more[i as int].id == x);
                    }
                    if ids_of(more).contains(x) && x != id {
                        let k = choose|k: int| 0 <= k < more.len() && (#[trigger] more[k]).id == x;
                        assert(done[k].id == x);
                    }
                }
                assert(!ids_of(done).contains(id)) by {
                    if ids_of(done).contains(id) {
                        let k = choose|k: int| 0 <= k < done.len() && (#[trigger] done[k]).id == id;
                        assert(listed[k].id < listed[i as int].id);
                    }
                }
                assert(before.live.dom().contains(id));
                assert(prev.live.dom().contains(id));
            }
            let canceled = self.cancel(registry, id);
            proof {
                assert(canceled);
                let p = |job: JobView| !ids_of(done).contains(job.id);
                let q = |job: JobView| job.id != id;
                let both = |job: JobView| !ids_of(more).contains(job.id);
                lemma_filter_filter(queue, p, q, both);
                assert(registry@.live.dom() =~= prev.live.dom().remove(id));
                assert(canceled_events(more) =~= canceled_events(done).push(JobEventView::Removed { job: listed[i as int], result: JobResult::Canceled }));
                assert(registry@.events =~= before.events + canceled_events(more));
            }
            i += 1;
        }
        proof {
            assert(listed.take(i as int) =~= listed);
            assert forall|id: u32| before.live.dom().contains(id) <==> ids_of(listed).contains(id) by {
                if before.live.dom().contains(id) {
                    let k = choose|k: int| 0 <= k < listed.len() && (#[trigger] listed[k]).id == id;
                    assert(ids_of(listed).contains(id));
                }
            }
            assert(registry@.live =~= Map::empty());
            assert(registry@.owners =~= Set::empty());
            assert(registry@.edges =~= Set::empty());
            let p = |job: JobView| !ids_of(listed).contains(job.id);
            let q = |job: JobView| !before.live.dom().contains(job.id);
            assert(p =~= q);
        }
        i
    }

    /// Number of runnable or waiting jobs still present in the registry.
    pub fn len(&self, registry: &JobRegistry) -> (r: usize)
        requires
            registry.wf(),
        ensures
            r == still_current(registry@, self@).len(),
    {
        let ghost keep = |job: JobView| current(registry@, job);
        let mut n: usize = 0;
        let mut i: usize = 0;
        proof {
            assert(self@.take(0) =~= Seq::<JobView>::empty());
            lemma_filter_none(self@.take(0), keep);
        }
        while i < self.pending.len()
            invariant
                registry.wf(),
                i <= self.pending@.len(),
                n <= i,
                keep == (|job: JobView| current(registry@, job)),
                n == self@.take(i as int).filter(keep).len(),
            decreases self.pending@.len() - i,
        {
            if self.pending[i].id == 0 || registry.is_live(self.pending[i].id) {
                n += 1;
            }
            proof {
                let elem = self@[i as int];
                assert(self@.take(i + 1) =~= self@.take(i as int).push(elem));
                self@.take(i as int).lemma_filter_push(elem, keep);
            }
            i += 1;
        }
        assert(self@.take(i as int) =~= self@);
        n
    }

    /// True if no live jobs are waiting in this queue.
    pub fn is_empty(&self, registry: &JobRegistry) -> (r: bool)
        requires
            registry.wf(),
        ensures
            r == (still_current(registry@, self@).len() == 0),
    {
        self.len(registry) == 0
    }
}

/// Taking the first ready job out of the jobs that count.
proof fn lemma_take_ready(v: JobRegistryView, states: Map<Seq<char>, UnitState>, afters: Map<Seq<char>, Vec<String>>, all: Seq<JobView>, k: int)
    requires
        is_first_ready(v, states, afters, still_current(v, all), k),
    ensures
        ({
            let jobs = still_current(v, all);
            let rest = jobs.remove(k);
            &&& ready_jobs(v, states, afters, jobs) == seq![jobs[k]] + ready_jobs(v, states, afters, rest)
            &&& held_jobs(v, states, afters, jobs) == held_jobs(v, states, afters, rest)
            &&& still_current(v, rest) == rest
        }),
{
    let live = |job: JobView| current(v, job);
    let can = |job: JobView| ready(v, states, afters, job);
    let cannot = |job: JobView| !ready(v, states, afters, job);
    let jobs = still_current(v, all);
    lemma_filter_pop(jobs, k, can, cannot);
    assert forall|i: int| 0 <= i < jobs.len() implies live(#[trigger] jobs[i]) by {
        all.lemma_filter_pred(live, i);
    }
    lemma_filter_all(jobs.remove(k), live);
}

/// One step of draining the ready jobs.
proof fn lemma_pop(v: JobRegistryView, states: Map<Seq<char>, UnitState>, afters: Map<Seq<char>, Vec<String>>, all: Seq<JobView>, job: JobView, rest: Seq<JobView>)
    requires
        exists|k: int| #[trigger] is_first_ready(v, states, afters, still_current(v, all), k) && job == still_current(v, all)[k] && rest == still_current(v, all).remove(k),
    ensures
        ready_jobs(v, states, afters, still_current(v, all)) == seq![job] + ready_jobs(v, states, afters, still_current(v, rest)),
        held_jobs(v, states, afters, still_current(v, all)) == held_jobs(v, states, afters, still_current(v, rest)),
        still_current(v, rest).len() < still_current(v, all).len(),
{
    let k = choose|k: int| #[trigger] is_first_ready(v, states, afters, still_current(v, all), k) && job == still_current(v, all)[k] && rest == still_current(v, all).remove(k);
    lemma_take_ready(v, states, afters, all, k);
}

/// Where no job is ready, all are held.
proof fn lemma_none_ready(v: JobRegistryView, states: Map<Seq<char>, UnitState>, afters: Map<Seq<char>, Vec<String>>, jobs: Seq<JobView>)
    requires
        forall|i: int| 0 <= i < jobs.len() ==> !ready(v, states, afters, #[trigger] jobs[i]),
    ensures
        ready_jobs(v, states, afters, jobs) == Seq::<JobView>::empty(),
        held_jobs(v, states, afters, jobs) == jobs,
{
    lemma_filter_none(jobs, |job: JobView| ready(v, states, afters, job));
    lemma_filter_all(jobs, |job: JobView| !ready(v, states, afters, job));
}

/// The identifiers of some jobs.
pub open spec fn ids_of(jobs: Seq<JobInfoView>) -> Set<u32> {
    Set::new(|id: u32| exists|k: int| 0 <= k < jobs.len() && (#[trigger] jobs[k]).id == id)
}

/// The completion events of jobs canceled in order.
pub open spec fn canceled_events(jobs: Seq<JobInfoView>) -> Seq<JobEventView> {
    jobs.map_values(|job: JobInfoView| JobEventView::Removed { job, result: JobResult::Canceled })
}

proof fn lemma_filter_filter<A>(s: Seq<A>, p: spec_fn(A) -> bool, q: spec_fn(A) -> bool, both: spec_fn(A) -> bool)
    requires
        forall|a: A| #[trigger] both(a) == (p(a) && q(a)),
    ensures
        s.filter(p).filter(q) == s.filter(both),
    decreases s.len(),
{
    reveal(Seq::filter);
    if s.len() > 0 {
        lemma_filter_filter(s.drop_last(), p, q, both);
        if p(s.last()) {
            s.drop_last().filter(p).lemma_filter_push(s.last(), q);
        }
    }
}

/// The identifier a new job gets is not in use, is larger than every live
/// identifier, and is never handed out again: the next one is larger still,
/// and neither finishing nor running a job gives identifiers back.
pub proof fn law_identifiers_are_stable(v: JobRegistryView, kind: JobKind, unit: Seq<char>, owner: Option<Seq<char>>, id: u32, result: JobResult)
    requires
        v.valid(),
        v.next_id < u32::MAX,
    ensures
        !v.live.dom().contains(v.next_id),
        forall|other: u32| v.live.dom().contains(other) ==> other < v.next_id,
        installed(v, kind, unit, owner).next_id > v.next_id,
        installed(v, kind, unit, owner).live[v.next_id].unit == unit,
        finished(v, id, result).next_id == v.next_id,
        marked_running(v, id).next_id == v.next_id,
        installed(v, kind, unit, owner).valid(),
        finished(v, id, result).valid(),
        marked_running(v, id).valid(),
{
    let w = installed(v, kind, unit, owner);
    assert(w.live.dom() =~= v.live.dom().insert(v.next_id));
    let f = finished(v, id, result);
    if v.live.dom().contains(id) {
        assert(f.live.dom() =~= v.live.dom().remove(id));
    }
    let m = marked_running(v, id);
    assert(m.live.dom() =~= v.live.dom());
}

/// What is done to a registry, by its own methods or through a queue.
pub enum RegistryStep {
    /// `enqueue` or `enqueue_owned`, on any queue.
    Install { kind: JobKind, unit: Seq<char>, owner: Option<Seq<char>> },
    /// `finish`, and `cancel` on any queue.
    Finish { id: u32, result: JobResult },
    /// `mark_running`.
    Run { id: u32 },
    /// `refresh_ordering`.
    Order { afters: Map<Seq<char>, Vec<String>> },
    /// `cancel_all`, on any queue.
    CancelAll,
    /// `drain_events`.
    Drain,
    /// What only reads a registry: `enqueue_internal`, `push_existing`,
    /// `pop_front`, `pop_ready`, `drain_ready` and the lookups.
    Read,
}

/// Whether a step leads from one registry to another.
pub open spec fn leads_to(before: JobRegistryView, step: RegistryStep, after: JobRegistryView) -> bool {
    match step {
        RegistryStep::Install { kind, unit, owner } => before.next_id < u32::MAX && after == installed(before, kind, unit, owner),
        RegistryStep::Finish { id, result } => after == finished(before, id, result),
        RegistryStep::Run { id } => after == marked_running(before, id),
        RegistryStep::Order { afters } => {
            &&& after == (JobRegistryView { edges: after.edges, ..before })
            &&& forall|e: (u32, u32)| #[trigger] after.edges.contains(e) <==> orders(before.live, afters, e.0, e.1)
        },
        RegistryStep::CancelAll => exists|jobs: Seq<JobInfoView>| {
            &&& #[trigger] is_listing(jobs, before.live)
            &&& after == (JobRegistryView {
                live: Map::empty(),
                owners: Set::empty(),
                edges: Set::empty(),
                events: before.events + canceled_events(jobs),
                ..before
            })
        },
        RegistryStep::Drain => after == (JobRegistryView { events: Seq::empty(), ..before }),
        RegistryStep::Read => after == before,
    }
}

/// Whether a registry went through these states, one step from each to the
/// next.
pub open spec fn is_history(states: Seq<JobRegistryView>, steps: Seq<RegistryStep>) -> bool {
    &&& states.len() == steps.len() + 1
    &&& forall|i: int, j: int| 0 <= i && j == i + 1 && j < states.len() ==> leads_to(#[trigger] states[i], steps[i], #[trigger] states[j])
}

/// How many of the steps install a job.
pub open spec fn installations(steps: Seq<RegistryStep>) -> nat
    decreases steps.len(),
{
    if steps.len() == 0 {
        0
    } else if steps.last() is Install {
        installations(steps.drop_last()) + 1
    } else {
        installations(steps.drop_last())
    }
}

proof fn lemma_history_prefix(states: Seq<JobRegistryView>, steps: Seq<RegistryStep>, n: int)
    requires
        is_history(states, steps),
        0 <= n <= steps.len(),
    ensures
        is_history(states.take(n + 1), steps.take(n)),
{
    let s = states.take(n + 1);
    let t = steps.take(n);
    assert forall|i: int, j: int| 0 <= i && j == i + 1 && j < s.len() implies leads_to(#[trigger] s[i], t[i], #[trigger] s[j]) by {
        assert(leads_to(states[i], steps[i], states[j]));
    }
}

/// Over any history, the installation counter grows by the number of exported
/// enqueues, as far as it reaches, and nothing else moves it; the next
/// identifier grows by that number too.
pub proof fn law_installations_are_counted(states: Seq<JobRegistryView>, steps: Seq<RegistryStep>)
    requires
        is_history(states, steps),
    ensures
        states.last().n_installed == if states[0].n_installed + installations(steps) <= u32::MAX {
            states[0].n_installed + installations(steps)
        } else {
            u32::MAX as int
        },
        states.last().next_id == states[0].next_id + installations(steps),
        forall|i: int, j: int|
            0 <= i && j == i + 1 && j < states.len() && !(steps[i] is Install) ==> (#[trigger] states[i]).n_installed == (
            #[trigger] states[j]).n_installed,
    decreases steps.len(),
{
    if steps.len() > 0 {
        let n = steps.len() - 1;
        lemma_history_prefix(states, steps, n);
        assert(steps.take(n) =~= steps.drop_last());
        law_installations_are_counted(states.take(n + 1), steps.take(n));
        assert(states.take(n + 1).last() == states[n]);
        assert(states.last() == states[n + 1]);
        assert(leads_to(states[n], steps[n], states[n + 1]));
    }
    assert forall|i: int, j: int| 0 <= i && j == i + 1 && j < states.len() && !(steps[i] is Install) implies (
    #[trigger] states[i]).n_installed == (#[trigger] states[j]).n_installed by {
        assert(leads_to(states[i], steps[i], states[j]));
    }
}

/// The counter of a registry that began without jobs is the number of exported
/// enqueues since.
pub proof fn law_a_new_registry_counts_from_zero(states: Seq<JobRegistryView>, steps: Seq<RegistryStep>)
    requires
        is_history(states, steps),
        states[0] == JobRegistryView::initial(),
    ensures
        states.last().n_installed == installations(steps),
        states.last().next_id == installations(steps) + 1,
{
    law_installations_are_counted(states, steps);
}

/// Of two exported enqueues, in whatever queues, the later gets the greater
/// identifier, whatever comes between; none is zero, so none is given twice.
/// In a registry that began without jobs the identifiers are 1, 2, 3 and so on.
pub proof fn law_later_jobs_get_greater_identifiers(states: Seq<JobRegistryView>, steps: Seq<RegistryStep>, i: int, j: int)
    requires
        is_history(states, steps),
        states[0].valid(),
        0 <= i < j < steps.len(),
        steps[i] is Install,
        steps[j] is Install,
    ensures
        1 <= states[i].next_id < states[j].next_id,
        states[i + 1].live.dom().contains(states[i].next_id),
        states[j + 1].live.dom().contains(states[j].next_id),
        states[0] == JobRegistryView::initial() ==> states[i].next_id == installations(steps.take(i)) + 1
            && states[j].next_id == installations(steps.take(j)) + 1,
{
    lemma_next_id(states, steps, 0, i);
    lemma_next_id(states, steps, i, j);
    assert(leads_to(states[i], steps[i], states[i + 1]));
    assert(leads_to(states[j], steps[j], states[j + 1]));
    lemma_next_id(states, steps, i + 1, j);
    lemma_history_prefix(states, steps, i);
    lemma_history_prefix(states, steps, j);
    law_installations_are_counted(states.take(i + 1), steps.take(i));
    law_installations_are_counted(states.take(j + 1), steps.take(j));
}

/// Identifiers are never given back.
proof fn lemma_next_id(states: Seq<JobRegistryView>, steps: Seq<RegistryStep>, i: int, j: int)
    requires
        is_history(states, steps),
        0 <= i <= j < states.len(),
    ensures
        states[i].next_id <= states[j].next_id,
    decreases j - i,
{
    if i < j {
        lemma_next_id(states, steps, i, j - 1);
        assert(leads_to(states[j - 1], steps[j - 1], states[j]));
    }
}

/// One job waits for another exactly when the other is waited for by it.
pub proof fn law_before_and_after_are_inverse(v: JobRegistryView, first: u32, second: u32)
    requires
        v.valid(),
    ensures
        live_before(v, second).dom().contains(first) <==> live_after(v, first).dom().contains(second),
{
}

/// A finished job is gone: it is not live, owned by nobody, and neither waits
/// nor is waited for. Every other job keeps its state.
pub proof fn law_finishing_removes_every_trace(v: JobRegistryView, id: u32, result: JobResult, other: u32, owner: Seq<char>)
    requires
        v.valid(),
    ensures
        live_job(finished(v, id, result), id) is None,
        !finished(v, id, result).owners.contains((id, owner)),
        live_before(finished(v, id, result), id).dom() == Set::<u32>::empty(),
        live_after(finished(v, id, result), id).dom() == Set::<u32>::empty(),
        !live_before(finished(v, id, result), other).dom().contains(id),
        !live_after(finished(v, id, result), other).dom().contains(id),
        other != id ==> live_job(finished(v, id, result), other) == live_job(v, other),
{
    let f = finished(v, id, result);
    assert(live_before(f, id).dom() =~= Set::<u32>::empty());
    assert(live_after(f, id).dom() =~= Set::<u32>::empty());
}

/// The failure counter moves by one for `failed`, `invalid`, `frozen` and
/// `concurrency` results of live jobs, as far as it reaches, and for nothing
/// else; the installation counter does not move when a job finishes.
pub proof fn law_failure_counter(v: JobRegistryView, id: u32, result: JobResult)
    requires
        v.valid(),
        v.live.dom().contains(id),
        v.n_failed < u32::MAX,
    ensures
        finished(v, id, result).n_failed == v.n_failed + (if result.counts_as_failed() {
            1int
        } else {
            0int
        }),
        result is Done || result is Canceled || result is Timeout || result is Dependency || result is Skipped ==> finished(v, id, result).n_failed == v.n_failed,
        finished(v, id, result).n_installed == v.n_installed,
{
}

/// Stop order is the reverse of start order: if the same jobs start their
/// units in one case and stop them in the other, every ordering pair is turned
/// round.
pub proof fn law_stop_order_is_reverse_of_start_order(starting: Map<u32, JobInfoView>, stopping: Map<u32, JobInfoView>, afters: Map<Seq<char>, Vec<String>>, a: u32, b: u32)
    requires
        starting.dom() == stopping.dom(),
        forall|id: u32| #[trigger] starting.dom().contains(id) ==> starting[id].kind is Start && stopping[id].kind is Stop && starting[id].unit == stopping[id].unit,
    ensures
        orders(starting, afters, a, b) <==> orders(stopping, afters, b, a),
{
    if starting.dom().contains(a) && starting.dom().contains(b) {
        assert(starting.dom().contains(a));
        assert(starting.dom().contains(b));
    }
}

/// An exported job that is handed out as ready waits for no live job.
pub proof fn law_ready_jobs_wait_for_nothing(v: JobRegistryView, states: Map<Seq<char>, UnitState>, afters: Map<Seq<char>, Vec<String>>, pending: Seq<JobView>, i: int, other: u32)
    requires
        v.valid(),
        0 <= i < ready_jobs(v, states, afters, pending).len(),
        ready_jobs(v, states, afters, pending)[i].id != 0,
    ensures
        !v.edges.contains((other, ready_jobs(v, states, afters, pending)[i].id)),
{
    let can = |job: JobView| ready(v, states, afters, job);
    pending.lemma_filter_pred(can, i);
    let job = ready_jobs(v, states, afters, pending)[i];
    assert(ready(v, states, afters, job));
    if v.edges.contains((other, job.id)) {
        assert(live_before(v, job.id).dom().contains(other));
        assert(Set::<u32>::empty().contains(other));
    }
}

/// Jobs whose units are only taken down, reloaded or isolated never wait for
/// unit states, and a start job does not wait for units without a state.
pub proof fn law_only_unsettled_units_hold_a_start(job: JobView, states: Map<Seq<char>, UnitState>, afters: Map<Seq<char>, Vec<String>>)
    ensures
        !(job.kind is Start) ==> start_ready(job, states, afters),
        states.dom() == Set::<Seq<char>>::empty() ==> start_ready(job, states, afters),
        start_ready(job, states, afters) <==> !(job.kind is Start && exists|dep: Seq<char>| #[trigger] ordered_after(afters, job.unit, dep) && states.dom().contains(dep) && (states[dep] is Activating || states[dep] is Deactivating)),
{
}

/// Installing a job makes one more live job, which waits, under the next
/// identifier; announces it; notes its owner where one is named; and leaves
/// every other job and the order as they are.
pub proof fn law_installing_adds_one_waiting_job(v: JobRegistryView, kind: JobKind, unit: Seq<char>, owner: Option<Seq<char>>, other: u32)
    requires
        v.next_id < u32::MAX,
    ensures
        ({
            let w = installed(v, kind, unit, owner);
            let id = v.next_id;
            &&& w.next_id == id + 1
            &&& w.live.dom().contains(id)
            &&& w.live[id].id == id && w.live[id].kind == kind && w.live[id].unit == unit && w.live[id].state is Waiting
            &&& other != id ==> (w.live.dom().contains(other) <==> v.live.dom().contains(other)) && w.live[other] == v.live[other]
            &&& w.events.len() == v.events.len() + 1
            &&& w.events.drop_last() == v.events
            &&& w.events.last() == JobEventView::New(w.live[id])
            &&& w.edges == v.edges
            &&& w.n_failed == v.n_failed
            &&& v.n_installed < u32::MAX ==> w.n_installed == v.n_installed + 1
            &&& owner is Some && owner->0.len() > 0 ==> w.owners == v.owners.insert((id, owner->0))
            &&& owner is None || owner->0.len() == 0 ==> w.owners == v.owners
        }),
{
    let w = installed(v, kind, unit, owner);
    assert(w.events.drop_last() =~= v.events);
}

/// A live job that finishes is announced with its result and is no longer
/// live; a failure counts where the result is failed, invalid, frozen or
/// concurrency. Nothing happens where no such job is live.
pub proof fn law_finishing_announces_the_result(v: JobRegistryView, id: u32, result: JobResult)
    ensures
        ({
            let w = finished(v, id, result);
            let counts = result is Failed || result is Invalid || result is Frozen || result is Concurrency;
            &&& !v.live.dom().contains(id) ==> w == v
            &&& v.live.dom().contains(id) ==> {
                &&& w.live == v.live.remove(id)
                &&& w.events == v.events.push(JobEventView::Removed { job: v.live[id], result })
                &&& w.next_id == v.next_id
                &&& !counts ==> w.n_failed == v.n_failed
                &&& counts && v.n_failed < u32::MAX ==> w.n_failed == v.n_failed + 1
                &&& counts && v.n_failed == u32::MAX ==> w.n_failed == u32::MAX
                &&& forall|e: (u32, u32)| #[trigger] w.edges.contains(e) <==> v.edges.contains(e) && e.0 != id && e.1 != id
                &&& forall|o: (u32, Seq<char>)| #[trigger] w.owners.contains(o) <==> v.owners.contains(o) && o.0 != id
            }
        }),
{
}

/// A live job that waits runs from then on, and that is announced, once;
/// nothing else of the registry changes.
pub proof fn law_running_is_announced_once(v: JobRegistryView, id: u32)
    ensures
        ({
            let w = marked_running(v, id);
            &&& v.live.dom().contains(id) ==> w.live.dom().contains(id) && w.live[id] == (JobInfoView {
                state: JobState::Running,
                ..v.live[id]
            })
            &&& v.live.dom().contains(id) && v.live[id].state is Waiting ==> w.events == v.events.push(
                JobEventView::StateChanged(w.live[id]),
            )
            &&& !v.live.dom().contains(id) || v.live[id].state is Running ==> w == v
            &&& w == (JobRegistryView { live: w.live, events: w.events, ..v })
            &&& w.live.remove(id) == v.live.remove(id)
            &&& marked_running(w, id) == w
        }),
{
    assert(marked_running(v, id).live.remove(id) =~= v.live.remove(id));
}

/// Which of two live jobs waits. A job waits for another whose unit its own
/// comes after, unless it stops or restarts its unit; and it waits for a stop
/// or restart of a unit that comes after its own. It never waits for itself.
pub proof fn law_which_job_waits(live: Map<u32, JobInfoView>, afters: Map<Seq<char>, Vec<String>>, first: u32, second: u32)
    ensures
        ({
            let a = live[first];
            let b = live[second];
            let b_after_a = afters.dom().contains(b.unit) && text::views(afters[b.unit]@).contains(a.unit);
            let a_after_b = afters.dom().contains(a.unit) && text::views(afters[a.unit]@).contains(b.unit);
            orders(live, afters, first, second) <==> {
                &&& live.dom().contains(first)
                &&& live.dom().contains(second)
                &&& first != second
                &&& (b_after_a && !(b.kind is Stop || b.kind is Restart)) || (a_after_b && (a.kind is Stop || a.kind is Restart))
            }
        }),
{
}

/// A job may run exactly when no live job is to finish before it and, where it
/// starts its unit, no unit that this one comes after is on its way up or down.
pub proof fn law_when_a_job_may_run(v: JobRegistryView, states: Map<Seq<char>, UnitState>, afters: Map<Seq<char>, Vec<String>>, job: JobView)
    ensures
        ready(v, states, afters, job) <==> {
            &&& job.id == 0 || forall|other: u32| v.live.dom().contains(other) ==> !#[trigger] v.edges.contains((other, job.id))
            &&& job.kind is Start && afters.dom().contains(job.unit) ==> forall|dep: Seq<char>| #[trigger]
                text::views(afters[job.unit]@).contains(dep) && states.dom().contains(dep) ==> !(states[dep] is Activating)
                    && !(states[dep] is Deactivating)
        },
{
    let before = live_before(v, job.id).dom();
    if forall|other: u32| v.live.dom().contains(other) ==> !#[trigger] v.edges.contains((other, job.id)) {
        assert(before =~= Set::<u32>::empty());
    }
    if before == Set::<u32>::empty() {
        assert forall|other: u32| v.live.dom().contains(other) implies !#[trigger] v.edges.contains((other, job.id)) by {
            assert(!before.contains(other));
        }
    }
    if job.kind is Start && afters.dom().contains(job.unit) && start_ready(job, states, afters) {
        assert forall|dep: Seq<char>| #[trigger] text::views(afters[job.unit]@).contains(dep) && states.dom().contains(dep) implies !(states[dep] is Activating)
            && !(states[dep] is Deactivating) by {
            assert(ordered_after(afters, job.unit, dep));
        }
    }
}

/// Of the jobs in a queue those count that are internal or still live, in the
/// order in which they came, each as often as it stands there.
pub proof fn law_which_queued_jobs_count(v: JobRegistryView, pending: Seq<JobView>, last: JobView)
    ensures
        still_current(v, Seq::empty()) == Seq::<JobView>::empty(),
        last.id == 0 || v.live.dom().contains(last.id) ==> still_current(v, pending.push(last)) == still_current(v, pending).push(last),
        last.id != 0 && !v.live.dom().contains(last.id) ==> still_current(v, pending.push(last)) == still_current(v, pending),
{
    let counts = |job: JobView| current(v, job);
    pending.lemma_filter_push(last, counts);
    reveal(Seq::filter);
}

/// The jobs that may run are handed out and the others kept, each in the order
/// in which they came.
pub proof fn law_ready_jobs_are_handed_out_in_order(v: JobRegistryView, states: Map<Seq<char>, UnitState>, afters: Map<Seq<char>, Vec<String>>, pending: Seq<JobView>, last: JobView)
    ensures
        ready_jobs(v, states, afters, Seq::empty()) == Seq::<JobView>::empty(),
        held_jobs(v, states, afters, Seq::empty()) == Seq::<JobView>::empty(),
        ready(v, states, afters, last) ==> ready_jobs(v, states, afters, pending.push(last)) == ready_jobs(v, states, afters, pending).push(last)
            && held_jobs(v, states, afters, pending.push(last)) == held_jobs(v, states, afters, pending),
        !ready(v, states, afters, last) ==> held_jobs(v, states, afters, pending.push(last)) == held_jobs(v, states, afters, pending).push(last)
            && ready_jobs(v, states, afters, pending.push(last)) == ready_jobs(v, states, afters, pending),
{
    pending.lemma_filter_push(last, |job: JobView| ready(v, states, afters, job));
    pending.lemma_filter_push(last, |job: JobView| !ready(v, states, afters, job));
    reveal(Seq::filter);
}

/// The jobs before and after a job are the live ones that the order pairs it
/// with.
pub proof fn law_neighbours_are_by_the_order(v: JobRegistryView, id: u32, other: u32)
    ensures
        live_before(v, id).dom().contains(other) <==> v.live.dom().contains(other) && v.edges.contains((other, id)),
        live_after(v, id).dom().contains(other) <==> v.live.dom().contains(other) && v.edges.contains((id, other)),
        live_before(v, id).dom().contains(other) ==> live_before(v, id)[other] == v.live[other],
        live_after(v, id).dom().contains(other) ==> live_after(v, id)[other] == v.live[other],
{
}

/// The words for jobs: their kinds, an isolate job being a start; their
/// states; and their results.
pub proof fn law_words_for_jobs(kind: JobKind, state: JobState, result: JobResult)
    ensures
        kind.name() == "nop"@ <==> kind is Nop,
        kind.name() == "start"@ <==> kind is Start || kind is Isolate,
        kind.name() == "stop"@ <==> kind is Stop,
        kind.name() == "reload"@ <==> kind is Reload,
        kind.name() == "restart"@ <==> kind is Restart,
        state.name() == "waiting"@ <==> state is Waiting,
        state.name() == "running"@ <==> state is Running,
        result is Done ==> result.name() == "done"@,
        result is Canceled ==> result.name() == "canceled"@,
        result is Timeout ==> result.name() == "timeout"@,
        result is Failed ==> result.name() == "failed"@,
        result is Dependency ==> result.name() == "dependency"@,
        result is Skipped ==> result.name() == "skipped"@,
        result is Invalid ==> result.name() == "invalid"@,
        result is Frozen ==> result.name() == "frozen"@,
        result is Concurrency ==> result.name() == "concurrency"@,
{
    reveal_strlit("nop");
    reveal_strlit("start");
    reveal_strlit("stop");
    reveal_strlit("reload");
    reveal_strlit("restart");
    reveal_strlit("waiting");
    reveal_strlit("running");
    assert("nop"@.len() == 3 && "start"@.len() == 5 && "stop"@.len() == 4 && "reload"@.len() == 6 && "restart"@.len() == 7);
    assert("waiting"@[0] == 'w' && "running"@[0] == 'r');
}

/// The job that runs next is one that may run, with none before it that may.
pub proof fn law_the_first_job_that_may_run_is_next(v: JobRegistryView, states: Map<Seq<char>, UnitState>, afters: Map<Seq<char>, Vec<String>>, jobs: Seq<JobView>, k: int, i: int)
    ensures
        is_first_ready(v, states, afters, jobs, k) ==> 0 <= k < jobs.len() && ready(v, states, afters, jobs[k]),
        is_first_ready(v, states, afters, jobs, k) && 0 <= i < k ==> !ready(v, states, afters, jobs[i]),
        is_first_ready(v, states, afters, jobs, k) && is_first_ready(v, states, afters, jobs, i) ==> i == k,
        0 <= i < jobs.len() && ready(v, states, afters, jobs[i]) ==> exists|n: int| 0 <= n <= i && #[trigger] is_first_ready(v, states, afters, jobs, n),
    decreases i,
{
    if 0 <= i < jobs.len() && ready(v, states, afters, jobs[i]) {
        if exists|m: int| 0 <= m < i && ready(v, states, afters, #[trigger] jobs[m]) {
            let m = choose|m: int| 0 <= m < i && ready(v, states, afters, #[trigger] jobs[m]);
            law_the_first_job_that_may_run_is_next(v, states, afters, jobs, k, m);
        } else {
            assert(is_first_ready(v, states, afters, jobs, i));
        }
    }
}

/// Jobs that are canceled together are announced one by one, in their order.
pub proof fn law_canceled_jobs_are_announced(jobs: Seq<JobInfoView>, i: int)
    requires
        0 <= i < jobs.len(),
    ensures
        canceled_events(jobs).len() == jobs.len(),
        canceled_events(jobs)[i] matches JobEventView::Removed { job, result } && job == jobs[i] && result is Canceled,
{
}

/// A queued job counts where it has no number or its number is in use.
pub proof fn law_when_a_queued_job_counts(v: JobRegistryView, job: JobView)
    ensures
        current(v, job) <==> job.id == 0 || v.live.dom().contains(job.id),
{
}

/// A registry begins without jobs, counting from one, with nothing counted and
/// nothing to announce.
pub proof fn law_what_a_registry_begins_with(id: u32)
    ensures
        ({
            let v = JobRegistryView::initial();
            &&& v.next_id == 1 && v.n_installed == 0 && v.n_failed == 0
            &&& !v.live.dom().contains(id)
            &&& v.owners == Set::<(u32, Seq<char>)>::empty()
            &&& v.edges == Set::<(u32, u32)>::empty()
            &&& v.events.len() == 0
        }),
{
}

} // verus!
