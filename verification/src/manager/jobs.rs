//! Running jobs: which may run next, and how each ends.

use std::collections::HashMap;

use vstd::prelude::*;

use crate::job::{
    current, finished, is_first_ready, is_listing, job_infos, marked_running, ordered_after, orders, ready, still_current, Job,
    JobEventView, JobInfo, JobInfoView, JobKind, JobRegistry, JobRegistryView, JobResult, JobState, JobView,
};
use crate::manager::records::has_failed;
use crate::manager::{unit_views, Manager};
use crate::names::NameMap;
use crate::service::{RecordView, UnitRecord};
use crate::text;
use crate::unit::UnitState;

verus! {

/// How a job ends whose unit is `state` once it was carried out, where that is
/// decided at once.
pub open spec fn immediate_outcome(kind: JobKind, state: Option<UnitState>) -> Option<JobResult> {
    match (kind, state) {
        (JobKind::Nop, _) => Some(JobResult::Done),
        (_, None) => None,
        (JobKind::Start | JobKind::Restart, Some(state)) => match state {
            UnitState::Active | UnitState::Inactive => Some(JobResult::Done),
            UnitState::Failed | UnitState::Maintenance => Some(JobResult::Failed),
            UnitState::Activating | UnitState::Deactivating => None,
        },
        (JobKind::Stop, Some(state)) => match state {
            UnitState::Inactive => Some(JobResult::Done),
            UnitState::Failed | UnitState::Maintenance => Some(JobResult::Failed),
            _ => None,
        },
        (JobKind::Isolate, Some(state)) => if has_failed(state) {
            Some(JobResult::Failed)
        } else {
            None
        },
        (JobKind::Reload, Some(_)) => Some(JobResult::Done),
    }
}

/// The state of a unit, if it is loaded.
pub open spec fn state_of(units: Map<Seq<char>, RecordView>, name: Seq<char>) -> Option<UnitState> {
    if units.dom().contains(name) {
        Some(units[name].state)
    } else {
        None
    }
}

/// The state of a unit, a missing one having failed.
pub open spec fn state_or_failed(units: Map<Seq<char>, RecordView>, name: Seq<char>) -> UnitState {
    match state_of(units, name) {
        Some(state) => state,
        None => UnitState::Failed,
    }
}

/// How a running job ends whose unit has come to rest. A start that left its
/// unit down has failed; an isolate job is judged by all units together.
pub open spec fn settled_outcome(kind: JobKind, state: UnitState) -> Option<JobResult> {
    match kind {
        JobKind::Nop | JobKind::Reload => Some(JobResult::Done),
        JobKind::Start => match state {
            UnitState::Active => Some(JobResult::Done),
            UnitState::Inactive | UnitState::Failed | UnitState::Maintenance => Some(JobResult::Failed),
            UnitState::Activating | UnitState::Deactivating => None,
        },
        JobKind::Stop => match state {
            UnitState::Inactive => Some(JobResult::Done),
            UnitState::Failed | UnitState::Maintenance => Some(JobResult::Failed),
            _ => None,
        },
        JobKind::Restart => match state {
            UnitState::Active | UnitState::Inactive => Some(JobResult::Done),
            UnitState::Failed | UnitState::Maintenance => Some(JobResult::Failed),
            UnitState::Activating | UnitState::Deactivating => None,
        },
        JobKind::Isolate => None,
    }
}

/// Whether a unit is up or on its way.
pub open spec fn is_running(state: UnitState) -> bool {
    state == UnitState::Active || state == UnitState::Activating || state == UnitState::Deactivating
}

/// Whether another unit that an isolate job keeps has failed.
pub open spec fn kept_failed(units: Map<Seq<char>, RecordView>, keep: Seq<Seq<char>>, target: Seq<char>) -> bool {
    exists|name: Seq<char>| #[trigger] keep.contains(name) && name != target && units.dom().contains(name) && has_failed(
        units[name].state,
    )
}

/// Whether a unit that an isolate job does not keep is still running.
pub open spec fn unwanted_running(units: Map<Seq<char>, RecordView>, keep: Seq<Seq<char>>) -> bool {
    exists|name: Seq<char>| #[trigger] units.dom().contains(name) && !keep.contains(name) && is_running(units[name].state)
}

/// How an isolate job ends that keeps `keep`: it fails with its target, fails
/// with another unit it keeps, and is done once the target is up and nothing
/// else is running.
pub open spec fn isolate_outcome(units: Map<Seq<char>, RecordView>, keep: Option<Seq<Seq<char>>>, target: Seq<char>) -> Option<
    JobResult,
> {
    match keep {
        None => None,
        Some(keep) => if has_failed(state_or_failed(units, target)) {
            Some(JobResult::Failed)
        } else if kept_failed(units, keep, target) {
            Some(JobResult::Dependency)
        } else if state_or_failed(units, target) == UnitState::Active && !unwanted_running(units, keep) {
            Some(JobResult::Done)
        } else {
            None
        },
    }
}

/// What the isolate job `id` keeps, if it is one that runs.
pub open spec fn kept_by(isolate_jobs: Map<u32, Vec<String>>, id: u32) -> Option<Seq<Seq<char>>> {
    if isolate_jobs.dom().contains(id) {
        Some(text::views(isolate_jobs[id]@))
    } else {
        None
    }
}

/// How a live job ends, if it runs and its unit has come to rest.
pub open spec fn job_outcome(units: Map<Seq<char>, RecordView>, isolate_jobs: Map<u32, Vec<String>>, job: JobInfoView) -> Option<
    JobResult,
> {
    if job.state != JobState::Running {
        None
    } else if job.kind == JobKind::Isolate {
        isolate_outcome(units, kept_by(isolate_jobs, job.id), job.unit)
    } else {
        settled_outcome(job.kind, state_or_failed(units, job.unit))
    }
}

/// A registry after those of `jobs` finished, in order, that end.
pub open spec fn finished_all(
    v: JobRegistryView,
    units: Map<Seq<char>, RecordView>,
    isolate_jobs: Map<u32, Vec<String>>,
    jobs: Seq<JobInfoView>,
) -> JobRegistryView
    decreases jobs.len(),
{
    if jobs.len() == 0 {
        v
    } else {
        let before = finished_all(v, units, isolate_jobs, jobs.drop_last());
        match job_outcome(units, isolate_jobs, jobs.last()) {
            Some(result) => finished(before, jobs.last().id, result),
            None => before,
        }
    }
}

/// The state of a unit, if it is loaded.
pub fn unit_state(units: &NameMap<UnitRecord>, name: &str) -> (r: Option<UnitState>)
    requires
        units.wf(),
    ensures
        r == state_of(unit_views(*units), name@),
{
    match units.get(name) {
        Some(record) => Some(record.state),
        None => None,
    }
}

/// How a job ends that was just carried out, where that is decided at once.
pub fn immediate_job_result(units: &NameMap<UnitRecord>, job: &Job) -> (r: Option<JobResult>)
    requires
        units.wf(),
    ensures
        r == immediate_outcome(job.kind, state_of(unit_views(*units), job.unit_name@)),
        r is None || r == Some(JobResult::Done) || r == Some(JobResult::Failed),
        job.kind is Nop ==> r == Some(JobResult::Done),
        !(job.kind is Nop) && !units@.dom().contains(job.unit_name@) ==> r is None,
        units@.dom().contains(job.unit_name@) ==> {
            let state = units@[job.unit_name@].state;
            &&& job.kind is Reload ==> r == Some(JobResult::Done)
            &&& job.kind is Start || job.kind is Restart || job.kind is Stop || job.kind is Isolate ==> (r == Some(
                JobResult::Failed,
            ) <==> state is Failed || state is Maintenance)
            &&& job.kind is Start || job.kind is Restart ==> (r == Some(JobResult::Done) <==> state is Active
                || state is Inactive)
            &&& job.kind is Stop ==> (r == Some(JobResult::Done) <==> state is Inactive)
            &&& job.kind is Isolate ==> r != Some(JobResult::Done)
        },
{
    if job.kind == JobKind::Nop {
        return Some(JobResult::Done);
    }
    let state = match unit_state(units, job.unit_name.as_str()) {
        Some(state) => state,
        None => return None,
    };
    match job.kind {
        JobKind::Nop | JobKind::Reload => Some(JobResult::Done),
        JobKind::Start | JobKind::Restart => match state {
            UnitState::Active | UnitState::Inactive => Some(JobResult::Done),
            UnitState::Failed | UnitState::Maintenance => Some(JobResult::Failed),
            UnitState::Activating | UnitState::Deactivating => None,
        },
        JobKind::Stop => match state {
            UnitState::Inactive => Some(JobResult::Done),
            UnitState::Failed | UnitState::Maintenance => Some(JobResult::Failed),
            UnitState::Active | UnitState::Activating | UnitState::Deactivating => None,
        },
        JobKind::Isolate => match state {
            UnitState::Failed | UnitState::Maintenance => Some(JobResult::Failed),
            _ => None,
        },
    }
}

/// How a running job ends whose unit has come to rest.
pub fn settled_job_result(units: &NameMap<UnitRecord>, job: &JobInfo) -> (r: Option<JobResult>)
    requires
        units.wf(),
    ensures
        r == settled_outcome(job.kind, state_or_failed(unit_views(*units), job.unit_name@)),
        r is None || r == Some(JobResult::Done) || r == Some(JobResult::Failed),
        job.kind is Nop || job.kind is Reload ==> r == Some(JobResult::Done),
        job.kind is Isolate ==> r is None,
        job.kind is Start || job.kind is Stop || job.kind is Restart ==> if units@.dom().contains(job.unit_name@) {
            let state = units@[job.unit_name@].state;
            &&& r is None <==> state is Activating || state is Deactivating || (job.kind is Stop && state is Active)
            &&& r == Some(JobResult::Failed) <==> state is Failed || state is Maintenance || (job.kind is Start
                && state is Inactive)
        } else {
            r == Some(JobResult::Failed)
        },
{
    let state = match unit_state(units, job.unit_name.as_str()) {
        Some(state) => state,
        None => UnitState::Failed,
    };
    match job.kind {
        JobKind::Nop | JobKind::Reload => Some(JobResult::Done),
        JobKind::Start => match state {
            UnitState::Active => Some(JobResult::Done),
            UnitState::Inactive | UnitState::Failed | UnitState::Maintenance => Some(JobResult::Failed),
            UnitState::Activating | UnitState::Deactivating => None,
        },
        JobKind::Stop => match state {
            UnitState::Inactive => Some(JobResult::Done),
            UnitState::Failed | UnitState::Maintenance => Some(JobResult::Failed),
            UnitState::Active | UnitState::Activating | UnitState::Deactivating => None,
        },
        JobKind::Restart => match state {
            UnitState::Active | UnitState::Inactive => Some(JobResult::Done),
            UnitState::Failed | UnitState::Maintenance => Some(JobResult::Failed),
            UnitState::Activating | UnitState::Deactivating => None,
        },
        JobKind::Isolate => None,
    }
}

fn any_kept_failed(units: &NameMap<UnitRecord>, keep: &Vec<String>, target: &str) -> (r: bool)
    requires
        units.wf(),
    ensures
        r == kept_failed(unit_views(*units), text::views(keep@), target@),
{
    let ghost all = text::views(keep@);
    let ghost views = unit_views(*units);
    let mut i: usize = 0;
    while i < keep.len()
        invariant
            i <= keep@.len(),
            units.wf(),
            all == text::views(keep@),
            views == unit_views(*units),
            forall|k: int|
                0 <= k < i && #[trigger] all[k] != target@ && views.dom().contains(all[k]) ==> !has_failed(
                    views[all[k]].state,
                ),
        decreases keep@.len() - i,
    {
        assert(all[i as int] == keep@[i as int]@);
        if !text::same(keep[i].as_str(), target) {
            if let Some(state) = unit_state(units, keep[i].as_str()) {
                if state == UnitState::Failed || state == UnitState::Maintenance {
                    assert(all.contains(all[i as int]));
                    return true;
                }
            }
        }
        i += 1;
    }
    proof {
        assert forall|name: Seq<char>| #[trigger] all.contains(name) && name != target@ && views.dom().contains(name) implies !has_failed(
            views[name].state,
        ) by {
            let k = choose|k: int| 0 <= k < all.len() && all[k] == name;
            assert(all[k] == name);
        }
    }
    false
}

fn any_unwanted_running(units: &NameMap<UnitRecord>, keep: &Vec<String>) -> (r: bool)
    requires
        units.wf(),
    ensures
        r == unwanted_running(unit_views(*units), text::views(keep@)),
{
    let ghost all = text::views(keep@);
    let ghost views = unit_views(*units);
    let ghost keys = units.keys();
    let mut i: usize = 0;
    while i < units.len()
        invariant
            i <= keys.len(),
            units.wf(),
            keys == units.keys(),
            all == text::views(keep@),
            views == unit_views(*units),
            forall|k: int| 0 <= k < i && !all.contains(#[trigger] keys[k]) ==> !is_running(views[keys[k]].state),
        decreases keys.len() - i,
    {
        let name = units.key_at(i);
        let state = units.value_at(i).state;
        if !text::contains_name(keep, name.as_str()) {
            if state == UnitState::Active || state == UnitState::Activating || state == UnitState::Deactivating {
                assert(views.dom().contains(keys[i as int]));
                return true;
            }
        }
        i += 1;
    }
    proof {
        units.lemma_keys();
        assert forall|name: Seq<char>| #[trigger] views.dom().contains(name) && !all.contains(name) implies !is_running(
            views[name].state,
        ) by {
            assert(keys.contains(name));
            let k = choose|k: int| 0 <= k < keys.len() && keys[k] == name;
            assert(keys[k] == name);
        }
    }
    false
}

/// How an isolate job ends that keeps `keep`.
pub fn isolate_job_result(units: &NameMap<UnitRecord>, keep: Option<&Vec<String>>, job: &JobInfo) -> (r: Option<JobResult>)
    requires
        units.wf(),
    ensures
        r == isolate_outcome(
            unit_views(*units),
            match keep {
                Some(keep) => Some(text::views(keep@)),
                None => None,
            },
            job.unit_name@,
        ),
{
    let keep = match keep {
        Some(keep) => keep,
        None => return None,
    };
    let state = match unit_state(units, job.unit_name.as_str()) {
        Some(state) => state,
        None => UnitState::Failed,
    };
    if state == UnitState::Failed || state == UnitState::Maintenance {
        return Some(JobResult::Failed);
    }
    if any_kept_failed(units, keep, job.unit_name.as_str()) {
        return Some(JobResult::Dependency);
    }
    if state == UnitState::Active && !any_unwanted_running(units, keep) {
        Some(JobResult::Done)
    } else {
        None
    }
}

/// Keep only what is kept for jobs that are live.
fn drop_finished(isolate_jobs: &mut HashMap<u32, Vec<String>>, registry: &JobRegistry)
    requires
        registry.wf(),
    ensures
        final(isolate_jobs)@ == old(isolate_jobs)@.restrict(registry@.live.dom()),
{
    broadcast use vstd::std_specs::hash::group_hash_axioms;

    let live = registry.list();
    let ghost before = isolate_jobs@;
    let ghost jobs = job_infos(live@);
    let mut rest: HashMap<u32, Vec<String>> = HashMap::new();
    std::mem::swap(&mut rest, isolate_jobs);
    let mut i: usize = 0;
    while i < live.len()
        invariant
            i <= live@.len(),
            jobs == job_infos(live@),
            is_listing(jobs, registry@.live),
            forall|id: u32|
                #[trigger] isolate_jobs@.dom().contains(id) <==> before.dom().contains(id) && exists|k: int|
                    0 <= k < i && (#[trigger] jobs[k]).id == id,
            forall|id: u32| #[trigger] isolate_jobs@.dom().contains(id) ==> isolate_jobs@[id] == before[id],
            forall|id: u32|
                #[trigger] rest@.dom().contains(id) <==> before.dom().contains(id) && !exists|k: int|
                    0 <= k < i && (#[trigger] jobs[k]).id == id,
            forall|id: u32| #[trigger] rest@.dom().contains(id) ==> rest@[id] == before[id],
        decreases live@.len() - i,
    {
        broadcast use vstd::std_specs::hash::group_hash_axioms;

        let id = live[i].id;
        let ghost kept = isolate_jobs@;
        let ghost left = rest@;
        assert(jobs[i as int].id == id);
        if let Some(keep) = rest.remove(&id) {
            isolate_jobs.insert(id, keep);
        }
        proof {
            assert forall|k: u32| #[trigger] isolate_jobs@.dom().contains(k) <==> before.dom().contains(k) && exists|j: int|
                0 <= j < i + 1 && (#[trigger] jobs[j]).id == k by {
                assert(kept.dom().contains(k) || true);
                assert(left.dom().contains(k) || true);
                if k == id {
                    assert(jobs[i as int].id == k);
                }
            }
            assert forall|k: u32| #[trigger] rest@.dom().contains(k) <==> before.dom().contains(k) && !exists|j: int|
                0 <= j < i + 1 && (#[trigger] jobs[j]).id == k by {
                assert(left.dom().contains(k) || true);
                if k == id {
                    assert(jobs[i as int].id == k);
                }
            }
            assert(left.dom().contains(id) || true);
        }
        i += 1;
    }
    assert(isolate_jobs@ =~= before.restrict(registry@.live.dom()));
}

/// A unit comes after another where one of the two says so.
pub open spec fn must_follow(units: Map<Seq<char>, RecordView>, unit: Seq<char>, dependency: Seq<char>) -> bool {
    ||| units.dom().contains(unit) && text::views(units[unit].loaded.section().after@).contains(dependency)
    ||| units.dom().contains(dependency) && text::views(units[dependency].loaded.section().before@).contains(unit)
}

/// Add that `unit` comes after `dependency`.
fn add_order(afters: &mut NameMap<Vec<String>>, unit: &str, dependency: &str)
    requires
        old(afters).wf(),
    ensures
        final(afters).wf(),
        forall|u: Seq<char>, d: Seq<char>|
            #[trigger] ordered_after(final(afters)@, u, d) <==> ordered_after(old(afters)@, u, d) || (u == unit@ && d
                == dependency@),
{
    let ghost before = afters@;
    if let Some(known) = afters.get(unit) {
        if text::contains_name(known, dependency) {
            return;
        }
        let mut names = known.clone();
        let ghost was = known@;
        assert(names@ =~= was);
        names.push(dependency.to_owned());
        let ghost views = text::views(names@);
        proof {
            assert(views =~= text::views(was).push(dependency@));
        }
        afters.insert(unit.to_owned(), names);
        proof {
            assert forall|u: Seq<char>, d: Seq<char>| #[trigger] ordered_after(afters@, u, d) <==> ordered_after(before, u, d) || (u
                == unit@ && d == dependency@) by {
                if u == unit@ {
                    lemma_pushed(text::views(was), dependency@, d);
                }
            }
        }
        return;
    }
    let mut names: Vec<String> = Vec::new();
    names.push(dependency.to_owned());
    let ghost views = text::views(names@);
    proof {
        assert(views =~= seq![dependency@]);
    }
    afters.insert(unit.to_owned(), names);
    proof {
        assert forall|u: Seq<char>, d: Seq<char>| #[trigger] ordered_after(afters@, u, d) <==> ordered_after(before, u, d) || (u
            == unit@ && d == dependency@) by {
            if u == unit@ {
                assert(views[0] == dependency@);
            }
        }
    }
}

proof fn lemma_pushed(s: Seq<Seq<char>>, last: Seq<char>, d: Seq<char>)
    ensures
        s.push(last).contains(d) <==> s.contains(d) || d == last,
{
    if s.contains(d) {
        let k = choose|k: int| 0 <= k < s.len() && s[k] == d;
        assert(s.push(last)[k] == d);
    }
    if s.push(last).contains(d) {
        let k = choose|k: int| 0 <= k < s.push(last).len() && s.push(last)[k] == d;
        if k < s.len() {
            assert(s[k] == d);
        }
    }
    assert(s.push(last)[s.len() as int] == last);
}

/// Whether `name` is among the first `n` of `names`.
spec fn among(names: Seq<Seq<char>>, n: int, name: Seq<char>) -> bool {
    exists|k: int| 0 <= k < n && #[trigger] names[k] == name
}

proof fn lemma_among_step(names: Seq<Seq<char>>, n: int)
    requires
        0 <= n < names.len(),
    ensures
        forall|name: Seq<char>| #[trigger] among(names, n + 1, name) <==> among(names, n, name) || name == names[n],
{
    assert forall|name: Seq<char>| #[trigger] among(names, n + 1, name) <==> among(names, n, name) || name == names[n] by {
        if among(names, n, name) {
            let k = choose|k: int| 0 <= k < n && #[trigger] names[k] == name;
            assert(names[k] == name);
        }
        if among(names, n + 1, name) {
            let k = choose|k: int| 0 <= k < n + 1 && #[trigger] names[k] == name;
            if k < n {
                assert(names[k] == name);
            }
        }
        assert(names[n] == names[n]);
    }
}

proof fn lemma_among_all(names: Seq<Seq<char>>)
    ensures
        forall|name: Seq<char>| #[trigger] among(names, names.len() as int, name) <==> names.contains(name),
{
    assert forall|name: Seq<char>| #[trigger] among(names, names.len() as int, name) <==> names.contains(name) by {
        if names.contains(name) {
            let k = choose|k: int| 0 <= k < names.len() && names[k] == name;
            assert(names[k] == name);
        }
    }
}

/// Add what one unit says of its place.
fn add_orders_of(afters: &mut NameMap<Vec<String>>, name: &str, record: &UnitRecord)
    requires
        old(afters).wf(),
    ensures
        final(afters).wf(),
        forall|u: Seq<char>, d: Seq<char>|
            #[trigger] ordered_after(final(afters)@, u, d) <==> ordered_after(old(afters)@, u, d) || (u == name@
                && text::views(record.loaded.section().after@).contains(d)) || (d == name@ && text::views(
                record.loaded.section().before@,
            ).contains(u)),
{
    let section = record.loaded.unit_section();
    let ghost first = text::views(section.after@);
    let ghost second = text::views(section.before@);
    let ghost start = afters@;
    let mut i: usize = 0;
    while i < section.after.len()
        invariant
            i <= section.after@.len(),
            first == text::views(section.after@),
            afters.wf(),
            forall|u: Seq<char>, d: Seq<char>|
                #[trigger] ordered_after(afters@, u, d) <==> ordered_after(start, u, d) || (u == name@ && among(
                    first,
                    i as int,
                    d,
                )),
        decreases section.after@.len() - i,
    {
        assert(first[i as int] == section.after@[i as int]@);
        add_order(afters, name, section.after[i].as_str());
        proof {
            lemma_among_step(first, i as int);
        }
        i += 1;
    }
    proof {
        lemma_among_all(first);
    }
    let ghost middle = afters@;
    let mut i: usize = 0;
    while i < section.before.len()
        invariant
            i <= section.before@.len(),
            second == text::views(section.before@),
            afters.wf(),
            forall|u: Seq<char>, d: Seq<char>|
                #[trigger] ordered_after(afters@, u, d) <==> ordered_after(middle, u, d) || (d == name@ && among(
                    second,
                    i as int,
                    u,
                )),
        decreases section.before@.len() - i,
    {
        assert(second[i as int] == section.before@[i as int]@);
        add_order(afters, section.before[i].as_str(), name);
        proof {
            lemma_among_step(second, i as int);
        }
        i += 1;
    }
    proof {
        lemma_among_all(second);
    }
}

/// Which units come after which, by what all of them say.
pub fn ordering(units: &NameMap<UnitRecord>) -> (r: NameMap<Vec<String>>)
    requires
        units.wf(),
    ensures
        r.wf(),
        forall|u: Seq<char>, d: Seq<char>| #[trigger] ordered_after(r@, u, d) <==> must_follow(unit_views(*units), u, d),
{
    let ghost views = unit_views(*units);
    let ghost keys = units.keys();
    let mut afters: NameMap<Vec<String>> = NameMap::new();
    let mut i: usize = 0;
    while i < units.len()
        invariant
            i <= keys.len(),
            units.wf(),
            keys == units.keys(),
            views == unit_views(*units),
            afters.wf(),
            forall|u: Seq<char>, d: Seq<char>|
                #[trigger] ordered_after(afters@, u, d) <==> (among(keys, i as int, u) && text::views(
                    views[u].loaded.section().after@,
                ).contains(d)) || (among(keys, i as int, d) && text::views(views[d].loaded.section().before@).contains(u)),
        decreases keys.len() - i,
    {
        let name = units.key_at(i);
        let record = units.value_at(i);
        add_orders_of(&mut afters, name.as_str(), record);
        proof {
            lemma_among_step(keys, i as int);
            assert(views[keys[i as int]] == record@);
        }
        i += 1;
    }
    proof {
        lemma_among_all(keys);
        units.lemma_keys();
        assert forall|u: Seq<char>, d: Seq<char>| #[trigger] ordered_after(afters@, u, d) <==> must_follow(views, u, d) by {
            assert(views.dom().contains(u) <==> units@.dom().contains(u));
            assert(views.dom().contains(d) <==> units@.dom().contains(d));
            assert(among(keys, keys.len() as int, u) <==> keys.contains(u));
            assert(among(keys, keys.len() as int, d) <==> keys.contains(d));
        }
    }
    afters
}

/// The states of the units.
pub open spec fn states_of(units: Map<Seq<char>, RecordView>) -> Map<Seq<char>, UnitState> {
    units.map_values(|r: RecordView| r.state)
}

/// The states of the units.
pub fn states(units: &NameMap<UnitRecord>) -> (r: NameMap<UnitState>)
    requires
        units.wf(),
    ensures
        r.wf(),
        r@ == states_of(unit_views(*units)),
{
    let ghost views = unit_views(*units);
    let ghost keys = units.keys();
    let mut states: NameMap<UnitState> = NameMap::new();
    let mut i: usize = 0;
    while i < units.len()
        invariant
            i <= keys.len(),
            units.wf(),
            keys == units.keys(),
            views == unit_views(*units),
            states.wf(),
            forall|name: Seq<char>| #[trigger] states@.dom().contains(name) <==> among(keys, i as int, name),
            forall|name: Seq<char>| #[trigger] states@.dom().contains(name) ==> states@[name] == views[name].state,
        decreases keys.len() - i,
    {
        let name = units.key_at(i);
        let record = units.value_at(i);
        states.insert(name.clone(), record.state);
        proof {
            lemma_among_step(keys, i as int);
            assert(views[keys[i as int]] == record@);
        }
        i += 1;
    }
    proof {
        lemma_among_all(keys);
        units.lemma_keys();
        let want = states_of(views);
        assert forall|name: Seq<char>| states@.dom().contains(name) <==> want.dom().contains(name) by {
            assert(among(keys, keys.len() as int, name) <==> keys.contains(name));
            assert(units@.dom().contains(name) <==> keys.contains(name));
        }
        assert(states@ =~= want);
    }
    states
}

/// Whether `afters` says which units come after which.
pub open spec fn is_ordering(afters: Map<Seq<char>, Vec<String>>, units: Map<Seq<char>, RecordView>) -> bool {
    forall|u: Seq<char>, d: Seq<char>| #[trigger] ordered_after(afters, u, d) <==> must_follow(units, u, d)
}

/// A job by its view, if there is one.
pub open spec fn opt_job(job: Option<Job>) -> Option<JobView> {
    match job {
        Some(job) => Some(job@),
        None => None,
    }
}

/// Whether taking the next job out of `before` leaves `after`, the ordering
/// being brought up to date and the first job taken that may run.
pub open spec fn takes_next(before: Manager, after: Manager, afters: Map<Seq<char>, Vec<String>>, taken: Option<JobView>) -> bool {
    let jobs = still_current(after.job_registry@, before.job_queue@);
    let states = states_of(before.records());
    &&& forall|e: (u32, u32)|
        #[trigger] after.job_registry@.edges.contains(e) <==> orders(before.job_registry@.live, afters, e.0, e.1)
    &&& match taken {
        Some(job) => exists|k: int|
            #[trigger] is_first_ready(after.job_registry@, states, afters, jobs, k) && job == jobs[k]
                && after.job_queue@ == jobs.remove(k),
        None => {
            &&& forall|i: int| 0 <= i < jobs.len() ==> !ready(after.job_registry@, states, afters, #[trigger] jobs[i])
            &&& after.job_queue@ == jobs
        },
    }
}

/// What becomes of a job that was carried out: a failed one ends at once.
pub open spec fn run_outcome(units: Map<Seq<char>, RecordView>, job: JobView, succeeded: bool) -> Option<JobResult> {
    if succeeded {
        immediate_outcome(job.kind, state_of(units, job.unit))
    } else {
        Some(JobResult::Failed)
    }
}

impl Manager {
    /// Bring the ordering of the jobs up to date and take the first that may
    /// run. One at a time: what it does to its unit may hold back the next.
    pub fn next_job(&mut self) -> (r: Option<Job>)
        requires
            old(self).wf(),
        ensures
            final(self).wf(),
            *final(self) == (Manager {
                job_queue: final(self).job_queue,
                job_registry: final(self).job_registry,
                ..*old(self)
            }),
            final(self).job_registry@ == (JobRegistryView {
                edges: final(self).job_registry@.edges,
                ..old(self).job_registry@
            }),
            exists|afters: Map<Seq<char>, Vec<String>>| #[trigger]
                is_ordering(afters, old(self).records()) && takes_next(
                    *old(self),
                    *final(self),
                    afters,
                    opt_job(r),
                ),
    {
        let ghost before = *self;
        let afters = ordering(&self.units);
        self.job_queue.refresh_ordering(&mut self.job_registry, &afters);
        let states = states(&self.units);
        let r = self.job_queue.pop_ready(&self.job_registry, &states, &afters);
        proof {
            assert(is_ordering(afters@, before.records()));
            assert(takes_next(before, *self, afters@, opt_job(r)));
        }
        r
    }

    /// Begin to run a job. Whether it is to be run at all: an exported job
    /// that is no longer live is not.
    pub fn begin_job(&mut self, job: &Job) -> (r: bool)
        requires
            old(self).wf(),
        ensures
            final(self).wf(),
            *final(self) == (Manager { job_registry: final(self).job_registry, ..*old(self) }),
            r == current(old(self).job_registry@, job@),
            final(self).job_registry@ == marked_running(old(self).job_registry@, job.id),
    {
        if job.id == 0 {
            return true;
        }
        self.job_registry.mark_running(job.id)
    }

    /// Take what came of running a job. An exported job whose outcome is
    /// decided ends.
    pub fn end_job(&mut self, job: &Job, succeeded: bool)
        requires
            old(self).wf(),
        ensures
            final(self).wf(),
            *final(self) == (Manager {
                job_registry: final(self).job_registry,
                isolate_jobs: final(self).isolate_jobs,
                ..*old(self)
            }),
            match run_outcome(old(self).records(), job@, succeeded) {
                Some(result) if job.id != 0 => {
                    &&& final(self).job_registry@ == finished(old(self).job_registry@, job.id, result)
                    &&& final(self).isolate_jobs@ == old(self).isolate_jobs@.remove(job.id)
                },
                _ => *final(self) == *old(self),
            },
    {
        broadcast use vstd::std_specs::hash::group_hash_axioms;

        if job.id == 0 {
            return;
        }
        let outcome = if succeeded {
            immediate_job_result(&self.units, job)
        } else {
            Some(JobResult::Failed)
        };
        if let Some(result) = outcome {
            self.job_registry.finish(job.id, result);
            self.isolate_jobs.remove(&job.id);
        }
    }

    /// Finish the running jobs whose units have come to rest, in the order of
    /// their identifiers.
    pub fn complete_running_jobs(&mut self)
        requires
            old(self).wf(),
        ensures
            final(self).wf(),
            *final(self) == (Manager {
                job_registry: final(self).job_registry,
                isolate_jobs: final(self).isolate_jobs,
                ..*old(self)
            }),
            exists|jobs: Seq<JobInfoView>| #[trigger]
                is_listing(jobs, old(self).job_registry@.live) && final(self).job_registry@ == finished_all(
                    old(self).job_registry@,
                    old(self).records(),
                    old(self).isolate_jobs@,
                    jobs,
                ),
            final(self).isolate_jobs@ == old(self).isolate_jobs@.restrict(final(self).job_registry@.live.dom()),
    {
        broadcast use vstd::std_specs::hash::group_hash_axioms;

        let ghost before = *self;
        let live = self.job_registry.list();
        let ghost jobs = job_infos(live@);
        let mut i: usize = 0;
        assert(jobs.take(0) =~= Seq::<JobInfoView>::empty());
        while i < live.len()
            invariant
                i <= live@.len(),
                jobs == job_infos(live@),
                self.wf(),
                *self == (Manager { job_registry: self.job_registry, ..before }),
                self.job_registry@ == finished_all(
                    before.job_registry@,
                    before.records(),
                    before.isolate_jobs@,
                    jobs.take(i as int),
                ),
            decreases live@.len() - i,
        {
            broadcast use vstd::std_specs::hash::group_hash_axioms;

            let job = &live[i];
            assert(jobs[i as int] == job@);
            if job.state == JobState::Running {
                let outcome = if job.kind == JobKind::Isolate {
                    isolate_job_result(&self.units, self.isolate_jobs.get(&job.id), job)
                } else {
                    settled_job_result(&self.units, job)
                };
                assert(outcome == job_outcome(before.records(), before.isolate_jobs@, job@));
                if let Some(result) = outcome {
                    self.job_registry.finish(job.id, result);
                }
            }
            assert(jobs.take(i + 1).drop_last() =~= jobs.take(i as int));
            i += 1;
        }
        assert(jobs.take(i as int) =~= jobs);
        drop_finished(&mut self.isolate_jobs, &self.job_registry);
    }

    /// Whether idle services may go ahead: no job is waiting anywhere.
    pub fn releases_idle_services(&self) -> (r: bool)
        requires
            self.wf(),
        ensures
            r == (still_current(self.job_registry@, self.job_queue@).len() == 0 && still_current(
                self.job_registry@,
                self.shared_queue@,
            ).len() == 0),
    {
        self.job_queue.is_empty(&self.job_registry) && self.shared_queue.is_empty(&self.job_registry)
    }
}

proof fn lemma_finished_prefix(
    v: JobRegistryView,
    units: Map<Seq<char>, RecordView>,
    isolate_jobs: Map<u32, Vec<String>>,
    jobs: Seq<JobInfoView>,
    id: u32,
)
    ensures
        finished_all(v, units, isolate_jobs, jobs).live.dom().contains(id) <==> v.live.dom().contains(id) && !exists|k: int|
            0 <= k < jobs.len() && (#[trigger] jobs[k]).id == id && job_outcome(units, isolate_jobs, jobs[k]) is Some,
    decreases jobs.len(),
{
    if jobs.len() > 0 {
        let rest = jobs.drop_last();
        lemma_finished_prefix(v, units, isolate_jobs, rest, id);
        let last = jobs.len() - 1;
        assert forall|k: int| 0 <= k < last implies rest[k] == #[trigger] jobs[k] by {}
        if exists|k: int|
            0 <= k < jobs.len() && (#[trigger] jobs[k]).id == id && job_outcome(units, isolate_jobs, jobs[k]) is Some {
            let k = choose|k: int|
                0 <= k < jobs.len() && (#[trigger] jobs[k]).id == id && job_outcome(units, isolate_jobs, jobs[k]) is Some;
            if k < last {
                assert(rest[k].id == id);
            }
        }
        if exists|k: int|
            0 <= k < rest.len() && (#[trigger] rest[k]).id == id && job_outcome(units, isolate_jobs, rest[k]) is Some {
            let k = choose|k: int|
                0 <= k < rest.len() && (#[trigger] rest[k]).id == id && job_outcome(units, isolate_jobs, rest[k]) is Some;
            assert(jobs[k].id == id);
        }
        assert(jobs[last] == jobs.last());
    }
}

/// Of the live jobs exactly those end whose outcome is decided: a job that
/// waits, and one whose unit is still on its way, stays live.
pub proof fn law_exactly_the_decided_jobs_end(
    v: JobRegistryView,
    units: Map<Seq<char>, RecordView>,
    isolate_jobs: Map<u32, Vec<String>>,
    jobs: Seq<JobInfoView>,
    id: u32,
)
    requires
        is_listing(jobs, v.live),
    ensures
        finished_all(v, units, isolate_jobs, jobs).live.dom().contains(id) <==> v.live.dom().contains(id) && job_outcome(
            units,
            isolate_jobs,
            v.live[id],
        ) is None,
{
    lemma_finished_prefix(v, units, isolate_jobs, jobs, id);
    if v.live.dom().contains(id) {
        let k = choose|k: int| 0 <= k < jobs.len() && (#[trigger] jobs[k]).id == id;
        assert(jobs[k].id == id && v.live[id] == jobs[k]);
    }
}

/// An isolate job that is done left its target up and nothing running that it
/// does not keep.
pub proof fn law_isolation_is_complete(units: Map<Seq<char>, RecordView>, keep: Seq<Seq<char>>, target: Seq<char>, other: Seq<char>)
    requires
        isolate_outcome(units, Some(keep), target) == Some(JobResult::Done),
        units.dom().contains(other),
        !keep.contains(other),
    ensures
        state_of(units, target) == Some(UnitState::Active),
        !is_running(units[other].state),
{
}

proof fn lemma_finished_events(
    v: JobRegistryView,
    units: Map<Seq<char>, RecordView>,
    isolate_jobs: Map<u32, Vec<String>>,
    jobs: Seq<JobInfoView>,
    n: int,
)
    requires
        is_listing(jobs, v.live),
        0 <= n <= jobs.len(),
    ensures
        ({
            let after = finished_all(v, units, isolate_jobs, jobs.take(n));
            &&& v.events.is_prefix_of(after.events)
            &&& forall|id: u32| #[trigger] after.live.dom().contains(id) ==> v.live.dom().contains(id) && after.live[id] == v.live[id]
            &&& forall|k: int| n <= k < jobs.len() ==> after.live.dom().contains((#[trigger] jobs[k]).id)
            &&& forall|job: JobInfoView, result: JobResult|
                #[trigger] newly_ended(v, after, job, result) <==> exists|k: int|
                    0 <= k < n && #[trigger] jobs[k] == job && job_outcome(units, isolate_jobs, job) == Some(result)
        }),
    decreases n,
{
    if n == 0 {
        assert(jobs.take(0) =~= Seq::empty());
        assert(v.events.skip(v.events.len() as int) =~= Seq::empty());
    } else {
        lemma_finished_events(v, units, isolate_jobs, jobs, n - 1);
        assert(jobs.take(n).drop_last() =~= jobs.take(n - 1));
        let before = finished_all(v, units, isolate_jobs, jobs.take(n - 1));
        let after = finished_all(v, units, isolate_jobs, jobs.take(n));
        let last = jobs[n - 1];
        assert(before.live.dom().contains(last.id));
        let old_new = before.events.skip(v.events.len() as int);
        let all_new = after.events.skip(v.events.len() as int);
        match job_outcome(units, isolate_jobs, last) {
            Some(result) => {
                let event = JobEventView::Removed { job: last, result };
                assert(after.events =~= before.events.push(event));
                assert(all_new =~= old_new.push(event));
                assert forall|job: JobInfoView, r: JobResult|
                    #[trigger] newly_ended(v, after, job, r) <==> exists|k: int|
                        0 <= k < n && #[trigger] jobs[k] == job && job_outcome(units, isolate_jobs, job) == Some(r) by {
                    let e = JobEventView::Removed { job, result: r };
                    assert(newly_ended(v, before, job, r) <==> exists|k: int|
                        0 <= k < n - 1 && #[trigger] jobs[k] == job && job_outcome(units, isolate_jobs, job) == Some(r));
                    if newly_ended(v, after, job, r) {
                        let i = choose|i: int| 0 <= i < all_new.len() && all_new[i] == e;
                        if i < old_new.len() {
                            assert(old_new[i] == e);
                            assert(newly_ended(v, before, job, r));
                        } else {
                            assert(jobs[n - 1] == job);
                        }
                    }
                    if exists|k: int| 0 <= k < n && #[trigger] jobs[k] == job && job_outcome(units, isolate_jobs, job) == Some(r) {
                        let k = choose|k: int| 0 <= k < n && #[trigger] jobs[k] == job && job_outcome(units, isolate_jobs, job) == Some(r);
                        if k < n - 1 {
                            assert(jobs[k] == job);
                            assert(newly_ended(v, before, job, r));
                            let i = choose|i: int| 0 <= i < old_new.len() && old_new[i] == e;
                            assert(all_new[i] == e);
                        } else {
                            assert(all_new[old_new.len() as int] == e);
                        }
                    }
                }
                assert forall|k: int| n <= k < jobs.len() implies after.live.dom().contains((#[trigger] jobs[k]).id) by {
                    assert(jobs[n - 1].id < jobs[k].id);
                }
            },
            None => {
                assert forall|job: JobInfoView, r: JobResult|
                    #[trigger] newly_ended(v, after, job, r) <==> exists|k: int|
                        0 <= k < n && #[trigger] jobs[k] == job && job_outcome(units, isolate_jobs, job) == Some(r) by {
                    assert(newly_ended(v, after, job, r) <==> newly_ended(v, before, job, r));
                    assert(newly_ended(v, before, job, r) <==> exists|k: int|
                        0 <= k < n - 1 && #[trigger] jobs[k] == job && job_outcome(units, isolate_jobs, job) == Some(r));
                    if exists|k: int| 0 <= k < n - 1 && #[trigger] jobs[k] == job && job_outcome(units, isolate_jobs, job) == Some(r) {
                        let k = choose|k: int| 0 <= k < n - 1 && #[trigger] jobs[k] == job && job_outcome(units, isolate_jobs, job) == Some(r);
                        assert(jobs[k] == job);
                    }
                }
            },
        }
    }
}

/// Whether a registry that became another announced in between that a job
/// ended with a result.
pub open spec fn newly_ended(before: JobRegistryView, after: JobRegistryView, job: JobInfoView, result: JobResult) -> bool {
    after.events.skip(before.events.len() as int).contains(JobEventView::Removed { job, result })
}

/// A live job stays live and unchanged, or is announced to have ended, with
/// one result; nothing else is announced to have ended. A job that waits stays.
pub proof fn law_each_job_stays_or_ends_once(
    v: JobRegistryView,
    units: Map<Seq<char>, RecordView>,
    isolate_jobs: Map<u32, Vec<String>>,
    jobs: Seq<JobInfoView>,
    job: JobInfoView,
    result: JobResult,
    other: JobResult,
)
    requires
        is_listing(jobs, v.live),
    ensures
        ({
            let after = finished_all(v, units, isolate_jobs, jobs);
            let live = v.live.dom().contains(job.id) && v.live[job.id] == job;
            &&& newly_ended(v, after, job, result) ==> live && job.state is Running && !after.live.dom().contains(job.id)
            &&& newly_ended(v, after, job, result) && newly_ended(v, after, job, other) ==> result == other
            &&& live && after.live.dom().contains(job.id) ==> after.live[job.id] == job
            &&& live && !after.live.dom().contains(job.id) ==> exists|r: JobResult| newly_ended(v, after, job, r)
            &&& live && job.state is Waiting ==> after.live.dom().contains(job.id)
        }),
{
    lemma_finished_events(v, units, isolate_jobs, jobs, jobs.len() as int);
    assert(jobs.take(jobs.len() as int) =~= jobs);
    law_exactly_the_decided_jobs_end(v, units, isolate_jobs, jobs, job.id);
    let after = finished_all(v, units, isolate_jobs, jobs);
    if v.live.dom().contains(job.id) && v.live[job.id] == job && !after.live.dom().contains(job.id) {
        let r = job_outcome(units, isolate_jobs, job)->0;
        let k = choose|k: int| 0 <= k < jobs.len() && (#[trigger] jobs[k]).id == job.id;
        assert(jobs[k] == job);
        assert(newly_ended(v, after, job, r));
    }
    if newly_ended(v, after, job, result) {
        let k = choose|k: int| 0 <= k < jobs.len() && #[trigger] jobs[k] == job && job_outcome(units, isolate_jobs, job) == Some(result);
        assert(jobs[k] == job);
    }
}

/// How running jobs end, by the state of their unit. A start ends done with
/// its unit up, and failed with its unit down, failed or gone. A stop ends done
/// with its unit down, failed with it failed or gone, and goes on while it is
/// up or on its way. A restart ends done with its unit up or down. A job that
/// takes its unit nowhere is done.
pub proof fn law_running_jobs_end_as_their_units_do(
    v: JobRegistryView,
    units: Map<Seq<char>, RecordView>,
    isolate_jobs: Map<u32, Vec<String>>,
    jobs: Seq<JobInfoView>,
    id: u32,
)
    requires
        is_listing(jobs, v.live),
        v.live.dom().contains(id),
        v.live[id].state is Running,
    ensures
        ({
            let after = finished_all(v, units, isolate_jobs, jobs);
            let job = v.live[id];
            let there = units.dom().contains(job.unit);
            let state = units[job.unit].state;
            let broken = !there || state is Failed || state is Maintenance;
            let done = newly_ended(v, after, job, JobResult::Done);
            let failed = newly_ended(v, after, job, JobResult::Failed);
            let goes_on = after.live.dom().contains(id);
            &&& job.kind is Start ==> {
                &&& done <==> there && state is Active
                &&& failed <==> broken || state is Inactive
                &&& goes_on <==> there && (state is Activating || state is Deactivating)
            }
            &&& job.kind is Stop ==> {
                &&& done <==> there && state is Inactive
                &&& failed <==> broken
                &&& goes_on <==> there && (state is Active || state is Activating || state is Deactivating)
            }
            &&& job.kind is Restart ==> {
                &&& done <==> there && (state is Active || state is Inactive)
                &&& failed <==> broken
                &&& goes_on <==> there && (state is Activating || state is Deactivating)
            }
            &&& job.kind is Nop || job.kind is Reload ==> done && !goes_on
        }),
{
    lemma_finished_events(v, units, isolate_jobs, jobs, jobs.len() as int);
    assert(jobs.take(jobs.len() as int) =~= jobs);
    law_exactly_the_decided_jobs_end(v, units, isolate_jobs, jobs, id);
    let after = finished_all(v, units, isolate_jobs, jobs);
    let job = v.live[id];
    let k = choose|k: int| 0 <= k < jobs.len() && (#[trigger] jobs[k]).id == id;
    assert(jobs[k] == job);
    assert forall|r: JobResult| #[trigger] newly_ended(v, after, job, r) <==> job_outcome(units, isolate_jobs, job) == Some(r) by {
        if job_outcome(units, isolate_jobs, job) == Some(r) {
            assert(jobs[k] == job);
        }
    }
}

/// How a running isolate job ends. It fails with its target; else it ends as
/// failed by a dependency where another unit that it keeps has failed; else it
/// is done with the target up and no other unit up or on its way that it does
/// not keep; and else it goes on.
pub proof fn law_isolate_jobs_end_by_all_units(
    v: JobRegistryView,
    units: Map<Seq<char>, RecordView>,
    isolate_jobs: Map<u32, Vec<String>>,
    jobs: Seq<JobInfoView>,
    id: u32,
)
    requires
        is_listing(jobs, v.live),
        v.live.dom().contains(id),
        v.live[id].state is Running,
        v.live[id].kind is Isolate,
        isolate_jobs.dom().contains(id),
    ensures
        ({
            let after = finished_all(v, units, isolate_jobs, jobs);
            let job = v.live[id];
            let keep = text::views(isolate_jobs[id]@);
            let there = units.dom().contains(job.unit);
            let state = units[job.unit].state;
            let broken = !there || state is Failed || state is Maintenance;
            let kept_broken = exists|name: Seq<char>| #[trigger] keep.contains(name) && name != job.unit && units.dom().contains(name) && (
            units[name].state is Failed || units[name].state is Maintenance);
            let unwanted = exists|name: Seq<char>| #[trigger] units.dom().contains(name) && !keep.contains(name) && (
            units[name].state is Active || units[name].state is Activating || units[name].state is Deactivating);
            let done = newly_ended(v, after, job, JobResult::Done);
            &&& newly_ended(v, after, job, JobResult::Failed) <==> broken
            &&& newly_ended(v, after, job, JobResult::Dependency) <==> !broken && kept_broken
            &&& done <==> !broken && !kept_broken && state is Active && !unwanted
            &&& after.live.dom().contains(id) <==> !broken && !kept_broken && !(state is Active && !unwanted)
        }),
{
    lemma_finished_events(v, units, isolate_jobs, jobs, jobs.len() as int);
    assert(jobs.take(jobs.len() as int) =~= jobs);
    law_exactly_the_decided_jobs_end(v, units, isolate_jobs, jobs, id);
    let after = finished_all(v, units, isolate_jobs, jobs);
    let job = v.live[id];
    let keep = text::views(isolate_jobs[id]@);
    let k = choose|k: int| 0 <= k < jobs.len() && (#[trigger] jobs[k]).id == id;
    assert(jobs[k] == job);
    assert forall|r: JobResult| #[trigger] newly_ended(v, after, job, r) <==> job_outcome(units, isolate_jobs, job) == Some(r) by {
        if job_outcome(units, isolate_jobs, job) == Some(r) {
            assert(jobs[k] == job);
        }
    }
    assert(kept_failed(units, keep, job.unit) <==> exists|name: Seq<char>| #[trigger] keep.contains(name) && name != job.unit && units.dom().contains(
        name,
    ) && (units[name].state is Failed || units[name].state is Maintenance));
    assert(unwanted_running(units, keep) <==> exists|name: Seq<char>| #[trigger] units.dom().contains(name) && !keep.contains(name) && (
    units[name].state is Active || units[name].state is Activating || units[name].state is Deactivating));
}

/// What a job that was carried out ends with at once. One that could not be
/// carried out fails. Else it is judged by its unit, and goes on while that is
/// on its way; a stop also while it is up, and an isolate job until its unit
/// failed. One without a unit goes on, unless there is nothing to do.
pub proof fn law_jobs_end_at_once_where_their_units_rest(units: Map<Seq<char>, RecordView>, job: JobView, succeeded: bool)
    ensures
        ({
            let r = run_outcome(units, job, succeeded);
            let there = units.dom().contains(job.unit);
            let state = units[job.unit].state;
            &&& !succeeded ==> r == Some(JobResult::Failed)
            &&& succeeded && job.kind is Nop ==> r == Some(JobResult::Done)
            &&& succeeded && !(job.kind is Nop) && !there ==> r is None
            &&& succeeded && there && job.kind is Reload ==> r == Some(JobResult::Done)
            &&& succeeded && there && (state is Failed || state is Maintenance) && !(job.kind is Nop || job.kind is Reload)
                ==> r == Some(JobResult::Failed)
            &&& succeeded && there && (state is Activating || state is Deactivating) && !(job.kind is Nop || job.kind is Reload)
                ==> r is None
            &&& succeeded && there && state is Active ==> r == match job.kind {
                JobKind::Stop | JobKind::Isolate => None::<JobResult>,
                _ => Some(JobResult::Done),
            }
            &&& succeeded && there && state is Inactive ==> r == match job.kind {
                JobKind::Isolate => None::<JobResult>,
                _ => Some(JobResult::Done),
            }
        }),
{
}

/// A unit waits for another exactly where its `After=` or the `Before=` of the
/// other says so.
pub proof fn law_order_is_by_after_and_before(units: Map<Seq<char>, RecordView>, afters: Map<Seq<char>, Vec<String>>, a: Seq<char>, b: Seq<char>)
    requires
        is_ordering(afters, units),
    ensures
        (afters.dom().contains(a) && text::views(afters[a]@).contains(b)) <==> {
            ||| units.dom().contains(a) && text::views(units[a].loaded.section().after@).contains(b)
            ||| units.dom().contains(b) && text::views(units[b].loaded.section().before@).contains(a)
        },
{
    assert(ordered_after(afters, a, b) <==> must_follow(units, a, b));
}

/// Taking the next job. The ordering is that of the units; what does not count
/// any more is dropped; the first job that may run is taken, and the others
/// stay in their order.
pub proof fn law_what_taking_the_next_job_does(before: Manager, after: Manager, afters: Map<Seq<char>, Vec<String>>, taken: Option<JobView>, first: u32, second: u32)
    requires
        takes_next(before, after, afters, taken),
    ensures
        ({
            let jobs = still_current(after.job_registry@, before.job_queue@);
            let states = before.records().map_values(|r: RecordView| r.state);
            &&& after.job_registry@.edges.contains((first, second)) <==> orders(before.job_registry@.live, afters, first, second)
            &&& taken is None ==> after.job_queue@ == jobs && forall|i: int|
                0 <= i < jobs.len() ==> !ready(after.job_registry@, states, afters, #[trigger] jobs[i])
            &&& taken is Some ==> exists|k: int| {
                &&& 0 <= k < jobs.len() && taken == Some(#[trigger] jobs[k]) && ready(after.job_registry@, states, afters, jobs[k])
                &&& forall|i: int| 0 <= i < k ==> !ready(after.job_registry@, states, afters, #[trigger] jobs[i])
                &&& after.job_queue@ == jobs.take(k) + jobs.skip(k + 1)
            }
        }),
{
    let jobs = still_current(after.job_registry@, before.job_queue@);
    let states = states_of(before.records());
    if taken is Some {
        let k = choose|k: int|
            #[trigger] is_first_ready(after.job_registry@, states, afters, jobs, k) && taken == Some(jobs[k]) && after.job_queue@ == jobs.remove(k);
        assert(jobs.remove(k) =~= jobs.take(k) + jobs.skip(k + 1));
        assert(taken == Some(jobs[k]));
    }
}

} // verus!
