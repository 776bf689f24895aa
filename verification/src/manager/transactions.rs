//! Loading units, and the jobs that a start, an isolation or a shutdown makes.


use vstd::prelude::*;

use crate::deps::{
    graph, known_sections, loaded_sections, missing_dependencies, resolve_start_order, start_order, still_wanted, visit,
    DepUnit, Graph,
};
use crate::job::{current, installed, Job, JobKind, JobQueue, JobRegistry, JobRegistryView, JobView};
use crate::manager::records::{failure_cleared, reset_failed_record};
use crate::manager::{lemma_views_insert, unit_views, Manager};
use crate::names::NameMap;
use crate::service::{fresh, RecordView, UnitRecord};
use crate::text;
use crate::unit::{LoadedUnit, UnitSection, UnitState};

verus! {

/// Why a transaction cannot be made.
#[derive(Debug)]
pub enum TransactionError {
    /// The unit itself cannot be loaded.
    NotLoadable,
    /// A required dependency cannot be loaded.
    MissingRequirement(String),
    /// Only a target can be isolated.
    NotATarget,
    /// The target does not permit it.
    NotPermitted,
}

/// The registry after a unit was asked for: it is there, or was loaded, or
/// cannot be.
pub open spec fn with_loaded(units: Map<Seq<char>, RecordView>, name: Seq<char>, loaded: Option<LoadedUnit>) -> Map<
    Seq<char>,
    RecordView,
> {
    match loaded {
        Some(loaded) if !units.dom().contains(name) => units.insert(name, fresh(loaded)),
        _ => units,
    }
}

/// The registry after those of `names` were put in that were loaded.
pub open spec fn with_all_loaded(
    units: Map<Seq<char>, RecordView>,
    loaded: Map<Seq<char>, LoadedUnit>,
    names: Seq<Seq<char>>,
) -> Map<Seq<char>, RecordView> {
    Map::new(
        |name: Seq<char>| units.dom().contains(name) || (names.contains(name) && loaded.dom().contains(name)),
        |name: Seq<char>|
            if units.dom().contains(name) {
                units[name]
            } else {
                fresh(loaded[name])
            },
    )
}

/// The `[Unit]` sections of a registry.
pub open spec fn sections_of(units: Map<Seq<char>, RecordView>) -> Map<Seq<char>, UnitSection> {
    units.map_values(|r: RecordView| r.loaded.section())
}

/// The order in which a start of `target` starts units, or the required unit
/// that is missing. The registry's units count before those in `loaded`.
pub open spec fn order_for(units: Map<Seq<char>, RecordView>, loaded: Map<Seq<char>, LoadedUnit>, target: Seq<char>) -> Result<
    Seq<Seq<char>>,
    Seq<char>,
> {
    if units.dom().contains(target) {
        visit(
            Graph { units: loaded_sections(loaded).union_prefer_right(sections_of(units)), lenient: false },
            Set::empty(),
            Seq::empty(),
            target,
        )
    } else {
        Ok(seq![target])
    }
}

/// Exported start jobs for `names`, numbered from `first`.
pub open spec fn start_jobs(first: u32, names: Seq<Seq<char>>) -> Seq<JobView> {
    Seq::new(names.len(), |i: int| JobView { id: (first + i) as u32, kind: JobKind::Start, unit: names[i] })
}

/// A registry after start jobs for `names` were installed.
pub open spec fn starts_installed(v: JobRegistryView, names: Seq<Seq<char>>) -> JobRegistryView
    decreases names.len(),
{
    if names.len() == 0 {
        v
    } else {
        installed(starts_installed(v, names.drop_last()), JobKind::Start, names.last(), None)
    }
}

/// Unexported jobs of one kind for `names`.
pub open spec fn internal_jobs(kind: JobKind, names: Seq<Seq<char>>) -> Seq<JobView> {
    names.map_values(|name: Seq<char>| JobView { id: 0, kind, unit: name })
}

/// States out of which a transaction stops a unit.
pub open spec fn is_stoppable(state: UnitState) -> bool {
    state == UnitState::Active || state == UnitState::Activating || state == UnitState::Failed
}

/// What an isolation keeps: what it starts, and what asks to be left alone.
pub open spec fn is_kept(units: Map<Seq<char>, RecordView>, order: Seq<Seq<char>>, name: Seq<char>) -> bool {
    order.contains(name) || (units.dom().contains(name) && units[name].loaded.section().ignore_on_isolate)
}

/// Why a unit cannot be isolated, if it cannot.
pub open spec fn isolation_refused(units: Map<Seq<char>, RecordView>, target: Seq<char>) -> Option<TransactionError> {
    if !units.dom().contains(target) {
        Some(TransactionError::NotLoadable)
    } else if !(units[target].loaded is Target) {
        Some(TransactionError::NotATarget)
    } else if !units[target].loaded.section().allow_isolate {
        Some(TransactionError::NotPermitted)
    } else {
        None
    }
}

/// Whether `after` is `before` with an isolation of `target` queued that
/// starts `order`: everything that runs and is not kept is stopped, then what
/// the target needs is started.
pub open spec fn isolation_queued(
    before: Manager,
    after: Manager,
    job_id: u32,
    target: Seq<char>,
    units: Map<Seq<char>, RecordView>,
    order: Seq<Seq<char>>,
) -> bool {
    let stops = after.units.keys().filter(
        |name: Seq<char>| !is_kept(units, order, name) && is_stoppable(after.records()[name].state),
    );
    &&& after.records() == units.insert(target, RecordView { state: UnitState::Activating, ..units[target] })
    &&& after.job_queue@ == before.job_queue@ + internal_jobs(JobKind::Stop, stops) + internal_jobs(JobKind::Start, order)
    &&& if job_id == 0 {
        after.isolate_jobs@ == before.isolate_jobs@
    } else {
        &&& after.isolate_jobs@.dom() == before.isolate_jobs@.dom().insert(job_id)
        &&& forall|id: u32|
            #[trigger] before.isolate_jobs@.dom().contains(id) && id != job_id ==> after.isolate_jobs@[id]
                == before.isolate_jobs@[id]
        &&& forall|name: Seq<char>| #[trigger] text::views(after.isolate_jobs@[job_id]@).contains(name) <==> is_kept(units, order, name)
    }
}

/// The registry as dependency resolution sees it.
fn known_units<'a>(units: &'a NameMap<UnitRecord>) -> (r: NameMap<DepUnit<'a>>)
    requires
        units.wf(),
    ensures
        r.wf(),
        known_sections(r@) == sections_of(unit_views(*units)),
        r@.dom() == unit_views(*units).dom(),
{
    let ghost views = unit_views(*units);
    let ghost keys = units.keys();
    let mut known: NameMap<DepUnit<'a>> = NameMap::new();
    let mut i: usize = 0;
    proof {
        units.lemma_keys();
    }
    while i < units.len()
        invariant
            units.wf(),
            keys == units.keys(),
            views == unit_views(*units),
            i <= keys.len(),
            known.wf(),
            known.keys() == keys.take(i as int),
            forall|name: Seq<char>| #[trigger] known@.dom().contains(name) ==> known@[name].loaded == views[name].loaded,
            forall|k: int| 0 <= k < i ==> known@.dom().contains(#[trigger] keys[k]),
            keys.no_duplicates(),
        decreases keys.len() - i,
    {
        let record = units.value_at(i);
        let ghost prior = known;
        proof {
            if prior@.dom().contains(keys[i as int]) {
                prior.lemma_keys();
                assert(prior.keys().contains(keys[i as int]));
                let k = choose|k: int| 0 <= k < prior.keys().len() && prior.keys()[k] == keys[i as int];
                assert(keys[k] == keys[i as int]);
            }
        }
        known.insert(units.key_at(i).clone(), DepUnit { loaded: &record.loaded, state: record.state });
        assert(known.keys() =~= keys.take(i + 1));
        i += 1;
    }
    proof {
        assert(keys.take(i as int) =~= keys);
        known.lemma_keys();
        units.lemma_keys();
        assert(known@.dom() =~= views.dom()) by {
            assert forall|name: Seq<char>| known@.dom().contains(name) <==> views.dom().contains(name) by {
                assert(known.keys().contains(name) <==> keys.contains(name));
                assert(units@.dom().contains(name) <==> keys.contains(name));
            }
        }
        assert(known_sections(known@) =~= sections_of(views));
    }
    known
}

fn enqueue_starts(queue: &mut JobQueue, registry: &mut JobRegistry, names: &Vec<String>)
    requires
        old(registry).wf(),
        old(registry)@.next_id + names@.len() <= u32::MAX,
    ensures
        final(registry).wf(),
        final(registry)@ == starts_installed(old(registry)@, text::views(names@)),
        final(queue)@ == old(queue)@ + start_jobs(old(registry)@.next_id, text::views(names@)),
{
    let ghost v = registry@;
    let ghost q = queue@;
    let ghost all = text::views(names@);
    let mut i: usize = 0;
    proof {
        assert(all.take(0) =~= Seq::<Seq<char>>::empty());
        assert(q + start_jobs(v.next_id, all.take(0)) =~= q);
    }
    while i < names.len()
        invariant
            i <= names@.len(),
            all == text::views(names@),
            registry.wf(),
            v.next_id + names@.len() <= u32::MAX,
            registry@ == starts_installed(v, all.take(i as int)),
            registry@.next_id == v.next_id + i,
            queue@ == q + start_jobs(v.next_id, all.take(i as int)),
        decreases names@.len() - i,
    {
        assert(all[i as int] == names@[i as int]@);
        queue.enqueue(registry, JobKind::Start, names[i].as_str());
        proof {
            assert(all.take(i + 1).drop_last() =~= all.take(i as int));
            assert(queue@ =~= q + start_jobs(v.next_id, all.take(i + 1)));
        }
        i += 1;
    }
    assert(all.take(i as int) =~= all);
}

fn enqueue_internals(queue: &mut JobQueue, kind: JobKind, names: &Vec<String>)
    ensures
        final(queue)@ == old(queue)@ + internal_jobs(kind, text::views(names@)),
{
    let ghost q = queue@;
    let ghost all = text::views(names@);
    let mut i: usize = 0;
    assert(q + internal_jobs(kind, all.take(0)) =~= q);
    while i < names.len()
        invariant
            i <= names@.len(),
            all == text::views(names@),
            queue@ == q + internal_jobs(kind, all.take(i as int)),
        decreases names@.len() - i,
    {
        assert(all[i as int] == names@[i as int]@);
        queue.enqueue_internal(kind, names[i].as_str());
        assert(queue@ =~= q + internal_jobs(kind, all.take(i + 1)));
        i += 1;
    }
    assert(all.take(i as int) =~= all);
}

/// The units that a transaction stops, but for those in `keep`.
fn stoppable_units(units: &NameMap<UnitRecord>, keep: &Vec<String>) -> (r: Vec<String>)
    requires
        units.wf(),
    ensures
        text::views(r@) == units.keys().filter(
            |name: Seq<char>| !text::views(keep@).contains(name) && is_stoppable(unit_views(*units)[name].state),
        ),
{
    let ghost views = unit_views(*units);
    let ghost keys = units.keys();
    let ghost kept = text::views(keep@);
    let ghost wanted = |name: Seq<char>| !kept.contains(name) && is_stoppable(views[name].state);
    let mut out: Vec<String> = Vec::new();
    let mut i: usize = 0;
    proof {
        assert(keys.take(0) =~= Seq::<Seq<char>>::empty());
        reveal_with_fuel(Seq::filter, 1);
        assert(text::views(out@) =~= keys.take(0).filter(wanted));
    }
    while i < units.len()
        invariant
            units.wf(),
            views == unit_views(*units),
            keys == units.keys(),
            kept == text::views(keep@),
            wanted == (|name: Seq<char>| !kept.contains(name) && is_stoppable(views[name].state)),
            i <= keys.len(),
            text::views(out@) == keys.take(i as int).filter(wanted),
        decreases keys.len() - i,
    {
        let name = units.key_at(i);
        let state = units.value_at(i).state;
        let ghost prior = out@;
        proof {
            assert(keys.take(i + 1) =~= keys.take(i as int).push(name@));
            keys.take(i as int).lemma_filter_push(name@, wanted);
        }
        if (state == UnitState::Active || state == UnitState::Activating || state == UnitState::Failed)
            && !text::contains_name(keep, name.as_str()) {
            out.push(name.clone());
            assert(text::views(out@) =~= text::views(prior).push(name@));
        }
        i += 1;
    }
    assert(keys.take(i as int) =~= keys);
    assert(wanted =~= |name: Seq<char>| !text::views(keep@).contains(name) && is_stoppable(unit_views(*units)[name].state));
    out
}

/// What an isolation that starts `order` keeps.
fn kept_units(units: &NameMap<UnitRecord>, order: &Vec<String>) -> (r: Vec<String>)
    requires
        units.wf(),
    ensures
        forall|name: Seq<char>|
            #[trigger] text::views(r@).contains(name) <==> is_kept(unit_views(*units), text::views(order@), name),
{
    let ghost views = unit_views(*units);
    let ghost keys = units.keys();
    let ghost base = text::views(order@);
    let mut keep = order.clone();
    assert(keep@ =~= order@);
    let mut i: usize = 0;
    while i < units.len()
        invariant
            units.wf(),
            views == unit_views(*units),
            keys == units.keys(),
            i <= keys.len(),
            base == text::views(order@),
            forall|name: Seq<char>|
                #[trigger] text::views(keep@).contains(name) <==> base.contains(name) || exists|k: int|
                    0 <= k < i && #[trigger] keys[k] == name && views[name].loaded.section().ignore_on_isolate,
        decreases keys.len() - i,
    {
        let name = units.key_at(i);
        let record = units.value_at(i);
        let ghost prior = text::views(keep@);
        if record.loaded.unit_section().ignore_on_isolate {
            keep.push(name.clone());
            let ghost now = text::views(keep@);
            proof {
                assert(now =~= prior.push(name@));
                assert forall|n: Seq<char>| #[trigger] now.contains(n) <==> base.contains(n) || exists|k: int|
                    0 <= k < i + 1 && #[trigger] keys[k] == n && views[n].loaded.section().ignore_on_isolate by {
                    if now.contains(n) {
                        let j = choose|j: int| 0 <= j < now.len() && now[j] == n;
                        if j < prior.len() {
                            assert(prior[j] == n);
                            assert(prior.contains(n));
                        } else {
                            assert(keys[i as int] == n);
                        }
                    }
                    if prior.contains(n) {
                        let j = choose|j: int| 0 <= j < prior.len() && prior[j] == n;
                        assert(now[j] == n);
                    }
                    assert(now[prior.len() as int] == name@);
                    assert(now.contains(name@));
                }
            }
        } else {
            assert forall|n: Seq<char>| #[trigger] text::views(keep@).contains(n) <==> base.contains(n) || exists|k: int|
                0 <= k < i + 1 && #[trigger] keys[k] == n && views[n].loaded.section().ignore_on_isolate by {
                assert(prior.contains(n) <==> text::views(keep@).contains(n));
                assert(views[keys[i as int]] == record@);
            }
        }
        i += 1;
    }
    proof {
        units.lemma_keys();
        assert forall|name: Seq<char>| #[trigger] text::views(keep@).contains(name) <==> is_kept(views, base, name) by {
            if views.dom().contains(name) && views[name].loaded.section().ignore_on_isolate {
                assert(units@.dom().contains(name));
                assert(keys.contains(name));
                let k = choose|k: int| 0 <= k < keys.len() && keys[k] == name;
                assert(keys[k] == name);
            }
            if exists|k: int| 0 <= k < i && #[trigger] keys[k] == name && views[name].loaded.section().ignore_on_isolate {
                let k = choose|k: int|
                    0 <= k < i && #[trigger] keys[k] == name && views[name].loaded.section().ignore_on_isolate;
                assert(keys.contains(keys[k]));
                assert(units@.dom().contains(name));
            }
        }
    }
    keep
}

impl Manager {
    /// Put a unit into the registry unless it is there. Whether it is there
    /// now.
    pub fn load_unit(&mut self, name: &str, loaded: Option<LoadedUnit>) -> (r: bool)
        requires
            old(self).wf(),
        ensures
            final(self).wf(),
            *final(self) == (Manager { units: final(self).units, ..*old(self) }),
            r == (old(self).records().dom().contains(name@) || loaded is Some),
            final(self).records() == with_loaded(old(self).records(), name@, loaded),
    {
        let ghost before = *self;
        if self.units.contains(name) {
            return true;
        }
        match loaded {
            Some(loaded) => {
                let record = UnitRecord::new(loaded);
                proof {
                    lemma_views_insert(before.units@, name@, record);
                }
                self.units.insert(name.to_owned(), record);
                true
            },
            None => false,
        }
    }

    /// Take the oldest job that a timer or a client asked for.
    pub fn take_shared_job(&mut self) -> (r: Option<Job>)
        requires
            old(self).wf(),
        ensures
            final(self).wf(),
            *final(self) == (Manager { shared_queue: final(self).shared_queue, ..*old(self) }),
            match r {
                Some(job) => exists|k: int|
                    0 <= k < old(self).shared_queue@.len() && #[trigger] old(self).shared_queue@[k] == job@ && current(
                        old(self).job_registry@,
                        job@,
                    ) && final(self).shared_queue@ == old(self).shared_queue@.skip(k + 1) && forall|i: int|
                        0 <= i < k ==> !current(old(self).job_registry@, #[trigger] old(self).shared_queue@[i]),
                None => final(self).shared_queue@.len() == 0 && forall|i: int|
                    0 <= i < old(self).shared_queue@.len() ==> !current(
                        old(self).job_registry@,
                        #[trigger] old(self).shared_queue@[i],
                    ),
            },
    {
        self.shared_queue.pop_front(&self.job_registry)
    }

    /// Queue a job that was asked for, its unit being loaded on demand.
    pub fn adopt_job(&mut self, job: Job, loaded: Option<LoadedUnit>)
        requires
            old(self).wf(),
        ensures
            final(self).wf(),
            *final(self) == (Manager { units: final(self).units, job_queue: final(self).job_queue, ..*old(self) }),
            final(self).records() == with_loaded(old(self).records(), job.unit_name@, loaded),
            final(self).job_queue@ == if current(old(self).job_registry@, job@) {
                old(self).job_queue@.push(job@)
            } else {
                old(self).job_queue@
            },
    {
        self.load_unit(job.unit_name.as_str(), loaded);
        self.job_queue.push_existing(&self.job_registry, job);
    }

    /// The dependencies that are to be loaded before a start of `target` can
    /// be resolved. `tried` holds those that cannot be loaded.
    pub fn missing_dependencies(&self, target: &str, loaded: &NameMap<LoadedUnit>, tried: &Vec<String>) -> (r: Vec<String>)
        requires
            self.wf(),
            loaded.wf(),
        ensures
            text::views(r@).no_duplicates(),
            exists|known: Map<Seq<char>, DepUnit<'_>>| #[trigger]
                known_sections(known) == sections_of(self.records()) && forall|dep: Seq<char>| #[trigger]
                    text::views(r@).contains(dep) <==> still_wanted(known, loaded@, text::views(tried@), target@, dep),
    {
        let known = known_units(&self.units);
        missing_dependencies(target, &known, loaded, tried)
    }

    fn resolve(&self, target: &str, loaded: &NameMap<LoadedUnit>) -> (r: Result<Vec<String>, TransactionError>)
        requires
            self.wf(),
            loaded.wf(),
        ensures
            match r {
                Ok(order) => order_for(self.records(), loaded@, target@) == Ok::<Seq<Seq<char>>, Seq<char>>(text::views(order@)),
                Err(error) => error matches TransactionError::MissingRequirement(name) && order_for(
                    self.records(),
                    loaded@,
                    target@,
                ) == Err::<Seq<Seq<char>>, Seq<char>>(name@),
            },
    {
        let known = known_units(&self.units);
        match resolve_start_order(target, &known, loaded) {
            Ok(order) => Ok(order),
            Err(missing) => Err(TransactionError::MissingRequirement(missing.name)),
        }
    }

    /// Put those of `names` into the registry that were loaded.
    fn load_all(&mut self, names: &Vec<String>, loaded: NameMap<LoadedUnit>)
        requires
            old(self).wf(),
            loaded.wf(),
        ensures
            final(self).wf(),
            *final(self) == (Manager { units: final(self).units, ..*old(self) }),
            final(self).records() == with_all_loaded(old(self).records(), loaded@, text::views(names@)),
    {
        let ghost before = *self;
        let ghost units = before.records();
        let ghost all = text::views(names@);
        let ghost given = loaded@;
        let mut loaded = loaded;
        let mut i: usize = 0;
        assert(self.records() =~= with_all_loaded(units, given, all.take(0)));
        while i < names.len()
            invariant
                i <= names@.len(),
                all == text::views(names@),
                self.wf(),
                loaded.wf(),
                *self == (Manager { units: self.units, ..before }),
                self.records() == with_all_loaded(units, given, all.take(i as int)),
                forall|name: Seq<char>|
                    #[trigger] loaded@.dom().contains(name) <==> given.dom().contains(name) && (units.dom().contains(name)
                        || !all.take(i as int).contains(name)),
                forall|name: Seq<char>| #[trigger] loaded@.dom().contains(name) ==> loaded@[name] == given[name],
            decreases names@.len() - i,
        {
            let name = names[i].as_str();
            let ghost prior = self.records();
            let ghost rest = loaded@;
            let ghost done = all.take(i as int);
            let ghost next = all.take(i + 1);
            proof {
                assert(all[i as int] == name@);
                assert(next =~= done.push(name@));
                assert forall|n: Seq<char>| #[trigger] next.contains(n) <==> done.contains(n) || n == name@ by {
                    if done.contains(n) {
                        let k = choose|k: int| 0 <= k < done.len() && done[k] == n;
                        assert(next[k] == n);
                    }
                    if next.contains(n) {
                        let k = choose|k: int| 0 <= k < next.len() && next[k] == n;
                        if k < i {
                            assert(done[k] == n);
                        }
                    }
                    assert(next[i as int] == name@);
                }
            }
            if !self.units.contains(name) {
                let unit = loaded.remove(name);
                self.load_unit(name, unit);
                assert(rest.dom().contains(name@) || true);
            } else {
                assert(prior.dom().contains(name@));
            }
            proof {
                assert(self.records() =~= with_all_loaded(units, given, next));
                assert forall|n: Seq<char>| #[trigger] loaded@.dom().contains(n) <==> given.dom().contains(n) && (units.dom().contains(
                    n,
                ) || !next.contains(n)) by {
                    assert(rest.dom().contains(n) || true);
                    assert(next.contains(n) <==> done.contains(n) || n == name@);
                }
            }
            i += 1;
        }
        assert(all.take(i as int) =~= all);
    }

    /// Resolve all that a start of `target` needs and queue start jobs, what
    /// is depended on first. `target_loaded` is the target's unit where the
    /// registry lacks it, and `loaded` what else was loaded.
    pub fn enqueue_start(&mut self, target: &str, target_loaded: Option<LoadedUnit>, loaded: NameMap<LoadedUnit>) -> (r: Result<
        (),
        TransactionError,
    >)
        requires
            old(self).wf(),
            loaded.wf(),
            order_for(with_loaded(old(self).records(), target@, target_loaded), loaded@, target@) matches Ok(order)
                ==> old(self).job_registry@.next_id + order.len() <= u32::MAX,
        ensures
            final(self).wf(),
            *final(self) == (Manager {
                units: final(self).units,
                job_queue: final(self).job_queue,
                job_registry: final(self).job_registry,
                ..*old(self)
            }),
            ({
                let units = with_loaded(old(self).records(), target@, target_loaded);
                match r {
                    Ok(_) => {
                        &&& units.dom().contains(target@)
                        &&& order_for(units, loaded@, target@) matches Ok(order) && {
                            &&& final(self).records() == with_all_loaded(units, loaded@, order)
                            &&& final(self).job_registry@ == starts_installed(old(self).job_registry@, order)
                            &&& final(self).job_queue@ == old(self).job_queue@ + start_jobs(
                                old(self).job_registry@.next_id,
                                order,
                            )
                        }
                    },
                    Err(error) => {
                        &&& final(self).records() == units
                        &&& final(self).job_registry@ == old(self).job_registry@
                        &&& final(self).job_queue@ == old(self).job_queue@
                        &&& match error {
                            TransactionError::NotLoadable => !units.dom().contains(target@),
                            TransactionError::MissingRequirement(name) => units.dom().contains(target@) && order_for(
                                units,
                                loaded@,
                                target@,
                            ) == Err::<Seq<Seq<char>>, Seq<char>>(name@),
                            _ => false,
                        }
                    },
                }
            }),
    {
        if !self.load_unit(target, target_loaded) {
            return Err(TransactionError::NotLoadable);
        }
        let order = match self.resolve(target, &loaded) {
            Ok(order) => order,
            Err(error) => return Err(error),
        };
        self.load_all(&order, loaded);
        enqueue_starts(&mut self.job_queue, &mut self.job_registry, &order);
        Ok(())
    }

    /// Turn an isolation into stop and start jobs. An exported job is
    /// remembered with what it keeps.
    pub fn enqueue_isolate(
        &mut self,
        job_id: u32,
        target: &str,
        target_loaded: Option<LoadedUnit>,
        loaded: NameMap<LoadedUnit>,
    ) -> (r: Result<(), TransactionError>)
        requires
            old(self).wf(),
            loaded.wf(),
        ensures
            final(self).wf(),
            *final(self) == (Manager {
                units: final(self).units,
                job_queue: final(self).job_queue,
                isolate_jobs: final(self).isolate_jobs,
                ..*old(self)
            }),
            ({
                let units = with_loaded(old(self).records(), target@, target_loaded);
                match r {
                    Ok(_) => {
                        &&& isolation_refused(units, target@) is None
                        &&& order_for(units, loaded@, target@) matches Ok(order) && isolation_queued(
                            *old(self),
                            *final(self),
                            job_id,
                            target@,
                            with_all_loaded(units, loaded@, order),
                            order,
                        )
                    },
                    Err(error) => {
                        &&& final(self).records() == units
                        &&& final(self).job_queue@ == old(self).job_queue@
                        &&& final(self).isolate_jobs@ == old(self).isolate_jobs@
                        &&& match error {
                            TransactionError::MissingRequirement(name) => isolation_refused(units, target@) is None
                                && order_for(units, loaded@, target@) == Err::<Seq<Seq<char>>, Seq<char>>(name@),
                            _ => isolation_refused(units, target@) == Some(error),
                        }
                    },
                }
            }),
    {
        broadcast use vstd::std_specs::hash::group_hash_axioms;

        let ghost before = *self;
        if !self.load_unit(target, target_loaded) {
            return Err(TransactionError::NotLoadable);
        }
        match self.units.get(target) {
            Some(record) => {
                match &record.loaded {
                    LoadedUnit::Target(_) => {},
                    _ => return Err(TransactionError::NotATarget),
                }
                if !record.loaded.unit_section().allow_isolate {
                    return Err(TransactionError::NotPermitted);
                }
            },
            None => return Err(TransactionError::NotLoadable),
        }
        let order = match self.resolve(target, &loaded) {
            Ok(order) => order,
            Err(error) => return Err(error),
        };
        let ghost started = text::views(order@);
        self.load_all(&order, loaded);
        let ghost units = self.records();
        let keep = kept_units(&self.units, &order);
        let ghost kept = text::views(keep@);
        self.set_state(target, UnitState::Activating);
        let stops = stoppable_units(&self.units, &keep);
        proof {
            let a = |name: Seq<char>| !kept.contains(name) && is_stoppable(self.records()[name].state);
            let b = |name: Seq<char>| !is_kept(units, started, name) && is_stoppable(self.records()[name].state);
            assert forall|name: Seq<char>| #[trigger] a(name) == b(name) by {
                assert(kept.contains(name) <==> is_kept(units, started, name));
            }
            assert(a =~= b);
        }
        enqueue_internals(&mut self.job_queue, JobKind::Stop, &stops);
        enqueue_internals(&mut self.job_queue, JobKind::Start, &order);
        if job_id != 0 {
            self.isolate_jobs.insert(job_id, keep);
        }
        Ok(())
    }

    /// Begin to stop everything: isolate the shutdown target, or, where that
    /// cannot be done, stop every unit that runs.
    pub fn begin_shutdown_transaction(&mut self, target_loaded: Option<LoadedUnit>, loaded: NameMap<LoadedUnit>) -> (r: bool)
        requires
            old(self).wf(),
            loaded.wf(),
        ensures
            final(self).wf(),
            *final(self) == (Manager {
                units: final(self).units,
                job_queue: final(self).job_queue,
                isolate_jobs: final(self).isolate_jobs,
                ..*old(self)
            }),
            final(self).isolate_jobs@ == old(self).isolate_jobs@,
            ({
                let units = with_loaded(old(self).records(), "shutdown.target"@, target_loaded);
                let order = order_for(units, loaded@, "shutdown.target"@);
                &&& r == (isolation_refused(units, "shutdown.target"@) is None && order is Ok)
                &&& if r {
                    isolation_queued(
                        *old(self),
                        *final(self),
                        0,
                        "shutdown.target"@,
                        with_all_loaded(units, loaded@, order->Ok_0),
                        order->Ok_0,
                    )
                } else {
                    &&& final(self).records() == units
                    &&& final(self).job_queue@ == old(self).job_queue@ + internal_jobs(
                        JobKind::Stop,
                        final(self).units.keys().filter(|name: Seq<char>| is_stoppable(units[name].state)),
                    )
                }
            }),
    {
        if let Ok(_) = self.enqueue_isolate(0, "shutdown.target", target_loaded, loaded) {
            return true;
        }
        let none: Vec<String> = Vec::new();
        let stops = stoppable_units(&self.units, &none);
        proof {
            let a = |name: Seq<char>| !text::views(none@).contains(name) && is_stoppable(self.records()[name].state);
            let b = |name: Seq<char>| is_stoppable(self.records()[name].state);
            assert forall|name: Seq<char>| #[trigger] a(name) == b(name) by {}
            assert(a =~= b);
        }
        enqueue_internals(&mut self.job_queue, JobKind::Stop, &stops);
        false
    }
}

/// Whether clearing failures is asked of a unit: it is named, or none is.
pub open spec fn is_asked(names: Seq<Seq<char>>, name: Seq<char>) -> bool {
    names.len() == 0 || names.contains(name)
}

/// The registry after the failures of `names` were cleared; of all units where
/// none is named.
pub open spec fn failures_cleared(units: Map<Seq<char>, RecordView>, names: Seq<Seq<char>>) -> Map<Seq<char>, RecordView> {
    Map::new(
        |name: Seq<char>| units.dom().contains(name),
        |name: Seq<char>|
            if is_asked(names, name) {
                failure_cleared(units[name])
            } else {
                units[name]
            },
    )
}

impl Manager {
    /// Clear the failure of one unit, which then no longer waits for a restart.
    fn reset_one(&mut self, name: &str)
        requires
            old(self).wf(),
        ensures
            final(self).wf(),
            *final(self) == (Manager {
                units: final(self).units,
                restart_pending: final(self).restart_pending,
                ..*old(self)
            }),
            final(self).units.keys() == old(self).units.keys(),
            final(self).records() == if old(self).records().dom().contains(name@) {
                old(self).records().insert(name@, failure_cleared(old(self).records()[name@]))
            } else {
                old(self).records()
            },
            final(self).restart_pending@ == old(self).restart_pending@.remove(name@),
    {
        let ghost before = *self;
        self.restart_pending.remove(name);
        if let Some(record) = self.units.get_mut(name) {
            reset_failed_record(record);
        }
        proof {
            if before.units@.dom().contains(name@) {
                lemma_views_insert(before.units@, name@, self.units@[name@]);
            }
        }
    }

    fn unit_names(&self) -> (r: Vec<String>)
        requires
            self.wf(),
        ensures
            text::views(r@) == self.units.keys(),
    {
        let ghost keys = self.units.keys();
        let mut names: Vec<String> = Vec::new();
        let mut i: usize = 0;
        while i < self.units.len()
            invariant
                i <= keys.len(),
                keys == self.units.keys(),
                text::views(names@) == keys.take(i as int),
            decreases keys.len() - i,
        {
            let ghost prior = text::views(names@);
            names.push(self.units.key_at(i).clone());
            assert(text::views(names@) =~= prior.push(keys[i as int]));
            assert(keys.take(i + 1) =~= keys.take(i as int).push(keys[i as int]));
            i += 1;
        }
        assert(keys.take(i as int) =~= keys);
        names
    }

    /// Clear the failures that a client asks to be cleared: those of the named
    /// units, or of all where it names none. The names it comes to, whose
    /// control groups may be stale now.
    pub fn apply_reset_failed_request(&mut self, requested: Vec<String>) -> (r: Vec<String>)
        requires
            old(self).wf(),
        ensures
            final(self).wf(),
            *final(self) == (Manager {
                units: final(self).units,
                restart_pending: final(self).restart_pending,
                ..*old(self)
            }),
            text::views(r@) == if requested@.len() == 0 {
                old(self).units.keys()
            } else {
                text::views(requested@)
            },
            final(self).records() == failures_cleared(old(self).records(), text::views(requested@)),
            final(self).restart_pending@ == old(self).restart_pending@.remove_keys(text::views(r@).to_set()),
    {
        let ghost before = *self;
        let ghost units = before.records();
        let ghost asked = text::views(requested@);
        let names = if requested.len() == 0 {
            self.unit_names()
        } else {
            requested
        };
        let ghost all = text::views(names@);
        let mut i: usize = 0;
        proof {
            assert(all.take(0).to_set() =~= Set::<Seq<char>>::empty());
            assert(self.restart_pending@ =~= before.restart_pending@.remove_keys(all.take(0).to_set()));
        }
        while i < names.len()
            invariant
                i <= names@.len(),
                all == text::views(names@),
                self.wf(),
                units == before.records(),
                *self == (Manager { units: self.units, restart_pending: self.restart_pending, ..before }),
                self.records().dom() == units.dom(),
                forall|name: Seq<char>|
                    #[trigger] self.records().dom().contains(name) ==> self.records()[name] == if all.take(
                        i as int,
                    ).contains(name) {
                        failure_cleared(units[name])
                    } else {
                        units[name]
                    },
                self.restart_pending@ == before.restart_pending@.remove_keys(all.take(i as int).to_set()),
            decreases names@.len() - i,
        {
            let ghost prior = self.records();
            let ghost pending = self.restart_pending@;
            let ghost done = all.take(i as int);
            let ghost next = all.take(i + 1);
            let ghost name = all[i as int];
            self.reset_one(names[i].as_str());
            proof {
                assert(next =~= done.push(name));
                assert forall|n: Seq<char>| #[trigger] next.contains(n) <==> done.contains(n) || n == name by {
                    if done.contains(n) {
                        let k = choose|k: int| 0 <= k < done.len() && done[k] == n;
                        assert(next[k] == n);
                    }
                    if next.contains(n) {
                        let k = choose|k: int| 0 <= k < next.len() && next[k] == n;
                        if k < i {
                            assert(done[k] == n);
                        }
                    }
                    assert(next[i as int] == name);
                }
                assert(next.to_set() =~= done.to_set().insert(name));
                assert(self.restart_pending@ =~= before.restart_pending@.remove_keys(next.to_set()));
                assert(self.records().dom() =~= units.dom());
                assert forall|n: Seq<char>| #[trigger] self.records().dom().contains(n) implies self.records()[n]
                    == if next.contains(n) {
                    failure_cleared(units[n])
                } else {
                    units[n]
                } by {
                    assert(prior.dom().contains(n));
                    assert(next.contains(n) <==> done.contains(n) || n == name);
                    if n == name && done.contains(n) {
                        assert(failure_cleared(failure_cleared(units[n])) == failure_cleared(units[n]));
                    }
                }
            }
            i += 1;
        }
        proof {
            assert(all.take(i as int) =~= all);
            let want = failures_cleared(units, asked);
            before.units.lemma_keys();
            assert forall|n: Seq<char>| self.records().dom().contains(n) implies self.records()[n] == want[n] by {
                assert(before.units@.dom().contains(n));
                assert(asked.len() == 0 ==> all.contains(n));
            }
            assert(self.records() =~= want);
        }
        names
    }
}

/// Of the units that are loaded, an isolation stops exactly those that run or
/// have failed and that it does not keep.
pub proof fn law_isolation_stops_the_rest(
    before: Manager,
    after: Manager,
    job_id: u32,
    target: Seq<char>,
    units: Map<Seq<char>, RecordView>,
    order: Seq<Seq<char>>,
    name: Seq<char>,
)
    requires
        after.wf(),
        isolation_queued(before, after, job_id, target, units, order),
    ensures
        ({
            let stop = JobView { id: 0, kind: JobKind::Stop, unit: name };
            let added = after.job_queue@.skip(before.job_queue@.len() as int);
            added.contains(stop) <==> after.records().dom().contains(name) && !is_kept(units, order, name) && is_stoppable(
                after.records()[name].state,
            )
        }),
{
    let stop = JobView { id: 0, kind: JobKind::Stop, unit: name };
    let keys = after.units.keys();
    let wanted = |name: Seq<char>| !is_kept(units, order, name) && is_stoppable(after.records()[name].state);
    let stops = keys.filter(wanted);
    let added = after.job_queue@.skip(before.job_queue@.len() as int);
    assert(added =~= internal_jobs(JobKind::Stop, stops) + internal_jobs(JobKind::Start, order));
    after.units.lemma_keys();
    assert(after.units@.dom().contains(name) <==> keys.contains(name));
    assert(after.records().dom().contains(name) <==> after.units@.dom().contains(name));
    if added.contains(stop) {
        let k = choose|k: int| 0 <= k < added.len() && added[k] == stop;
        assert(k < stops.len()) by {
            if k >= stops.len() {
                assert(added[k] == internal_jobs(JobKind::Start, order)[k - stops.len()]);
                assert(added[k].kind == JobKind::Start);
            }
        }
        assert(stops[k] == name);
        assert(stops.contains(name));
        keys.lemma_filter_contains_rev(wanted, name);
        assert(wanted(name)) by {
            keys.lemma_filter_pred(wanted, k);
        }
    }
    if keys.contains(name) && wanted(name) {
        let k = choose|k: int| 0 <= k < keys.len() && keys[k] == name;
        keys.lemma_filter_contains(wanted, k);
        let j = choose|j: int| 0 <= j < stops.len() && stops[j] == name;
        assert(added[j] == stop);
    }
}

/// The order in which units start is the start order of what is loaded and
/// what was loaded for it.
pub proof fn law_units_start_in_the_start_order(
    units: Map<Seq<char>, RecordView>,
    known: Map<Seq<char>, DepUnit<'_>>,
    loaded: Map<Seq<char>, LoadedUnit>,
    target: Seq<char>,
)
    requires
        known.dom() == units.dom(),
        forall|name: Seq<char>| #[trigger] units.dom().contains(name) ==> known[name].loaded.section() == units[name].loaded.section(),
    ensures
        order_for(units, loaded, target) == start_order(known, loaded, target, false),
{
    assert(known_sections(known) =~= sections_of(units));
    assert(graph(known, loaded, false) == (Graph { units: loaded_sections(loaded).union_prefer_right(sections_of(units)), lenient: false }));
}

/// Loading adds a unit that was not there, at rest and as it was loaded, and
/// changes none that was.
pub proof fn law_loading_adds_what_was_missing(
    units: Map<Seq<char>, RecordView>,
    loaded: Map<Seq<char>, LoadedUnit>,
    names: Seq<Seq<char>>,
    name: Seq<char>,
    one: Option<LoadedUnit>,
    other: Seq<char>,
)
    ensures
        ({
            let all = with_all_loaded(units, loaded, names);
            &&& all.dom().contains(name) <==> units.dom().contains(name) || (names.contains(name) && loaded.dom().contains(name))
            &&& units.dom().contains(name) ==> all[name] == units[name]
            &&& all.dom().contains(name) && !units.dom().contains(name) ==> all[name].loaded == loaded[name] && all[name].state is Inactive
                && all[name].active_pid is None && all[name].control_pid is None
        }),
        ({
            let after = with_loaded(units, name, one);
            &&& after.dom().contains(name) <==> units.dom().contains(name) || one is Some
            &&& units.dom().contains(name) ==> after == units
            &&& !units.dom().contains(name) && one is Some ==> after[name].loaded == one->0 && after[name].state is Inactive
                && after[name].active_pid is None && after[name].control_pid is None
            &&& other != name ==> (after.dom().contains(other) <==> units.dom().contains(other)) && after[other] == units[other]
        }),
{
}

proof fn lemma_starts_installed(v: JobRegistryView, names: Seq<Seq<char>>)
    requires
        v.next_id + names.len() <= u32::MAX,
    ensures
        ({
            let w = starts_installed(v, names);
            &&& w.next_id == v.next_id + names.len()
            &&& w.events.len() == v.events.len() + names.len()
            &&& v.events.is_prefix_of(w.events)
            &&& w.edges == v.edges
            &&& w.owners == v.owners
            &&& forall|id: u32| id < v.next_id ==> (#[trigger] w.live.dom().contains(id) <==> v.live.dom().contains(id)) && w.live[id] == v.live[id]
            &&& forall|i: int|
                0 <= i < names.len() ==> #[trigger] w.live.dom().contains((v.next_id + i) as u32) && w.live[(v.next_id + i) as u32] == (
                crate::job::JobInfoView {
                    id: (v.next_id + i) as u32,
                    kind: JobKind::Start,
                    unit: names[i],
                    state: crate::job::JobState::Waiting,
                })
        }),
    decreases names.len(),
{
    if names.len() > 0 {
        let front = names.drop_last();
        lemma_starts_installed(v, front);
        let u = starts_installed(v, front);
        let w = starts_installed(v, names);
        assert(w == installed(u, JobKind::Start, names.last(), None));
        assert(v.events.is_prefix_of(w.events)) by {
            assert forall|k: int| 0 <= k < v.events.len() implies v.events[k] == w.events[k] by {
                assert(u.events[k] == w.events[k]);
            }
            assert(v.events =~= w.events.subrange(0, v.events.len() as int));
        }
        assert forall|i: int|
            0 <= i < names.len() implies #[trigger] w.live.dom().contains((v.next_id + i) as u32) && w.live[(v.next_id + i) as u32] == (
            crate::job::JobInfoView {
                id: (v.next_id + i) as u32,
                kind: JobKind::Start,
                unit: names[i],
                state: crate::job::JobState::Waiting,
            }) by {
            if i < front.len() {
                assert(u.live.dom().contains((v.next_id + i) as u32));
                assert(front[i] == names[i]);
            }
        }
    } else {
        assert(v.events =~= v.events.subrange(0, v.events.len() as int));
    }
}

/// A start makes one exported start job for each unit of its order, in that
/// order, with the identifiers that follow; each is queued and waits. Earlier
/// jobs stay as they are.
pub proof fn law_a_start_queues_one_job_for_each_unit(v: JobRegistryView, names: Seq<Seq<char>>, i: int, earlier: u32)
    requires
        v.next_id + names.len() <= u32::MAX,
        0 <= i < names.len(),
    ensures
        ({
            let w = starts_installed(v, names);
            let jobs = start_jobs(v.next_id, names);
            let id = (v.next_id + i) as u32;
            &&& jobs.len() == names.len()
            &&& jobs[i].id == v.next_id + i
            &&& jobs[i].kind is Start
            &&& jobs[i].unit == names[i]
            &&& w.next_id == v.next_id + names.len()
            &&& w.live.dom().contains(id)
            &&& w.live[id].kind is Start
            &&& w.live[id].unit == names[i]
            &&& w.live[id].state is Waiting
            &&& earlier < v.next_id ==> (w.live.dom().contains(earlier) <==> v.live.dom().contains(earlier)) && w.live[earlier]
                == v.live[earlier]
        }),
{
    lemma_starts_installed(v, names);
    let w = starts_installed(v, names);
    assert(w.live.dom().contains((v.next_id + i) as u32));
    assert(w.live.dom().contains(earlier) || true);
}

/// Only a target that permits it can be isolated.
pub proof fn law_what_can_be_isolated(units: Map<Seq<char>, RecordView>, target: Seq<char>)
    ensures
        ({
            let refused = isolation_refused(units, target);
            let there = units.dom().contains(target);
            let loaded = units[target].loaded;
            &&& refused is None <==> there && loaded is Target && loaded->Target_0.unit.allow_isolate
            &&& refused == Some(TransactionError::NotLoadable) <==> !there
            &&& refused == Some(TransactionError::NotATarget) <==> there && !(loaded is Target)
            &&& refused == Some(TransactionError::NotPermitted) <==> there && loaded is Target && !loaded->Target_0.unit.allow_isolate
        }),
{
}

/// An isolation stops, without exported jobs, exactly the units that are up, on
/// their way up or failed, that its order does not hold and that do not ask to
/// be left alone; then it starts the order. What was queued comes first. The
/// target is on its way up from then on, and no other unit changes.
pub proof fn law_an_isolation_leaves_only_its_order(
    before: Manager,
    after: Manager,
    job_id: u32,
    target: Seq<char>,
    units: Map<Seq<char>, RecordView>,
    order: Seq<Seq<char>>,
    name: Seq<char>,
    i: int,
)
    requires
        after.wf(),
        isolation_queued(before, after, job_id, target, units, order),
        units.dom().contains(target),
        order.contains(target),
    ensures
        ({
            let queue = after.job_queue@;
            let n = before.job_queue@.len() as int;
            let added = queue.skip(n);
            let stop = JobView { id: 0, kind: JobKind::Stop, unit: name };
            let state = units[name].state;
            &&& queue.take(n) == before.job_queue@
            &&& added.len() >= order.len()
            &&& 0 <= i < order.len() ==> added[added.len() - order.len() + i] == (JobView { id: 0, kind: JobKind::Start, unit: order[i] })
            &&& 0 <= i < added.len() - order.len() ==> added[i].kind is Stop && added[i].id == 0
            &&& added.contains(stop) <==> {
                &&& units.dom().contains(name)
                &&& !order.contains(name)
                &&& !units[name].loaded.section().ignore_on_isolate
                &&& state is Active || state is Activating || state is Failed
            }
            &&& after.records()[target].state is Activating
            &&& name != target ==> after.records()[name] == units[name]
            &&& after.records().dom() == units.dom()
            &&& job_id != 0 ==> after.isolate_jobs@.dom().contains(job_id) && (text::views(after.isolate_jobs@[job_id]@).contains(name) <==> {
                ||| order.contains(name)
                ||| units.dom().contains(name) && units[name].loaded.section().ignore_on_isolate
            })
        }),
{
    law_isolation_stops_the_rest(before, after, job_id, target, units, order, name);
    let queue = after.job_queue@;
    let n = before.job_queue@.len() as int;
    let added = queue.skip(n);
    let stops = after.units.keys().filter(
        |name: Seq<char>| !is_kept(units, order, name) && is_stoppable(after.records()[name].state),
    );
    assert(queue.take(n) =~= before.job_queue@);
    assert(added =~= internal_jobs(JobKind::Stop, stops) + internal_jobs(JobKind::Start, order));
    assert(after.records().dom() =~= units.dom());
}

/// Clearing failures clears those of the named units, or of all where none is
/// named, and changes no other unit.
pub proof fn law_failures_are_cleared_where_asked(units: Map<Seq<char>, RecordView>, names: Seq<Seq<char>>, name: Seq<char>)
    ensures
        failures_cleared(units, names).dom() == units.dom(),
        units.dom().contains(name) && (names.len() == 0 || names.contains(name)) ==> failures_cleared(units, names)[name]
            == failure_cleared(units[name]),
        units.dom().contains(name) && names.len() > 0 && !names.contains(name) ==> failures_cleared(units, names)[name] == units[name],
{
    assert(failures_cleared(units, names).dom() =~= units.dom());
}

/// Jobs of the manager's own have no number; there is one for each name, in
/// their order.
pub proof fn law_own_jobs_have_no_number(kind: JobKind, names: Seq<Seq<char>>, i: int)
    requires
        0 <= i < names.len(),
    ensures
        internal_jobs(kind, names).len() == names.len(),
        internal_jobs(kind, names)[i].id == 0,
        internal_jobs(kind, names)[i].kind == kind,
        internal_jobs(kind, names)[i].unit == names[i],
{
}

} // verus!
