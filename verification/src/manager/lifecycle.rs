//! The life cycle of the manager: startup, reload, shutdown, and when it is
//! idle.

use vstd::prelude::*;

use crate::event::loop_::LoopResult;
use crate::job::{still_current, JobInfoView, JobKind};
use crate::manager::records::{elapsed, elapsed_ns, stands_for, target_dependency_snapshot};
use crate::manager::transactions::{
    internal_jobs, is_stoppable, isolation_queued, isolation_refused, order_for, with_all_loaded, with_loaded,
};
use crate::manager::{
    lemma_views_insert, unit_views, DualTimestamp, Lifecycle, Manager, ShutdownAction,
};
use crate::names::NameMap;
use crate::service::{RecordView, UnitRecord};
use crate::text;
use crate::unit::{LoadedUnit, UnitState};

verus! {

/// What clients asked of the manager itself.
#[derive(Debug, Clone, Copy, PartialEq, Eq, Structural)]
pub enum LifecycleStep {
    /// Nothing that ends it now.
    Stay,
    /// End the loop.
    Return(LoopResult),
    /// Stop everything first.
    Shutdown(LoopResult),
}

/// The transition that a shutdown ends in.
pub open spec fn shutdown_result(action: ShutdownAction) -> Option<LoopResult> {
    match action {
        ShutdownAction::Nothing => None,
        ShutdownAction::Reboot => Some(LoopResult::Reboot),
        ShutdownAction::Poweroff => Some(LoopResult::Poweroff),
        ShutdownAction::Halt => Some(LoopResult::Halt),
        ShutdownAction::Kexec => Some(LoopResult::Kexec),
    }
}

/// What is asked of the manager. A shutdown under way comes first and waits
/// until everything has settled; then a re-execution, an exit, a shutdown.
pub open spec fn asked_step(l: Lifecycle, idle: bool) -> LifecycleStep {
    match l.pending_shutdown_result {
        Some(result) => if idle {
            LifecycleStep::Return(result)
        } else {
            LifecycleStep::Stay
        },
        None => if l.reexecute_requested {
            LifecycleStep::Return(LoopResult::Reexecute)
        } else if l.exit_requested {
            LifecycleStep::Return(LoopResult::Exit)
        } else {
            match shutdown_result(l.shutdown_action) {
                Some(result) => LifecycleStep::Shutdown(result),
                None => LifecycleStep::Stay,
            }
        },
    }
}

/// What is left of the requests once the first was taken.
pub open spec fn step_taken(l: Lifecycle, idle: bool) -> Lifecycle {
    match l.pending_shutdown_result {
        Some(_) => if idle {
            Lifecycle { pending_shutdown_result: None, ..l }
        } else {
            l
        },
        None => if l.reexecute_requested {
            Lifecycle { reexecute_requested: false, ..l }
        } else if l.exit_requested {
            Lifecycle { exit_requested: false, ..l }
        } else {
            Lifecycle { shutdown_action: ShutdownAction::Nothing, ..l }
        },
    }
}

/// No unit is on its way up or down.
pub open spec fn is_settled(units: Map<Seq<char>, RecordView>) -> bool {
    forall|name: Seq<char>| #[trigger] units.dom().contains(name) ==> units[name].state != UnitState::Activating
        && units[name].state != UnitState::Deactivating
}

/// Nothing is left to do: no job waits or runs, no unit is to be loaded, and
/// no unit is on its way.
pub open spec fn idle(m: Manager, loads_pending: bool) -> bool {
    &&& still_current(m.job_registry@, m.job_queue@).len() == 0
    &&& still_current(m.job_registry@, m.shared_queue@).len() == 0
    &&& !loads_pending
    &&& m.job_registry@.live == Map::<u32, JobInfoView>::empty()
    &&& is_settled(m.records())
}

/// The life cycle after a shutdown began: when, is noted once.
pub open spec fn shutdown_begun(l: Lifecycle, now: DualTimestamp) -> Lifecycle {
    if l.shutdown_start.realtime_ns == 0 {
        Lifecycle { shutdown_start: now, ..l }
    } else {
        l
    }
}

/// Whether a result is a transition of the whole machine.
pub open spec fn is_machine_transition(result: LoopResult) -> bool {
    result == LoopResult::Reboot || result == LoopResult::Poweroff || result == LoopResult::Halt || result == LoopResult::Kexec
}

/// Whole microseconds between two readings of the monotonic clock, zero where
/// it ran backwards.
pub open spec fn startup_usec(finish: i64, start: i64) -> int {
    if elapsed(finish, start) < 0 {
        0
    } else {
        elapsed(finish, start) / 1_000
    }
}

impl Manager {
    /// True when no unit is on its way up or down.
    pub fn all_settled(&self) -> (r: bool)
        requires
            self.wf(),
        ensures
            r == is_settled(self.records()),
    {
        let ghost units = self.records();
        let ghost keys = self.units.keys();
        let mut i: usize = 0;
        while i < self.units.len()
            invariant
                self.wf(),
                units == self.records(),
                keys == self.units.keys(),
                i <= keys.len(),
                forall|k: int|
                    0 <= k < i ==> (#[trigger] units[keys[k]]).state != UnitState::Activating && units[keys[k]].state
                        != UnitState::Deactivating,
            decreases keys.len() - i,
        {
            let state = self.units.value_at(i).state;
            assert(units.dom().contains(keys[i as int]));
            if state == UnitState::Activating || state == UnitState::Deactivating {
                return false;
            }
            i += 1;
        }
        proof {
            self.units.lemma_keys();
            assert forall|name: Seq<char>| #[trigger] units.dom().contains(name) implies units[name].state
                != UnitState::Activating && units[name].state != UnitState::Deactivating by {
                assert(self.units@.dom().contains(name));
                assert(keys.contains(name));
                let k = choose|k: int| 0 <= k < keys.len() && keys[k] == name;
                assert(units[keys[k]] == units[name]);
            }
        }
        true
    }

    /// Whether nothing is left to do.
    pub fn is_idle(&self, loads_pending: bool) -> (r: bool)
        requires
            self.wf(),
        ensures
            r == idle(*self, loads_pending),
    {
        self.job_queue.is_empty(&self.job_registry) && self.shared_queue.is_empty(&self.job_registry) && !loads_pending
            && self.job_registry.is_empty() && self.all_settled()
    }

    /// What clients asked of the manager itself.
    pub fn requested_lifecycle_result(&mut self, loads_pending: bool) -> (r: LifecycleStep)
        requires
            old(self).wf(),
        ensures
            final(self).wf(),
            *final(self) == (Manager { lifecycle: final(self).lifecycle, ..*old(self) }),
            r == asked_step(old(self).lifecycle, idle(*old(self), loads_pending)),
            final(self).lifecycle == step_taken(old(self).lifecycle, idle(*old(self), loads_pending)),
    {
        if let Some(result) = self.lifecycle.pending_shutdown_result {
            if self.is_idle(loads_pending) {
                self.lifecycle.pending_shutdown_result = None;
                return LifecycleStep::Return(result);
            }
            return LifecycleStep::Stay;
        }
        if self.lifecycle.reexecute_requested {
            self.lifecycle.reexecute_requested = false;
            return LifecycleStep::Return(LoopResult::Reexecute);
        }
        if self.lifecycle.exit_requested {
            self.lifecycle.exit_requested = false;
            return LifecycleStep::Return(LoopResult::Exit);
        }
        let action = self.lifecycle.shutdown_action;
        self.lifecycle.shutdown_action = ShutdownAction::Nothing;
        match action {
            ShutdownAction::Nothing => LifecycleStep::Stay,
            ShutdownAction::Reboot => LifecycleStep::Shutdown(LoopResult::Reboot),
            ShutdownAction::Poweroff => LifecycleStep::Shutdown(LoopResult::Poweroff),
            ShutdownAction::Halt => LifecycleStep::Shutdown(LoopResult::Halt),
            ShutdownAction::Kexec => LifecycleStep::Shutdown(LoopResult::Kexec),
        }
    }

    /// Note when a shutdown began, once.
    pub fn capture_shutdown_start_timestamp(&mut self, now: DualTimestamp)
        requires
            old(self).wf(),
        ensures
            final(self).wf(),
            *final(self) == (Manager { lifecycle: shutdown_begun(old(self).lifecycle, now), ..*old(self) }),
    {
        if self.lifecycle.shutdown_start.realtime_ns == 0 {
            self.lifecycle.shutdown_start = now;
        }
    }

    /// Begin to stop everything before a transition. The transition, if
    /// everything has settled already; else it is held until then.
    pub fn queue_shutdown_transaction(
        &mut self,
        result: LoopResult,
        now: DualTimestamp,
        target_loaded: Option<LoadedUnit>,
        loaded: NameMap<LoadedUnit>,
        loads_pending: bool,
    ) -> (r: Option<LoopResult>)
        requires
            old(self).wf(),
            loaded.wf(),
        ensures
            final(self).wf(),
            *final(self) == (Manager {
                units: final(self).units,
                job_queue: final(self).job_queue,
                isolate_jobs: final(self).isolate_jobs,
                lifecycle: final(self).lifecycle,
                ..*old(self)
            }),
            final(self).isolate_jobs@ == old(self).isolate_jobs@,
            exists|begun: Manager|
                #![trigger idle(begun, loads_pending)]
                shutdown_queued(*old(self), begun, target_loaded, loaded@) && *final(self) == (Manager {
                    lifecycle: final(self).lifecycle,
                    ..begun
                }) && r == (if idle(begun, loads_pending) {
                    Some(result)
                } else {
                    None
                }) && final(self).lifecycle == (Lifecycle {
                    pending_shutdown_result: if idle(begun, loads_pending) {
                        None
                    } else {
                        Some(result)
                    },
                    ..shutdown_begun(old(self).lifecycle, now)
                }),
    {
        let ghost before = *self;
        let ghost given = loaded@;
        self.begin_shutdown_transaction(target_loaded, loaded);
        let ghost begun = *self;
        assert(shutdown_queued(before, begun, target_loaded, given));
        let settled = self.is_idle(loads_pending);
        self.capture_shutdown_start_timestamp(now);
        self.lifecycle.pending_shutdown_result = if settled {
            None
        } else {
            Some(result)
        };
        assert(idle(begun, loads_pending) == settled);
        if settled {
            Some(result)
        } else {
            None
        }
    }

    /// Announce the end of startup once, when the initial jobs have finished
    /// and every unit has settled: how many microseconds it took.
    pub fn publish_startup_finished_if_ready(&mut self, realtime: Option<i64>, monotonic: Option<i64>) -> (r: Option<u64>)
        requires
            old(self).wf(),
        ensures
            final(self).wf(),
            *final(self) == (Manager { lifecycle: final(self).lifecycle, ..*old(self) }),
            if !old(self).lifecycle.startup_finished_emitted && idle(*old(self), false) {
                let start = old(self).lifecycle.startup_monotonic_ns;
                let finish = DualTimestamp {
                    realtime_ns: match realtime {
                        Some(ns) => ns,
                        None => 0,
                    },
                    monotonic_ns: match monotonic {
                        Some(ns) => ns,
                        None => start,
                    },
                };
                &&& r matches Some(usec) && usec == startup_usec(finish.monotonic_ns, start)
                &&& final(self).lifecycle == (Lifecycle {
                    startup_finished_emitted: true,
                    finish,
                    ..old(self).lifecycle
                })
            } else {
                r is None && *final(self) == *old(self)
            },
    {
        if self.lifecycle.startup_finished_emitted || !self.is_idle(false) {
            return None;
        }
        let start = self.lifecycle.startup_monotonic_ns;
        let realtime_ns: i64 = match realtime {
            Some(ns) => ns,
            None => 0,
        };
        let monotonic_ns: i64 = match monotonic {
            Some(ns) => ns,
            None => start,
        };
        self.lifecycle.startup_finished_emitted = true;
        self.lifecycle.finish = DualTimestamp { realtime_ns, monotonic_ns };
        let taken = elapsed_ns(monotonic_ns, start);
        if taken < 0 {
            Some(0)
        } else {
            Some(taken as u64 / 1_000)
        }
    }

    /// Begin to read the unit files again, if a client asked for it. Whether
    /// to.
    pub fn begin_reload(&mut self, now: DualTimestamp) -> (r: bool)
        requires
            old(self).wf(),
        ensures
            final(self).wf(),
            r == old(self).lifecycle.reload_requested,
            *final(self) == (Manager { lifecycle: final(self).lifecycle, ..*old(self) }),
            final(self).lifecycle == if r {
                Lifecycle {
                    reload_requested: false,
                    units_load: now,
                    reload_count: if old(self).lifecycle.reload_count == u64::MAX {
                        u64::MAX
                    } else {
                        (old(self).lifecycle.reload_count + 1) as u64
                    },
                    ..old(self).lifecycle
                }
            } else {
                old(self).lifecycle
            },
    {
        if !self.lifecycle.reload_requested {
            return false;
        }
        self.lifecycle.reload_requested = false;
        self.lifecycle.units_load = now;
        if self.lifecycle.reload_count < u64::MAX {
            self.lifecycle.reload_count = self.lifecycle.reload_count + 1;
        }
        true
    }

    /// Take the settings of a loaded unit that were read again; its state and
    /// processes stay.
    pub fn unit_reloaded(&mut self, name: &str, loaded: LoadedUnit)
        requires
            old(self).wf(),
        ensures
            final(self).wf(),
            *final(self) == (Manager { units: final(self).units, ..*old(self) }),
            final(self).records() == if old(self).records().dom().contains(name@) {
                old(self).records().insert(name@, RecordView { loaded, ..old(self).records()[name@] })
            } else {
                old(self).records()
            },
    {
        let ghost before = *self;
        let ghost given = loaded;
        if let Some(record) = self.units.get_mut(name) {
            record.loaded = loaded;
        }
        proof {
            if before.units@.dom().contains(name@) {
                lemma_views_insert(before.units@, name@, self.units@[name@]);
            }
        }
    }

    /// Note when the first dependency closure begins to load. Whether it is
    /// the first.
    pub fn begin_units_load(&mut self, now: DualTimestamp) -> (r: bool)
        requires
            old(self).wf(),
        ensures
            final(self).wf(),
            r == (old(self).lifecycle.units_load_start.realtime_ns == 0),
            *final(self) == (Manager { lifecycle: final(self).lifecycle, ..*old(self) }),
            final(self).lifecycle == if r {
                Lifecycle { units_load_start: now, ..old(self).lifecycle }
            } else {
                old(self).lifecycle
            },
    {
        let first = self.lifecycle.units_load_start.realtime_ns == 0;
        if first {
            self.lifecycle.units_load_start = now;
        }
        first
    }

    /// Note when the first dependency closure was loaded.
    pub fn end_units_load(&mut self, now: DualTimestamp)
        requires
            old(self).wf(),
        ensures
            final(self).wf(),
            *final(self) == (Manager {
                lifecycle: Lifecycle { units_load_finish: now, ..old(self).lifecycle },
                ..*old(self)
            }),
    {
        self.lifecycle.units_load_finish = now;
    }

    /// The targets that are on their way up.
    pub fn activating_targets(&self) -> (r: Vec<String>)
        requires
            self.wf(),
        ensures
            text::views(r@) == self.units.keys().filter(
                |name: Seq<char>| self.records()[name].loaded is Target && self.records()[name].state == UnitState::Activating,
            ),
    {
        let ghost units = self.records();
        let ghost keys = self.units.keys();
        let ghost wanted = |name: Seq<char>| units[name].loaded is Target && units[name].state == UnitState::Activating;
        let mut out: Vec<String> = Vec::new();
        let mut i: usize = 0;
        proof {
            assert(keys.take(0) =~= Seq::<Seq<char>>::empty());
            reveal_with_fuel(Seq::filter, 1);
            assert(text::views(out@) =~= keys.take(0).filter(wanted));
        }
        while i < self.units.len()
            invariant
                self.wf(),
                units == self.records(),
                keys == self.units.keys(),
                wanted == (|name: Seq<char>| units[name].loaded is Target && units[name].state == UnitState::Activating),
                i <= keys.len(),
                text::views(out@) == keys.take(i as int).filter(wanted),
            decreases keys.len() - i,
        {
            let name = self.units.key_at(i);
            let record = self.units.value_at(i);
            let ghost prior = out@;
            proof {
                assert(keys.take(i + 1) =~= keys.take(i as int).push(name@));
                keys.take(i as int).lemma_filter_push(name@, wanted);
            }
            let target = match &record.loaded {
                LoadedUnit::Target(_) => true,
                _ => false,
            };
            if target && record.state == UnitState::Activating {
                out.push(name.clone());
                assert(text::views(out@) =~= text::views(prior).push(name@));
            }
            i += 1;
        }
        assert(keys.take(i as int) =~= keys);
        assert(wanted =~= |name: Seq<char>|
            self.records()[name].loaded is Target && self.records()[name].state == UnitState::Activating);
        out
    }

    /// What a target sees of the other units while it waits for them.
    pub fn other_units(&self, name: &str) -> (r: NameMap<UnitRecord>)
        requires
            self.wf(),
        ensures
            r.wf(),
            unit_views(r).dom() == self.records().dom().remove(name@),
            forall|other: Seq<char>| #[trigger] unit_views(r).dom().contains(other) ==> stands_for(
                unit_views(r)[other],
                self.records()[other],
            ),
    {
        let ghost units = self.records();
        let ghost keys = self.units.keys();
        let mut out: NameMap<UnitRecord> = NameMap::new();
        let mut i: usize = 0;
        while i < self.units.len()
            invariant
                self.wf(),
                out.wf(),
                units == self.records(),
                keys == self.units.keys(),
                i <= keys.len(),
                forall|other: Seq<char>|
                    #[trigger] out@.dom().contains(other) <==> other != name@ && exists|k: int|
                        0 <= k < i && #[trigger] keys[k] == other,
                forall|other: Seq<char>| #[trigger] out@.dom().contains(other) ==> stands_for(out@[other]@, units[other]),
            decreases keys.len() - i,
        {
            let key = self.units.key_at(i);
            let ghost prior = out@;
            if !text::same(key.as_str(), name) {
                let snapshot = target_dependency_snapshot(self.units.value_at(i));
                out.insert(key.clone(), snapshot);
            }
            assert forall|other: Seq<char>| #[trigger] out@.dom().contains(other) <==> other != name@ && exists|k: int|
                0 <= k < i + 1 && #[trigger] keys[k] == other by {
                assert(prior.dom().contains(other) || true);
                assert(keys[i as int] == key@);
            }
            i += 1;
        }
        proof {
            self.units.lemma_keys();
            assert(unit_views(out).dom() =~= units.dom().remove(name@)) by {
                assert forall|other: Seq<char>| unit_views(out).dom().contains(other) <==> units.dom().remove(name@).contains(
                    other,
                ) by {
                    assert(out@.dom().contains(other) <==> other != name@ && exists|k: int|
                        0 <= k < keys.len() && #[trigger] keys[k] == other);
                    assert(self.units@.dom().contains(other) <==> keys.contains(other));
                    if keys.contains(other) {
                        let k = choose|k: int| 0 <= k < keys.len() && keys[k] == other;
                        assert(keys[k] == other);
                    }
                }
            }
        }
        out
    }
}

/// Whether `begun` is `before` with the stop of everything queued.
pub open spec fn shutdown_queued(
    before: Manager,
    begun: Manager,
    target_loaded: Option<LoadedUnit>,
    loaded: Map<Seq<char>, LoadedUnit>,
) -> bool {
    let units = with_loaded(before.records(), "shutdown.target"@, target_loaded);
    let order = order_for(units, loaded, "shutdown.target"@);
    if isolation_refused(units, "shutdown.target"@) is None && order is Ok {
        isolation_queued(
            before,
            begun,
            0,
            "shutdown.target"@,
            with_all_loaded(units, loaded, order->Ok_0),
            order->Ok_0,
        )
    } else {
        &&& begun.records() == units
        &&& begun.job_queue@ == before.job_queue@ + internal_jobs(
            JobKind::Stop,
            begun.units.keys().filter(
                |name: Seq<char>| is_stoppable(units[name].state),
            ),
        )
    }
}

/// The start of a shutdown is noted once: a later shutdown does not move it.
pub proof fn law_shutdown_start_is_noted_once(l: Lifecycle, first: DualTimestamp, second: DualTimestamp)
    requires
        first.realtime_ns != 0,
    ensures
        shutdown_begun(shutdown_begun(l, first), second) == shutdown_begun(l, first),
{
}

/// While a shutdown waits for the units, nothing else ends the manager.
pub proof fn law_shutdown_waits_for_units(l: Lifecycle)
    requires
        l.pending_shutdown_result is Some,
    ensures
        asked_step(l, false) == LifecycleStep::Stay,
        step_taken(l, false) == l,
        asked_step(l, true) == LifecycleStep::Return(l.pending_shutdown_result->0),
{
}

/// What the manager does about what it was asked. While a shutdown is pending it
/// waits until it is idle, and then makes the transition. Else a request to
/// execute again comes before one to exit, and that before a shutdown; a
/// shutdown first stops the units.
pub proof fn law_requests_are_taken_in_their_order(l: Lifecycle, idle: bool)
    ensures
        ({
            let step = asked_step(l, idle);
            let free = l.pending_shutdown_result is None;
            let plain = free && !l.reexecute_requested && !l.exit_requested;
            &&& !free && idle ==> step == LifecycleStep::Return(l.pending_shutdown_result->0)
            &&& !free && !idle ==> step is Stay
            &&& free && l.reexecute_requested ==> step == LifecycleStep::Return(LoopResult::Reexecute)
            &&& free && !l.reexecute_requested && l.exit_requested ==> step == LifecycleStep::Return(LoopResult::Exit)
            &&& plain && l.shutdown_action is Reboot ==> step == LifecycleStep::Shutdown(LoopResult::Reboot)
            &&& plain && l.shutdown_action is Poweroff ==> step == LifecycleStep::Shutdown(LoopResult::Poweroff)
            &&& plain && l.shutdown_action is Halt ==> step == LifecycleStep::Shutdown(LoopResult::Halt)
            &&& plain && l.shutdown_action is Kexec ==> step == LifecycleStep::Shutdown(LoopResult::Kexec)
            &&& plain && l.shutdown_action is Nothing ==> step is Stay
        }),
{
}

/// A request is taken once: what was acted on is no longer asked, and all else
/// that was asked stays asked.
pub proof fn law_requests_are_taken_once(l: Lifecycle, idle: bool)
    ensures
        ({
            let after = step_taken(l, idle);
            let acts = !(asked_step(l, idle) is Stay);
            &&& after == (Lifecycle {
                pending_shutdown_result: after.pending_shutdown_result,
                reexecute_requested: after.reexecute_requested,
                exit_requested: after.exit_requested,
                shutdown_action: after.shutdown_action,
                ..l
            })
            &&& !acts ==> after == l
            &&& acts && l.pending_shutdown_result is Some ==> after == (Lifecycle { pending_shutdown_result: None, ..l })
            &&& acts && l.pending_shutdown_result is None && l.reexecute_requested ==> after == (Lifecycle { reexecute_requested: false, ..l })
            &&& acts && l.pending_shutdown_result is None && !l.reexecute_requested && l.exit_requested ==> after == (Lifecycle {
                exit_requested: false,
                ..l
            })
            &&& acts && l.pending_shutdown_result is None && !l.reexecute_requested && !l.exit_requested ==> after == (Lifecycle {
                shutdown_action: ShutdownAction::Nothing,
                ..l
            })
        }),
{
}

/// The manager is idle exactly when no job is queued or live, none is being
/// loaded, and no unit is on its way up or down.
pub proof fn law_when_the_manager_is_idle(m: Manager, loads_pending: bool)
    ensures
        idle(m, loads_pending) <==> {
            &&& !loads_pending
            &&& still_current(m.job_registry@, m.job_queue@).len() == 0
            &&& still_current(m.job_registry@, m.shared_queue@).len() == 0
            &&& forall|id: u32| !m.job_registry@.live.dom().contains(id)
            &&& forall|name: Seq<char>| #[trigger] m.records().dom().contains(name) ==> !(m.records()[name].state is Activating) && !(
            m.records()[name].state is Deactivating)
        },
{
    let live = m.job_registry@.live;
    if forall|id: u32| !live.dom().contains(id) {
        assert(live =~= Map::<u32, JobInfoView>::empty());
    }
    if live == Map::<u32, JobInfoView>::empty() {
        assert forall|id: u32| !live.dom().contains(id) by {}
    }
}

/// The start of a shutdown is noted when nothing was noted before; nothing else
/// changes.
pub proof fn law_when_a_shutdown_began(l: Lifecycle, now: DualTimestamp)
    ensures
        l.shutdown_start.realtime_ns == 0 ==> shutdown_begun(l, now) == (Lifecycle { shutdown_start: now, ..l }),
        l.shutdown_start.realtime_ns != 0 ==> shutdown_begun(l, now) == l,
{
}

/// How long startup took, in whole microseconds; never less than none.
pub proof fn law_how_long_startup_took(finish: i64, start: i64)
    ensures
        finish < start ==> startup_usec(finish, start) == 0,
        finish >= start && finish - start <= i64::MAX ==> startup_usec(finish, start) * 1_000 <= finish - start < (startup_usec(
            finish,
            start,
        ) + 1) * 1_000,
{
}

/// A shutdown whose target cannot be isolated stops every unit that is up, on
/// its way up or failed, after what was queued before.
pub proof fn law_a_shutdown_stops_everything(
    before: Manager,
    begun: Manager,
    target_loaded: Option<LoadedUnit>,
    loaded: Map<Seq<char>, LoadedUnit>,
    name: Seq<char>,
)
    requires
        begun.wf(),
        shutdown_queued(before, begun, target_loaded, loaded),
        !before.records().dom().contains("shutdown.target"@),
        target_loaded is None,
    ensures
        begun.records() == before.records(),
        begun.job_queue@.take(before.job_queue@.len() as int) == before.job_queue@,
        ({
            let added = begun.job_queue@.skip(before.job_queue@.len() as int);
            let stop = crate::job::JobView { id: 0, kind: JobKind::Stop, unit: name };
            let state = before.records()[name].state;
            added.contains(stop) <==> before.records().dom().contains(name) && (state is Active || state is Activating || state is Failed)
        }),
{
    let units = before.records();
    let wanted = |name: Seq<char>| is_stoppable(units[name].state);
    let keys = begun.units.keys();
    let stops = keys.filter(wanted);
    let n = before.job_queue@.len() as int;
    let added = begun.job_queue@.skip(n);
    let stop = crate::job::JobView { id: 0, kind: JobKind::Stop, unit: name };
    assert(begun.job_queue@.take(n) =~= before.job_queue@);
    assert(added =~= internal_jobs(JobKind::Stop, stops));
    begun.units.lemma_keys();
    assert(begun.records().dom().contains(name) <==> keys.contains(name));
    if added.contains(stop) {
        let k = choose|k: int| 0 <= k < added.len() && added[k] == stop;
        assert(stops[k] == name);
        keys.lemma_filter_pred(wanted, k);
        assert(stops.contains(name));
        keys.lemma_filter_contains_rev(wanted, name);
    }
    if keys.contains(name) && wanted(name) {
        let i = choose|i: int| 0 <= i < keys.len() && keys[i] == name;
        keys.lemma_filter_contains(wanted, i);
        let k = choose|k: int| 0 <= k < stops.len() && stops[k] == name;
        assert(added[k] == stop);
    }
}

/// What brings the whole machine down: a reboot, switching it off, a halt, and
/// starting another kernel.
pub proof fn law_what_brings_the_machine_down(result: LoopResult)
    ensures
        is_machine_transition(result) <==> result is Reboot || result is Poweroff || result is Halt || result is Kexec,
        !is_machine_transition(result) <==> result is Continue || result is Exit || result is Reexecute,
{
}

/// Units are settled where none is on its way up or down.
pub proof fn law_when_units_are_settled(units: Map<Seq<char>, RecordView>, name: Seq<char>)
    ensures
        is_settled(units) && units.dom().contains(name) ==> units[name].state is Inactive || units[name].state is Active || units[name].state is Failed
            || units[name].state is Maintenance,
        units.dom().contains(name) && (units[name].state is Activating || units[name].state is Deactivating) ==> !is_settled(units),
        !is_settled(units) ==> exists|n: Seq<char>|
            #[trigger] units.dom().contains(n) && (units[n].state is Activating || units[n].state is Deactivating),
{
}

} // verus!
