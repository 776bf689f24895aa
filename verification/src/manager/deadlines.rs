//! Deadlines of services: start, stop and abort timeouts, watchdogs, and how
//! long the manager may sleep.

use vstd::prelude::*;

use crate::event::source::SourceId;
use crate::kill_context::KillOperation;
use crate::manager::dispatch::entry;
use crate::manager::records::{
    elapsed, elapsed_ns, expire_watchdog, forking_pid_file_pending, mark_timeout_deactivating,
    pid_file_pending, service_of, stop_timeout, timed_out, watchdog_expired, watchdog_fired,
    watchdog_interval, watchdog_interval_ns, NS_PER_SEC,
};
use crate::manager::{lemma_views_insert, Manager};
use crate::service::RecordView;
use crate::text;
use crate::unit::{LoadedUnit, ServiceSection, UnitState};

verus! {

/// What a service's timer is for.
#[derive(Debug, Clone, Copy, PartialEq, Eq, Structural)]
pub enum ServiceTimeoutPhase {
    Start,
    Stop,
    Abort,
}

/// What to do when a service has missed a deadline.
#[derive(Debug, Clone, Copy, PartialEq, Eq, Structural)]
pub enum DeadlineAction {
    /// Nothing: the deadline no longer applies.
    Nothing,
    /// Kill what is left.
    Kill,
    /// Signal the service; if anything was signalled, wait this long for it.
    Signal { operation: KillOperation, timeout: u128, phase: ServiceTimeoutPhase },
}

/// How it goes on after the signal.
#[derive(Debug, Clone, Copy, PartialEq, Eq, Structural)]
pub enum AfterSignal {
    /// There is nothing to wait for: the service is down.
    Finalize,
    /// Wait this long.
    Arm(u128, ServiceTimeoutPhase),
    /// Wait for the exit of what was killed.
    Wait,
}

/// How it goes on after `sent` signals were sent for `action`.
pub fn after_signal(action: DeadlineAction, sent: usize) -> (r: Option<AfterSignal>)
    ensures
        r == match action {
            DeadlineAction::Nothing => None,
            DeadlineAction::Kill => Some(
                if sent == 0 {
                    AfterSignal::Finalize
                } else {
                    AfterSignal::Wait
                },
            ),
            DeadlineAction::Signal { operation, timeout, phase } => Some(
                if sent == 0 {
                    AfterSignal::Finalize
                } else {
                    AfterSignal::Arm(timeout, phase)
                },
            ),
        },
{
    match action {
        DeadlineAction::Nothing => None,
        DeadlineAction::Kill => if sent == 0 {
            Some(AfterSignal::Finalize)
        } else {
            Some(AfterSignal::Wait)
        },
        DeadlineAction::Signal { operation: _, timeout, phase } => if sent == 0 {
            Some(AfterSignal::Finalize)
        } else {
            Some(AfterSignal::Arm(timeout, phase))
        },
    }
}

/// How long a service may take to stop, and to abort.
pub open spec fn abort_timeout(loaded: LoadedUnit, default_secs: u64) -> u128 {
    match service_of(loaded) {
        Some(section) => match section.timeout_abort_sec {
            Some(ns) => ns,
            None => stop_timeout(loaded, default_secs),
        },
        None => stop_timeout(loaded, default_secs),
    }
}

/// What to do when a service did not start in time: by `TimeoutStartFailureMode=`.
pub open spec fn start_deadline_action(loaded: LoadedUnit, mode: Seq<char>, default_secs: u64) -> DeadlineAction {
    if mode == "kill"@ {
        DeadlineAction::Kill
    } else if mode == "abort"@ {
        DeadlineAction::Signal {
            operation: KillOperation::Watchdog,
            timeout: abort_timeout(loaded, default_secs),
            phase: ServiceTimeoutPhase::Abort,
        }
    } else {
        DeadlineAction::Signal {
            operation: KillOperation::Terminate,
            timeout: stop_timeout(loaded, default_secs),
            phase: ServiceTimeoutPhase::Stop,
        }
    }
}

/// What to do when a service did not stop in time: by `TimeoutStopFailureMode=`.
pub open spec fn stop_deadline_action(loaded: LoadedUnit, mode: Seq<char>, default_secs: u64) -> DeadlineAction {
    if mode == "abort"@ {
        DeadlineAction::Signal {
            operation: KillOperation::Watchdog,
            timeout: abort_timeout(loaded, default_secs),
            phase: ServiceTimeoutPhase::Abort,
        }
    } else {
        DeadlineAction::Kill
    }
}

/// Whether a loaded unit is a service in `state`.
pub open spec fn is_service_in(units: Map<Seq<char>, RecordView>, name: Seq<char>, state: UnitState) -> bool {
    units.dom().contains(name) && service_of(units[name].loaded) is Some && units[name].state == state
}

/// What a missed start deadline makes of the registry, and what it asks for.
/// It applies to services that are on their way up.
pub open spec fn start_missed(m: Manager, name: Seq<char>) -> (Map<Seq<char>, RecordView>, DeadlineAction) {
    let units = m.records();
    if is_service_in(units, name, UnitState::Activating) {
        let r = units[name];
        (
            units.insert(name, timed_out(r, "timeout"@)),
            start_deadline_action(
                r.loaded,
                service_of(r.loaded)->0.timeout_start_failure_mode@,
                m.default_timeout_stop_sec,
            ),
        )
    } else {
        (units, DeadlineAction::Nothing)
    }
}

/// What a missed stop deadline makes of the registry, and what it asks for.
/// It applies to services that are on their way down.
pub open spec fn stop_missed(m: Manager, name: Seq<char>) -> (Map<Seq<char>, RecordView>, DeadlineAction) {
    let units = m.records();
    if is_service_in(units, name, UnitState::Deactivating) {
        let r = units[name];
        (
            units.insert(name, RecordView { service_result: "timeout"@, ..r }),
            stop_deadline_action(
                r.loaded,
                service_of(r.loaded)->0.timeout_stop_failure_mode@,
                m.default_timeout_stop_sec,
            ),
        )
    } else {
        (units, DeadlineAction::Nothing)
    }
}

/// What a missed abort deadline asks for.
pub open spec fn abort_missed(m: Manager, name: Seq<char>) -> DeadlineAction {
    if m.records().dom().contains(name) && m.records()[name].state == UnitState::Deactivating {
        DeadlineAction::Kill
    } else {
        DeadlineAction::Nothing
    }
}

/// The timer that a service waits for in a phase.
pub open spec fn armed(m: Manager, name: Seq<char>, phase: ServiceTimeoutPhase) -> Option<SourceId> {
    match phase {
        ServiceTimeoutPhase::Start => entry(m.start_timeouts@, name),
        ServiceTimeoutPhase::Stop | ServiceTimeoutPhase::Abort => entry(m.stop_timeouts@, name),
    }
}

/// What a timer that fired makes of the registry, and what it asks for.
/// Nothing where the service waits for another timer by now.
pub open spec fn timer_fired(m: Manager, name: Seq<char>, phase: ServiceTimeoutPhase, source: SourceId) -> (
    Map<Seq<char>, RecordView>,
    DeadlineAction,
) {
    if armed(m, name, phase) != Some(source) {
        (m.records(), DeadlineAction::Nothing)
    } else {
        deadline_missed(m, name, phase)
    }
}

/// What a missed deadline makes of the registry, and what it asks for.
pub open spec fn deadline_missed(m: Manager, name: Seq<char>, phase: ServiceTimeoutPhase) -> (
    Map<Seq<char>, RecordView>,
    DeadlineAction,
) {
    match phase {
        ServiceTimeoutPhase::Start => start_missed(m, name),
        ServiceTimeoutPhase::Stop => stop_missed(m, name),
        ServiceTimeoutPhase::Abort => (m.records(), abort_missed(m, name)),
    }
}

/// How a service is marked that was killed for good: a missed watchdog stays
/// one, everything else is a timeout.
pub open spec fn final_result(units: Map<Seq<char>, RecordView>, name: Seq<char>) -> Seq<char> {
    if units.dom().contains(name) && units[name].service_result == "watchdog"@ {
        "watchdog"@
    } else {
        "timeout"@
    }
}

/// Nanoseconds until a watchdog fires: never negative, and as far as the
/// clock's type reaches.
pub open spec fn watchdog_remaining(interval: i64, last: i64, now: i64) -> int {
    let due: int = if last + interval > i64::MAX {
        i64::MAX as int
    } else if last + interval < i64::MIN {
        i64::MIN as int
    } else {
        last + interval
    };
    let left = elapsed(due as i64, now);
    if left < 0 {
        0
    } else {
        left
    }
}

/// Nanoseconds until the watchdog of a unit fires, if it can.
pub open spec fn next_watchdog(r: RecordView, now: i64) -> Option<int> {
    match (watchdog_interval(r.loaded), r.watchdog_timestamp_ns) {
        (Some(interval), Some(last)) if !r.watchdog_triggered => Some(watchdog_remaining(interval, last, now)),
        _ => None,
    }
}

/// The longest that the manager sleeps, in nanoseconds.
pub const MAX_SLEEP_NS: i64 = 30_000_000_000;

/// How long it sleeps at most while a service's main process is awaited in a
/// file.
pub const PID_FILE_SLEEP_NS: i64 = 50_000_000;

/// Whether `ns` is the time until the first thing that is due.
pub open spec fn is_nearest(units: Map<Seq<char>, RecordView>, now: i64, ns: int) -> bool {
    &&& 0 <= ns <= MAX_SLEEP_NS
    &&& forall|name: Seq<char>| #[trigger] units.dom().contains(name) && pid_file_pending(units[name]) ==> ns <= PID_FILE_SLEEP_NS
    &&& forall|name: Seq<char>|
        #[trigger] units.dom().contains(name) && next_watchdog(units[name], now) is Some ==> ns <= next_watchdog(
            units[name],
            now,
        )->0
    &&& {
        ||| ns == MAX_SLEEP_NS
        ||| ns == PID_FILE_SLEEP_NS && exists|name: Seq<char>| #[trigger] units.dom().contains(name) && pid_file_pending(units[name])
        ||| exists|name: Seq<char>| #[trigger] units.dom().contains(name) && next_watchdog(units[name], now) == Some(ns)
    }
}

/// Whole milliseconds that cover `ns`.
pub open spec fn covering_ms(ns: int) -> int {
    (ns + 999_999) / 1_000_000
}

fn remaining_ns(interval: i64, last: i64, now: i64) -> (r: i64)
    ensures
        r == watchdog_remaining(interval, last, now),
{
    let wide: i128 = last as i128 + interval as i128;
    let due: i64 = if wide > i64::MAX as i128 {
        i64::MAX
    } else if wide < i64::MIN as i128 {
        i64::MIN
    } else {
        wide as i64
    };
    let left = elapsed_ns(due, now);
    if left < 0 {
        0
    } else {
        left
    }
}

/// Names in `keys` whose watchdog has expired, in order.
pub open spec fn expired_names(units: Map<Seq<char>, RecordView>, keys: Seq<Seq<char>>, now: i64) -> Seq<Seq<char>> {
    keys.filter(|name: Seq<char>| watchdog_expired(units[name], now))
}

/// The registry after every expired watchdog fired.
pub open spec fn all_fired(units: Map<Seq<char>, RecordView>, now: i64) -> Map<Seq<char>, RecordView> {
    units.map_values(
        |r: RecordView|
            if watchdog_expired(r, now) {
                watchdog_fired(r)
            } else {
                r
            },
    )
}

impl Manager {
    /// Take that a timer fired. Whether it counts: the timer must still be the
    /// one that the service waits for. It is spent either way.
    pub fn take_timeout(&mut self, name: &str, phase: ServiceTimeoutPhase, source: SourceId) -> (r: bool)
        requires
            old(self).wf(),
        ensures
            final(self).wf(),
            *final(self) == (Manager {
                start_timeouts: final(self).start_timeouts,
                stop_timeouts: final(self).stop_timeouts,
                ..*old(self)
            }),
            r == (armed(*old(self), name@, phase) == Some(source)),
            final(self).start_timeouts@ == if phase == ServiceTimeoutPhase::Start {
                old(self).start_timeouts@.remove(name@)
            } else {
                old(self).start_timeouts@
            },
            final(self).stop_timeouts@ == if phase == ServiceTimeoutPhase::Start {
                old(self).stop_timeouts@
            } else {
                old(self).stop_timeouts@.remove(name@)
            },
    {
        let waited = if phase == ServiceTimeoutPhase::Start {
            self.start_timeouts.remove(name)
        } else {
            self.stop_timeouts.remove(name)
        };
        match waited {
            Some(armed) => armed == source,
            None => false,
        }
    }

    fn abort_timeout_of(&self, service: &ServiceSection) -> (r: (u128, u128))
        ensures
            r.0 == (match service.timeout_stop_sec {
                Some(ns) => ns as int,
                None => self.default_timeout_stop_sec * NS_PER_SEC,
            }),
            r.1 == (match service.timeout_abort_sec {
                Some(ns) => ns,
                None => r.0,
            }),
    {
        let stop: u128 = match service.timeout_stop_sec {
            Some(ns) => ns,
            None => self.default_timeout_stop_sec as u128 * NS_PER_SEC,
        };
        let abort: u128 = match service.timeout_abort_sec {
            Some(ns) => ns,
            None => stop,
        };
        (stop, abort)
    }

    /// How long a service that missed its watchdog may take to abort.
    pub fn watchdog_abort_timeout(&self, name: &str) -> (r: u128)
        requires
            self.wf(),
        ensures
            r == (if self.records().dom().contains(name@) && service_of(self.records()[name@].loaded) is Some {
                abort_timeout(self.records()[name@].loaded, self.default_timeout_stop_sec) as int
            } else {
                self.default_timeout_stop_sec * NS_PER_SEC
            }),
    {
        if let Some(record) = self.units.get(name) {
            if let LoadedUnit::Service(service) = &record.loaded {
                return self.abort_timeout_of(&service.specific).1;
            }
        }
        self.default_timeout_stop_sec as u128 * NS_PER_SEC
    }

    /// A service did not start in time.
    pub fn apply_start_deadline(&mut self, name: &str) -> (r: DeadlineAction)
        requires
            old(self).wf(),
        ensures
            final(self).wf(),
            *final(self) == (Manager { units: final(self).units, ..*old(self) }),
            (final(self).records(), r) == start_missed(*old(self), name@),
    {
        let ghost before = *self;
        let action = match self.units.get(name) {
            Some(record) => {
                if record.state != UnitState::Activating {
                    return DeadlineAction::Nothing;
                }
                match &record.loaded {
                    LoadedUnit::Service(service) => {
                        let (stop, abort) = self.abort_timeout_of(&service.specific);
                        let mode = service.specific.timeout_start_failure_mode.as_str();
                        if text::same(mode, "kill") {
                            DeadlineAction::Kill
                        } else if text::same(mode, "abort") {
                            DeadlineAction::Signal {
                                operation: KillOperation::Watchdog,
                                timeout: abort,
                                phase: ServiceTimeoutPhase::Abort,
                            }
                        } else {
                            DeadlineAction::Signal {
                                operation: KillOperation::Terminate,
                                timeout: stop,
                                phase: ServiceTimeoutPhase::Stop,
                            }
                        }
                    },
                    _ => return DeadlineAction::Nothing,
                }
            },
            None => return DeadlineAction::Nothing,
        };
        if let Some(record) = self.units.get_mut(name) {
            mark_timeout_deactivating(record, "timeout");
        }
        proof {
            lemma_views_insert(before.units@, name@, self.units@[name@]);
        }
        action
    }

    /// A service did not stop in time.
    pub fn apply_stop_deadline(&mut self, name: &str) -> (r: DeadlineAction)
        requires
            old(self).wf(),
        ensures
            final(self).wf(),
            *final(self) == (Manager { units: final(self).units, ..*old(self) }),
            (final(self).records(), r) == stop_missed(*old(self), name@),
    {
        let ghost before = *self;
        let action = match self.units.get(name) {
            Some(record) => {
                if record.state != UnitState::Deactivating {
                    return DeadlineAction::Nothing;
                }
                match &record.loaded {
                    LoadedUnit::Service(service) => {
                        let (_, abort) = self.abort_timeout_of(&service.specific);
                        if text::same(service.specific.timeout_stop_failure_mode.as_str(), "abort") {
                            DeadlineAction::Signal {
                                operation: KillOperation::Watchdog,
                                timeout: abort,
                                phase: ServiceTimeoutPhase::Abort,
                            }
                        } else {
                            DeadlineAction::Kill
                        }
                    },
                    _ => return DeadlineAction::Nothing,
                }
            },
            None => return DeadlineAction::Nothing,
        };
        if let Some(record) = self.units.get_mut(name) {
            record.service_result = "timeout".to_owned();
        }
        proof {
            lemma_views_insert(before.units@, name@, self.units@[name@]);
        }
        action
    }

    /// A service did not abort in time.
    pub fn apply_abort_deadline(&self, name: &str) -> (r: DeadlineAction)
        requires
            self.wf(),
        ensures
            r == abort_missed(*self, name@),
    {
        match self.units.get(name) {
            Some(record) => if record.state == UnitState::Deactivating {
                DeadlineAction::Kill
            } else {
                DeadlineAction::Nothing
            },
            None => DeadlineAction::Nothing,
        }
    }

    /// What a timer that fired, and counts, asks for.
    pub fn apply_service_timeout_event(&mut self, name: &str, phase: ServiceTimeoutPhase, source: SourceId) -> (r: DeadlineAction)
        requires
            old(self).wf(),
        ensures
            final(self).wf(),
            *final(self) == (Manager {
                units: final(self).units,
                start_timeouts: final(self).start_timeouts,
                stop_timeouts: final(self).stop_timeouts,
                ..*old(self)
            }),
            (final(self).records(), r) == timer_fired(*old(self), name@, phase, source),
            final(self).start_timeouts@ == if phase == ServiceTimeoutPhase::Start {
                old(self).start_timeouts@.remove(name@)
            } else {
                old(self).start_timeouts@
            },
            final(self).stop_timeouts@ == if phase == ServiceTimeoutPhase::Start {
                old(self).stop_timeouts@
            } else {
                old(self).stop_timeouts@.remove(name@)
            },
    {
        if self.take_timeout(name, phase, source) {
            self.apply_deadline(name, phase)
        } else {
            DeadlineAction::Nothing
        }
    }

    /// Take that a deadline of a service was missed.
    pub fn apply_deadline(&mut self, name: &str, phase: ServiceTimeoutPhase) -> (r: DeadlineAction)
        requires
            old(self).wf(),
        ensures
            final(self).wf(),
            *final(self) == (Manager { units: final(self).units, ..*old(self) }),
            (final(self).records(), r) == deadline_missed(*old(self), name@, phase),
    {
        match phase {
            ServiceTimeoutPhase::Start => self.apply_start_deadline(name),
            ServiceTimeoutPhase::Stop => self.apply_stop_deadline(name),
            ServiceTimeoutPhase::Abort => self.apply_abort_deadline(name),
        }
    }

    /// How a service is marked that was killed for good.
    pub fn final_kill_result(&self, name: &str) -> (r: &'static str)
        requires
            self.wf(),
        ensures
            r@ == final_result(self.records(), name@),
    {
        if let Some(record) = self.units.get(name) {
            if text::same(record.service_result.as_str(), "watchdog") {
                return "watchdog";
            }
        }
        "timeout"
    }

    /// The timer within which a service must stop or abort was armed.
    pub fn stop_timeout_armed(&mut self, name: &str, source: SourceId)
        requires
            old(self).wf(),
        ensures
            final(self).wf(),
            *final(self) == (Manager { stop_timeouts: final(self).stop_timeouts, ..*old(self) }),
            final(self).stop_timeouts@ == old(self).stop_timeouts@.insert(name@, source),
    {
        self.stop_timeouts.insert(name.to_owned(), source);
    }

    /// Fire every watchdog that was missed; nothing while the clock cannot be
    /// read. The names of their units.
    pub fn expire_watchdogs(&mut self, now: Option<i64>) -> (r: Vec<String>)
        requires
            old(self).wf(),
        ensures
            final(self).wf(),
            *final(self) == (Manager { units: final(self).units, ..*old(self) }),
            match now {
                Some(now) => {
                    &&& text::views(r@) == expired_names(old(self).records(), old(self).units.keys(), now)
                    &&& final(self).records() == all_fired(old(self).records(), now)
                },
                None => r@.len() == 0 && *final(self) == *old(self),
            },
    {
        let mut expired: Vec<String> = Vec::new();
        let now: i64 = match now {
            Some(now) => now,
            None => return expired,
        };
        let ghost before = *self;
        let ghost units = before.records();
        let ghost keys = before.units.keys();
        let ghost gone = |name: Seq<char>| watchdog_expired(units[name], now);
        let mut i: usize = 0;
        proof {
            assert(keys.take(0) =~= Seq::<Seq<char>>::empty());
            reveal_with_fuel(Seq::filter, 1);
            assert(text::views(expired@) =~= keys.take(0).filter(gone));
            before.units.lemma_keys();
        }
        while i < self.units.len()
            invariant
                self.wf(),
                before.wf(),
                *self == (Manager { units: self.units, ..before }),
                self.units.keys() == keys,
                keys == before.units.keys(),
                keys.no_duplicates(),
                units == before.records(),
                i <= keys.len(),
                gone == (|name: Seq<char>| watchdog_expired(units[name], now)),
                text::views(expired@) == keys.take(i as int).filter(gone),
                self.records().dom() == units.dom(),
                forall|name: Seq<char>| #[trigger] before.units@.dom().contains(name) <==> keys.contains(name),
                forall|k: int| i <= k < keys.len() ==> self.records()[#[trigger] keys[k]] == units[keys[k]],
                forall|k: int|
                    0 <= k < i ==> self.records()[#[trigger] keys[k]] == if watchdog_expired(units[keys[k]], now) {
                        watchdog_fired(units[keys[k]])
                    } else {
                        units[keys[k]]
                    },
            decreases keys.len() - i,
        {
            let name = self.units.key_at(i).clone();
            let ghost prior = *self;
            let ghost fired_before = expired@;
            let mut fired = false;
            proof {
                assert(keys.contains(keys[i as int]));
                assert(prior.units@.dom().contains(name@)) by {
                    prior.units.lemma_keys();
                }
            }
            if let Some(record) = self.units.get_mut(name.as_str()) {
                fired = expire_watchdog(record, now);
            }
            proof {
                lemma_views_insert(prior.units@, name@, self.units@[name@]);
                assert(prior.records()[keys[i as int]] == units[keys[i as int]]);
                assert(self.records().dom() =~= units.dom());
                assert(keys.take(i + 1) =~= keys.take(i as int).push(name@));
                keys.take(i as int).lemma_filter_push(name@, gone);
            }
            if fired {
                expired.push(name);
                assert(text::views(expired@) =~= text::views(fired_before).push(name@));
            }
            i += 1;
        }
        proof {
            assert(keys.take(i as int) =~= keys);
            let want = all_fired(units, now);
            assert(self.records().dom() =~= want.dom());
            assert forall|name: Seq<char>| self.records().dom().contains(name) implies self.records()[name] == want[name] by {
                assert(before.units@.dom().contains(name));
                let k = choose|k: int| 0 <= k < keys.len() && keys[k] == name;
                assert(keys[k] == name);
            }
            assert(self.records() =~= want);
        }
        expired
    }

    /// How long the manager may sleep, in milliseconds: until the nearest
    /// watchdog, and not for long while a main process is awaited.
    pub fn next_poll_timeout_ms(&self, now: Option<i64>) -> (r: i32)
        requires
            self.wf(),
        ensures
            match now {
                None => r == 30_000,
                Some(now) => exists|ns: int| #[trigger] is_nearest(self.records(), now, ns) && r == covering_ms(ns),
            },
            0 <= r <= 30_000,
    {
        let now: i64 = match now {
            Some(now) => now,
            None => return 30_000,
        };
        let ghost units = self.records();
        let ghost keys = self.units.keys();
        let mut nearest: i64 = MAX_SLEEP_NS;
        let mut i: usize = 0;
        while i < self.units.len()
            invariant
                self.wf(),
                units == self.records(),
                keys == self.units.keys(),
                i <= keys.len(),
                0 <= nearest <= MAX_SLEEP_NS,
                forall|k: int| 0 <= k < i && pid_file_pending(#[trigger] units[keys[k]]) ==> nearest <= PID_FILE_SLEEP_NS,
                forall|k: int|
                    0 <= k < i && next_watchdog(#[trigger] units[keys[k]], now) is Some ==> nearest <= next_watchdog(
                        units[keys[k]],
                        now,
                    )->0,
                ({
                    ||| nearest == MAX_SLEEP_NS
                    ||| nearest == PID_FILE_SLEEP_NS && exists|name: Seq<char>| #[trigger] units.dom().contains(name)
                        && pid_file_pending(units[name])
                    ||| exists|name: Seq<char>| #[trigger] units.dom().contains(name) && next_watchdog(units[name], now) == Some(
                        nearest as int,
                    )
                }),
            decreases keys.len() - i,
        {
            let record = self.units.value_at(i);
            let ghost name = keys[i as int];
            assert(units.dom().contains(name) && units[name] == record@);
            if forking_pid_file_pending(record) && nearest > PID_FILE_SLEEP_NS {
                nearest = PID_FILE_SLEEP_NS;
            }
            if !record.watchdog_triggered {
                if let (Some(interval), Some(last)) = (watchdog_interval_ns(record), record.watchdog_timestamp_ns) {
                    let left = remaining_ns(interval, last, now);
                    assert(next_watchdog(units[name], now) == Some(left as int));
                    if left < nearest {
                        nearest = left;
                    }
                }
            }
            i += 1;
        }
        proof {
            self.units.lemma_keys();
            assert forall|name: Seq<char>| #[trigger] units.dom().contains(name) implies exists|k: int|
                0 <= k < keys.len() && #[trigger] keys[k] == name by {
                assert(self.units@.dom().contains(name));
                assert(keys.contains(name));
                let k = choose|k: int| 0 <= k < keys.len() && keys[k] == name;
                assert(keys[k] == name);
            }
            assert forall|name: Seq<char>| #[trigger] units.dom().contains(name) && pid_file_pending(units[name]) implies nearest
                <= PID_FILE_SLEEP_NS by {
                let k = choose|k: int| 0 <= k < keys.len() && #[trigger] keys[k] == name;
                assert(pid_file_pending(units[keys[k]]));
            }
            assert forall|name: Seq<char>|
                #[trigger] units.dom().contains(name) && next_watchdog(units[name], now) is Some implies nearest
                <= next_watchdog(units[name], now)->0 by {
                let k = choose|k: int| 0 <= k < keys.len() && #[trigger] keys[k] == name;
                assert(next_watchdog(units[keys[k]], now) is Some);
            }
            assert(is_nearest(units, now, nearest as int));
        }
        ((nearest + 999_999) / 1_000_000) as i32
    }
}

/// A timer counts once: fired again, it asks for nothing.
pub proof fn law_timer_counts_once(before: Manager, after: Manager, name: Seq<char>, phase: ServiceTimeoutPhase, source: SourceId)
    requires
        phase == ServiceTimeoutPhase::Start ==> after.start_timeouts@ == before.start_timeouts@.remove(name),
        phase != ServiceTimeoutPhase::Start ==> after.stop_timeouts@ == before.stop_timeouts@.remove(name),
    ensures
        timer_fired(after, name, phase, source) == (after.records(), DeadlineAction::Nothing),
{
}

/// A service that times out while it starts is marked as timed out whatever
/// its mode, and keeps that mark when it is killed.
pub proof fn law_timeout_result_is_kept(m: Manager, name: Seq<char>)
    requires
        is_service_in(m.records(), name, UnitState::Activating),
    ensures
        start_missed(m, name).0[name].service_result == "timeout"@,
        final_result(start_missed(m, name).0, name) == "timeout"@,
{
    reveal_strlit("timeout");
    reveal_strlit("watchdog");
    assert("timeout"@.len() != "watchdog"@.len());
}

/// The manager does not sleep past a watchdog: within the time it sleeps no
/// watchdog falls due, but for the last millisecond.
pub proof fn law_no_watchdog_is_slept_through(units: Map<Seq<char>, RecordView>, now: i64, ns: int, name: Seq<char>)
    requires
        is_nearest(units, now, ns),
        units.dom().contains(name),
        next_watchdog(units[name], now) is Some,
    ensures
        covering_ms(ns) * 1_000_000 < next_watchdog(units[name], now)->0 + 1_000_000,
{
}

/// A service that is on its way up when it should be up goes down, with that as
/// its result. Its failure mode says how: it is killed, or aborted and given the
/// time to abort, or terminated and given the time to stop. Anything else is
/// left alone.
pub proof fn law_a_service_that_starts_too_slowly_goes_down(m: Manager, name: Seq<char>)
    ensures
        ({
            let units = m.records();
            let r = units[name];
            let section = r.loaded->Service_0.specific;
            let applies = units.dom().contains(name) && r.loaded is Service && r.state is Activating;
            let (after, action) = deadline_missed(m, name, ServiceTimeoutPhase::Start);
            let stop_time: int = if section.timeout_stop_sec is Some {
                section.timeout_stop_sec->0 as int
            } else {
                m.default_timeout_stop_sec * 1_000_000_000
            };
            let abort_time: int = if section.timeout_abort_sec is Some { section.timeout_abort_sec->0 as int } else { stop_time };
            &&& !applies ==> after == units && action is Nothing
            &&& applies ==> {
                &&& after.remove(name) == units.remove(name)
                &&& after.dom().contains(name)
                &&& after[name] == (RecordView {
                    service_result: "timeout"@,
                    stop_requested: false,
                    state: UnitState::Deactivating,
                    watchdog_timestamp_ns: None,
                    watchdog_timestamp_realtime_ns: None,
                    ..r
                })
                &&& action is Kill <==> section.timeout_start_failure_mode@ == "kill"@
                &&& action is Signal && action->operation is Watchdog <==> section.timeout_start_failure_mode@ == "abort"@
                &&& !(action is Nothing)
                &&& action is Signal && action->operation is Watchdog ==> action->timeout == abort_time && action->phase is Abort
                &&& action is Signal && !(action->operation is Watchdog) ==> action->operation is Terminate && action->timeout
                    == stop_time && action->phase is Stop
            }
        }),
{
    reveal_strlit("kill");
    reveal_strlit("abort");
    assert("kill"@.len() == 4 && "abort"@.len() == 5);
    let units = m.records();
    lemma_default_fits(m.default_timeout_stop_sec);
    assert(deadline_missed(m, name, ServiceTimeoutPhase::Start).0.remove(name) =~= units.remove(name));
}

proof fn lemma_default_fits(secs: u64)
    ensures
        0 <= secs * 1_000_000_000 <= u128::MAX,
{
    assert(0 <= secs * 1_000_000_000 <= u64::MAX * 1_000_000_000) by (nonlinear_arith)
        requires
            0 <= secs <= u64::MAX,
    ;
}

/// A service that is still going down when it should be down is aborted and
/// given the time to abort where its failure mode says so, and else killed; and
/// one that was aborted is killed. Only the result of a stop that took too long
/// is noted. Anything else is left alone.
pub proof fn law_a_service_that_stops_too_slowly_is_killed(m: Manager, name: Seq<char>)
    ensures
        ({
            let units = m.records();
            let r = units[name];
            let section = r.loaded->Service_0.specific;
            let going_down = units.dom().contains(name) && r.state is Deactivating;
            let applies = going_down && r.loaded is Service;
            let (after, action) = deadline_missed(m, name, ServiceTimeoutPhase::Stop);
            let stop_time: int = if section.timeout_stop_sec is Some {
                section.timeout_stop_sec->0 as int
            } else {
                m.default_timeout_stop_sec * 1_000_000_000
            };
            let abort_time: int = if section.timeout_abort_sec is Some { section.timeout_abort_sec->0 as int } else { stop_time };
            &&& !applies ==> after == units && action is Nothing
            &&& applies ==> {
                &&& after.remove(name) == units.remove(name)
                &&& after.dom().contains(name)
                &&& after[name] == (RecordView { service_result: "timeout"@, ..r })
                &&& action is Signal <==> section.timeout_stop_failure_mode@ == "abort"@
                &&& action is Signal ==> action->operation is Watchdog && action->timeout == abort_time && action->phase is Abort
                &&& !(action is Signal) ==> action is Kill
            }
            &&& deadline_missed(m, name, ServiceTimeoutPhase::Abort).0 == units
            &&& deadline_missed(m, name, ServiceTimeoutPhase::Abort).1 is Kill <==> going_down
            &&& !going_down ==> deadline_missed(m, name, ServiceTimeoutPhase::Abort).1 is Nothing
        }),
{
    let units = m.records();
    lemma_default_fits(m.default_timeout_stop_sec);
    assert(deadline_missed(m, name, ServiceTimeoutPhase::Stop).0.remove(name) =~= units.remove(name));
}

/// A timer counts only while it is the one that is armed for the service: a
/// start timer for its start, a stop timer for its stop and its abort. Any
/// other changes nothing.
pub proof fn law_only_the_armed_timer_counts(m: Manager, name: Seq<char>, phase: ServiceTimeoutPhase, source: SourceId)
    ensures
        ({
            let is_armed = if phase is Start {
                m.start_timeouts@.dom().contains(name) && m.start_timeouts@[name] == source
            } else {
                m.stop_timeouts@.dom().contains(name) && m.stop_timeouts@[name] == source
            };
            &&& !is_armed ==> timer_fired(m, name, phase, source).0 == m.records() && timer_fired(m, name, phase, source).1 is Nothing
            &&& is_armed ==> timer_fired(m, name, phase, source) == deadline_missed(m, name, phase)
        }),
{
}

/// What was killed in the end timed out, unless its watchdog had fired.
pub proof fn law_a_final_kill_reports_timeout_or_watchdog(units: Map<Seq<char>, RecordView>, name: Seq<char>)
    ensures
        units.dom().contains(name) && units[name].service_result == "watchdog"@ ==> final_result(units, name) == "watchdog"@,
        !units.dom().contains(name) || units[name].service_result != "watchdog"@ ==> final_result(units, name) == "timeout"@,
{
}

/// How long the manager sleeps: until the next watchdog is due, at most a
/// twentieth of a second while the file of a service is awaited, at most half a
/// minute, and no shorter than one of these asks for. A watchdog that is
/// overdue lets it not sleep at all.
pub proof fn law_how_long_the_manager_sleeps(units: Map<Seq<char>, RecordView>, now: i64, ns: int, name: Seq<char>)
    requires
        is_nearest(units, now, ns),
    ensures
        0 <= ns <= 30_000_000_000,
        (covering_ms(ns) - 1) * 1_000_000 < ns <= covering_ms(ns) * 1_000_000,
        units.dom().contains(name) && units[name].loaded is Service && units[name].loaded->Service_0.specific.watchdog_sec is Some
            && units[name].watchdog_timestamp_ns is Some && !units[name].watchdog_triggered ==> {
            let due = units[name].watchdog_timestamp_ns->0 + units[name].loaded->Service_0.specific.watchdog_sec->0;
            &&& due <= now && due < i64::MAX ==> ns == 0
            &&& now < due ==> ns <= due - now
        },
        units.dom().contains(name) && pid_file_pending(units[name]) ==> ns <= 50_000_000,
        (forall|n: Seq<char>| #[trigger]
            units.dom().contains(n) ==> !pid_file_pending(units[n]) && (!(units[n].loaded is Service)
                || units[n].loaded->Service_0.specific.watchdog_sec is None || units[n].watchdog_timestamp_ns is None
                || units[n].watchdog_triggered)) ==> ns == 30_000_000_000,
{
    if units.dom().contains(name) {
        assert(next_watchdog(units[name], now) is Some ==> ns <= next_watchdog(units[name], now)->0);
    }
}

/// Every watchdog that has expired fires at once, and no other unit changes.
pub proof fn law_all_expired_watchdogs_fire(units: Map<Seq<char>, RecordView>, now: i64, name: Seq<char>)
    ensures
        all_fired(units, now).dom() == units.dom(),
        units.dom().contains(name) && watchdog_expired(units[name], now) ==> all_fired(units, now)[name] == watchdog_fired(units[name]),
        units.dom().contains(name) && !watchdog_expired(units[name], now) ==> all_fired(units, now)[name] == units[name],
{
    assert(all_fired(units, now).dom() =~= units.dom());
}

/// The time to abort is the one for aborting, else that for stopping, else the
/// manager's.
pub proof fn law_how_long_an_abort_may_take(loaded: LoadedUnit, default_secs: u64)
    ensures
        loaded is Service && loaded->Service_0.specific.timeout_abort_sec is Some ==> Some(abort_timeout(loaded, default_secs))
            == loaded->Service_0.specific.timeout_abort_sec,
        loaded is Service && loaded->Service_0.specific.timeout_abort_sec is None && loaded->Service_0.specific.timeout_stop_sec is Some
            ==> Some(abort_timeout(loaded, default_secs)) == loaded->Service_0.specific.timeout_stop_sec,
        !(loaded is Service) || (loaded->Service_0.specific.timeout_abort_sec is None && loaded->Service_0.specific.timeout_stop_sec is None)
            ==> abort_timeout(loaded, default_secs) == default_secs * 1_000_000_000,
{
    lemma_default_fits(default_secs);
}

/// A watchdog is due when its interval has passed since it was fed; until then
/// what is left of the interval remains, and nothing after that.
pub proof fn law_what_remains_of_a_watchdog(interval: i64, last: i64, now: i64)
    requires
        i64::MIN <= last + interval <= i64::MAX,
    ensures
        last + interval <= now ==> watchdog_remaining(interval, last, now) == 0,
        now < last + interval && last + interval - now <= i64::MAX ==> watchdog_remaining(interval, last, now) == last + interval - now,
{
}

/// The manager sleeps no shorter than something asks for: half a minute, a
/// twentieth of a second while a file is awaited, or until a watchdog is due.
pub proof fn law_the_manager_sleeps_as_long_as_it_may(units: Map<Seq<char>, RecordView>, now: i64, ns: int)
    requires
        is_nearest(units, now, ns),
    ensures
        ns == 30_000_000_000 || (ns == 50_000_000 && exists|name: Seq<char>| #[trigger] units.dom().contains(name) && pid_file_pending(units[name])) || (exists|name: Seq<char>| {
            &&& #[trigger] units.dom().contains(name)
            &&& next_watchdog(units[name], now) == Some(ns)
        }),
{
}

} // verus!
