//! What the manager makes of notifications, exits, memory exhaustion and empty
//! control groups.

use vstd::prelude::*;

use crate::event::source::SourceId;
use crate::job::{JobKind, JobView};
use crate::manager::dispatch::entry;
use crate::manager::records::{
    apply_notify, automatic_restart_delay_at, effective_notify_access, keeps_cgroup, notified, notify_access_of,
    notify_effects, on_readiness, restarted_at, service_of, unit_cgroup_must_remain_realized, watchdog_at_rest,
    watchdog_fed, watchdog_interval, NotifyEffects, NotifyMessage, Readiness, RestartDelay,
};
use crate::manager::services::with_record;
use crate::manager::{lemma_views_insert, Manager};
use crate::names::NameMap;
use crate::service::RecordView;
use crate::unit::{LoadedUnit, NotifyAccess, UnitState};

verus! {

/// How long an exit after memory exhaustion counts as caused by it, in
/// nanoseconds.
pub const OOM_WINDOW_NS: u64 = 2_000_000_000;

/// What the manager does about processes that are to send notifications.
#[derive(Debug, Clone, Copy, PartialEq, Eq, Structural)]
pub enum NotifyPid {
    /// Expect them from the second process instead of the first.
    Replace(i32, i32),
    /// Expect them from this process.
    Register(i32, NotifyAccess),
    /// Nobody sends any.
    Nothing,
}

/// What a change of the main process means for notifications.
pub open spec fn notify_pid(units: Map<Seq<char>, RecordView>, name: Seq<char>, old_pid: Option<i32>, new_pid: i32) -> NotifyPid {
    match old_pid {
        Some(pid) => NotifyPid::Replace(pid, new_pid),
        None => if units.dom().contains(name) {
            match service_of(units[name].loaded) {
                Some(section) => match notify_access_of(section) {
                    Some(access) => NotifyPid::Register(new_pid, access),
                    None => NotifyPid::Nothing,
                },
                None => NotifyPid::Nothing,
            }
        } else {
            NotifyPid::Nothing
        },
    }
}

/// What is known of a unit when one of its processes exits.
#[derive(Debug, Clone, Copy, PartialEq, Eq, Structural)]
pub struct ExitContext {
    /// Memory ran out.
    pub oom_related: bool,
    /// It is being stopped on request, and not for want of memory.
    pub explicitly_stopping: bool,
    /// Some process of it sends notifications.
    pub notifies: bool,
}

/// Whether an exit of a unit counts as caused by memory exhaustion.
pub open spec fn oom_related(m: Manager, name: Seq<char>, now: u64) -> bool {
    m.oom_stopping@.dom().contains(name) || (m.oom_recent@.dom().contains(name) && m.oom_recent@[name] > now)
}

/// What is known of a unit when one of its processes exits.
pub open spec fn exit_context(m: Manager, name: Seq<char>, now: u64) -> ExitContext {
    let known = m.records().dom().contains(name);
    ExitContext {
        oom_related: oom_related(m, name, now),
        explicitly_stopping: known && m.records()[name].stop_requested && !oom_related(m, name, now),
        notifies: known && match service_of(m.records()[name].loaded) {
            Some(section) => notify_access_of(section) is Some,
            None => false,
        },
    }
}

/// A record whose process exited because memory ran out: unless the unit is
/// still up it has failed.
pub open spec fn oom_killed(r: RecordView) -> RecordView {
    RecordView {
        service_result: "oom-kill"@,
        state: if r.state == UnitState::Active {
            r.state
        } else {
            UnitState::Failed
        },
        ..r
    }
}

/// A record after the exit of its control process was taken.
pub open spec fn control_exited(r: RecordView, context: ExitContext) -> RecordView {
    if context.oom_related {
        oom_killed(r)
    } else {
        r
    }
}

/// A record after the exit of its main process was taken.
pub open spec fn main_exited(r: RecordView, context: ExitContext, realtime: Option<i64>, monotonic: Option<i64>) -> RecordView {
    let exited = RecordView { exec_main_exit_realtime_ns: realtime, exec_main_exit_monotonic_ns: monotonic, ..r };
    watchdog_at_rest(
        if context.oom_related {
            oom_killed(exited)
        } else {
            exited
        },
    )
}

/// What follows from an exit.
#[derive(Debug, Clone, Copy, PartialEq, Eq, Structural)]
pub struct ExitEffects {
    /// Timers to be removed.
    pub stale_start_timeout: Option<SourceId>,
    pub stale_stop_timeout: Option<SourceId>,
    /// The unit may be restarted, if its policy asks for it.
    pub may_restart: bool,
}

/// What memory exhaustion in a unit's control group does to the unit.
#[derive(Debug, Clone, Copy, PartialEq, Eq, Structural)]
pub enum OomPolicy {
    Continue,
    Stop,
    Kill,
}

/// What to do after memory exhaustion.
#[derive(Debug, Clone, Copy, PartialEq, Eq, Structural)]
pub enum OomAction {
    /// It is no service.
    Ignore,
    /// Nothing more.
    Note,
    /// Stop the service.
    Stop,
    /// Stop the service and kill what is left of its control group.
    StopAndKill,
}

/// Until when exits count as caused by memory exhaustion at `now`.
pub open spec fn oom_until(now: u64) -> u64 {
    if now > u64::MAX - OOM_WINDOW_NS {
        u64::MAX
    } else {
        (now + OOM_WINDOW_NS) as u64
    }
}

impl Manager {
    /// Take a notification from a service; nothing where the unit is not
    /// loaded.
    pub fn apply_notify_event(&mut self, name: &str, message: NotifyMessage, now: Option<i64>, now_realtime: Option<i64>) -> (r: Option<
        NotifyEffects,
    >)
        requires
            old(self).wf(),
        ensures
            final(self).wf(),
            *final(self) == (Manager { units: final(self).units, ..*old(self) }),
            final(self).records() == with_record(
                old(self).records(),
                name@,
                |r: RecordView| notified(r, message, now, now_realtime),
            ),
            r == if old(self).records().dom().contains(name@) {
                Some(
                    notify_effects(
                        old(self).records()[name@],
                        message,
                        now,
                        now_realtime,
                        old(self).default_timeout_stop_sec,
                    ),
                )
            } else {
                None
            },
    {
        let ghost before = *self;
        let default_secs = self.default_timeout_stop_sec;
        let mut effects: Option<NotifyEffects> = None;
        if let Some(record) = self.units.get_mut(name) {
            effects = Some(apply_notify(record, message, now, now_realtime, default_secs));
        }
        proof {
            if before.units@.dom().contains(name@) {
                lemma_views_insert(before.units@, name@, self.units@[name@]);
            }
        }
        effects
    }

    /// Take what completing a start after a notification came to. Whether the
    /// service no longer has to start in time.
    pub fn notify_readiness(&mut self, name: &str, readiness: Readiness, now: Option<i64>, now_realtime: Option<i64>) -> (r: bool)
        requires
            old(self).wf(),
        ensures
            final(self).wf(),
            *final(self) == (Manager { units: final(self).units, ..*old(self) }),
            r == (readiness != Readiness::Pending),
            final(self).records() == with_record(
                old(self).records(),
                name@,
                |r: RecordView|
                    if readiness == Readiness::Ready && watchdog_interval(r.loaded) is Some {
                        watchdog_fed(r, now, now_realtime)
                    } else {
                        r
                    },
            ),
    {
        let ghost before = *self;
        if let Some(record) = self.units.get_mut(name) {
            on_readiness(record, readiness, now, now_realtime);
        }
        proof {
            if before.units@.dom().contains(name@) {
                lemma_views_insert(before.units@, name@, self.units@[name@]);
            }
        }
        readiness != Readiness::Pending
    }

    /// What a change of the main process means for notifications.
    pub fn apply_notify_pid_change(&self, name: &str, old_pid: Option<i32>, new_pid: i32) -> (r: NotifyPid)
        requires
            self.wf(),
        ensures
            r == notify_pid(self.records(), name@, old_pid, new_pid),
    {
        if let Some(pid) = old_pid {
            return NotifyPid::Replace(pid, new_pid);
        }
        if let Some(record) = self.units.get(name) {
            if let LoadedUnit::Service(service) = &record.loaded {
                if let Some(access) = effective_notify_access(&service.specific) {
                    return NotifyPid::Register(new_pid, access);
                }
            }
        }
        NotifyPid::Nothing
    }

    /// What is known of a unit when one of its processes exits.
    pub fn exit_context(&self, name: &str, now: u64) -> (r: ExitContext)
        requires
            self.wf(),
        ensures
            r == exit_context(*self, name@, now),
    {
        let oom_related = self.oom_stopping.contains(name) || match self.oom_recent.get(name) {
            Some(until) => *until > now,
            None => false,
        };
        match self.units.get(name) {
            Some(record) => ExitContext {
                oom_related,
                explicitly_stopping: record.stop_requested && !oom_related,
                notifies: match &record.loaded {
                    LoadedUnit::Service(service) => effective_notify_access(&service.specific).is_some(),
                    _ => false,
                },
            },
            None => ExitContext { oom_related, explicitly_stopping: false, notifies: false },
        }
    }

    /// Whether a process is the control process of a unit.
    pub fn is_control_process(&self, name: &str, pid: i32) -> (r: bool)
        requires
            self.wf(),
        ensures
            r == (self.records().dom().contains(name@) && self.records()[name@].control_pid == Some(pid)),
    {
        match self.units.get(name) {
            Some(record) => match record.control_pid {
                Some(known) => known == pid,
                None => false,
            },
            None => false,
        }
    }

    fn mark_oom_killed(&mut self, name: &str)
        requires
            old(self).wf(),
        ensures
            final(self).wf(),
            *final(self) == (Manager { units: final(self).units, ..*old(self) }),
            final(self).records() == with_record(old(self).records(), name@, |r: RecordView| oom_killed(r)),
    {
        let ghost before = *self;
        if let Some(record) = self.units.get_mut(name) {
            record.service_result = "oom-kill".to_owned();
            if record.state != UnitState::Active {
                record.state = UnitState::Failed;
            }
        }
        proof {
            if before.units@.dom().contains(name@) {
                lemma_views_insert(before.units@, name@, self.units@[name@]);
            }
        }
    }

    /// Take the exit of a unit's control process, once the service itself has
    /// taken it. The unit no longer has to start in time unless it is still on
    /// its way up; it may be restarted where it failed unasked.
    pub fn on_control_exit(&mut self, name: &str, context: ExitContext) -> (r: ExitEffects)
        requires
            old(self).wf(),
            old(self).records().dom().contains(name@),
        ensures
            final(self).wf(),
            *final(self) == (Manager {
                units: final(self).units,
                start_timeouts: final(self).start_timeouts,
                stop_timeouts: final(self).stop_timeouts,
                ..*old(self)
            }),
            ({
                let r0 = old(self).records()[name@];
                let r1 = control_exited(r0, context);
                &&& final(self).records() == old(self).records().insert(name@, r1)
                &&& final(self).start_timeouts@ == if r0.state != UnitState::Activating {
                    old(self).start_timeouts@.remove(name@)
                } else {
                    old(self).start_timeouts@
                }
                &&& final(self).stop_timeouts@ == if context.explicitly_stopping {
                    old(self).stop_timeouts@.remove(name@)
                } else {
                    old(self).stop_timeouts@
                }
                &&& r == (ExitEffects {
                    stale_start_timeout: if r0.state != UnitState::Activating {
                        entry(old(self).start_timeouts@, name@)
                    } else {
                        None
                    },
                    stale_stop_timeout: if context.explicitly_stopping {
                        entry(old(self).stop_timeouts@, name@)
                    } else {
                        None
                    },
                    may_restart: r1.state == UnitState::Failed && !context.explicitly_stopping,
                })
            }),
    {
        let ghost before = *self;
        let starting = match self.units.get(name) {
            Some(record) => record.state == UnitState::Activating,
            None => false,
        };
        let stale_start_timeout = if starting {
            None
        } else {
            self.cancel_start_timeout(name)
        };
        let stale_stop_timeout = if context.explicitly_stopping {
            self.cancel_stop_timeout(name)
        } else {
            None
        };
        if context.oom_related {
            self.mark_oom_killed(name);
        }
        let failed = match self.units.get(name) {
            Some(record) => record.state == UnitState::Failed,
            None => false,
        };
        proof {
            let r0 = before.records()[name@];
            assert(before.records().insert(name@, r0) =~= before.records());
            assert(self.records() == before.records().insert(name@, control_exited(r0, context)));
            assert(self.records()[name@] == control_exited(r0, context));
        }
        ExitEffects { stale_start_timeout, stale_stop_timeout, may_restart: failed && !context.explicitly_stopping }
    }

    /// Take the exit of a unit's main process, once the service itself has
    /// taken it: its timers and its watchdog are off. A unit that waits to be
    /// restarted is started; another may be restarted unless it was stopped on
    /// request.
    pub fn on_main_exit(&mut self, name: &str, context: ExitContext, realtime: Option<i64>, monotonic: Option<i64>) -> (r: ExitEffects)
        requires
            old(self).wf(),
        ensures
            final(self).wf(),
            *final(self) == (Manager {
                units: final(self).units,
                start_timeouts: final(self).start_timeouts,
                stop_timeouts: final(self).stop_timeouts,
                restart_pending: final(self).restart_pending,
                job_queue: final(self).job_queue,
                ..*old(self)
            }),
            final(self).records() == with_record(
                old(self).records(),
                name@,
                |r: RecordView| main_exited(r, context, realtime, monotonic),
            ),
            final(self).start_timeouts@ == old(self).start_timeouts@.remove(name@),
            final(self).stop_timeouts@ == old(self).stop_timeouts@.remove(name@),
            final(self).restart_pending@ == old(self).restart_pending@.remove(name@),
            final(self).job_queue@ == if old(self).restart_pending@.dom().contains(name@) {
                old(self).job_queue@.push(JobView { id: 0, kind: JobKind::Start, unit: name@ })
            } else {
                old(self).job_queue@
            },
            r == (ExitEffects {
                stale_start_timeout: entry(old(self).start_timeouts@, name@),
                stale_stop_timeout: entry(old(self).stop_timeouts@, name@),
                may_restart: !old(self).restart_pending@.dom().contains(name@) && !context.explicitly_stopping,
            }),
    {
        let ghost before = *self;
        let stale_start_timeout = self.cancel_start_timeout(name);
        let stale_stop_timeout = self.cancel_stop_timeout(name);
        if let Some(record) = self.units.get_mut(name) {
            record.exec_main_exit_realtime_ns = realtime;
            record.exec_main_exit_monotonic_ns = monotonic;
            if context.oom_related {
                record.service_result = "oom-kill".to_owned();
                if record.state != UnitState::Active {
                    record.state = UnitState::Failed;
                }
            }
            record.watchdog_timestamp_ns = None;
            record.watchdog_timestamp_realtime_ns = None;
            record.watchdog_triggered = false;
        }
        proof {
            if before.units@.dom().contains(name@) {
                lemma_views_insert(before.units@, name@, self.units@[name@]);
            }
        }
        let pending = self.restart_pending.remove(name).is_some();
        if pending {
            self.job_queue.enqueue_internal(JobKind::Start, name);
        }
        ExitEffects {
            stale_start_timeout,
            stale_stop_timeout,
            may_restart: !pending && !context.explicitly_stopping,
        }
    }

    /// Account for an automatic restart at `now_ns`, where the unit's policy
    /// asks for one. How long to wait before it.
    pub fn automatic_restart(&mut self, name: &str, asked: bool, now_ns: i64) -> (r: Option<RestartDelay>)
        requires
            old(self).wf(),
        ensures
            final(self).wf(),
            *final(self) == (Manager { units: final(self).units, ..*old(self) }),
            if old(self).records().dom().contains(name@) {
                (final(self).records()[name@], r) == restarted_at(old(self).records()[name@], asked, now_ns)
            } else {
                r is None
            },
            final(self).records() == with_record(
                old(self).records(),
                name@,
                |r: RecordView| restarted_at(r, asked, now_ns).0,
            ),
    {
        let ghost before = *self;
        let mut delay: Option<RestartDelay> = None;
        if let Some(record) = self.units.get_mut(name) {
            delay = automatic_restart_delay_at(record, asked, now_ns);
        }
        proof {
            if before.units@.dom().contains(name@) {
                lemma_views_insert(before.units@, name@, self.units@[name@]);
            }
        }
        delay
    }

    /// Start a unit again at once: its restart could not be put off.
    pub fn restart_now(&mut self, name: &str)
        requires
            old(self).wf(),
        ensures
            final(self).wf(),
            *final(self) == (Manager { job_queue: final(self).job_queue, ..*old(self) }),
            final(self).job_queue@ == old(self).job_queue@.push(JobView { id: 0, kind: JobKind::Start, unit: name@ }),
    {
        self.job_queue.enqueue_internal(JobKind::Start, name);
    }

    /// The exit of a unit's process was dealt with. Memory exhaustion explains
    /// one exit, or all of them while the unit is being stopped for it.
    pub fn exit_done(&mut self, name: &str)
        requires
            old(self).wf(),
        ensures
            final(self).wf(),
            *final(self) == (Manager { oom_recent: final(self).oom_recent, ..*old(self) }),
            final(self).oom_recent@ == if old(self).oom_stopping@.dom().contains(name@) {
                old(self).oom_recent@
            } else {
                old(self).oom_recent@.remove(name@)
            },
    {
        if !self.oom_stopping.contains(name) {
            self.oom_recent.remove(name);
        }
    }

    /// Forget memory exhaustion that is too long ago to explain an exit.
    pub fn forget_old_ooms(&mut self, now: u64)
        requires
            old(self).wf(),
        ensures
            final(self).wf(),
            *final(self) == (Manager { oom_recent: final(self).oom_recent, ..*old(self) }),
            final(self).oom_recent@ == old(self).oom_recent@.restrict(
                Set::new(|name: Seq<char>| old(self).oom_recent@[name] > now),
            ),
    {
        let ghost before = *self;
        let ghost recent = self.oom_recent@;
        let ghost keys = self.oom_recent.keys();
        let mut kept: NameMap<u64> = NameMap::new();
        let mut i: usize = 0;
        while i < self.oom_recent.len()
            invariant
                self.wf(),
                *self == before,
                kept.wf(),
                recent == self.oom_recent@,
                keys == self.oom_recent.keys(),
                i <= keys.len(),
                forall|name: Seq<char>|
                    #[trigger] kept@.dom().contains(name) <==> recent[name] > now && exists|k: int|
                        0 <= k < i && #[trigger] keys[k] == name,
                forall|name: Seq<char>| #[trigger] kept@.dom().contains(name) ==> kept@[name] == recent[name],
            decreases keys.len() - i,
        {
            let until = *self.oom_recent.value_at(i);
            let name = self.oom_recent.key_at(i);
            let ghost prior = kept@;
            if until > now {
                kept.insert(name.clone(), until);
            }
            assert forall|n: Seq<char>| #[trigger] kept@.dom().contains(n) <==> recent[n] > now && exists|k: int|
                0 <= k < i + 1 && #[trigger] keys[k] == n by {
                assert(prior.dom().contains(n) || true);
                assert(keys[i as int] == name@);
            }
            i += 1;
        }
        proof {
            self.oom_recent.lemma_keys();
            let want = recent.restrict(Set::new(|name: Seq<char>| recent[name] > now));
            assert forall|n: Seq<char>| kept@.dom().contains(n) <==> want.dom().contains(n) by {
                assert(recent.dom().contains(n) <==> keys.contains(n));
                if keys.contains(n) {
                    let k = choose|k: int| 0 <= k < keys.len() && keys[k] == n;
                    assert(keys[k] == n);
                }
                if exists|k: int| 0 <= k < i && #[trigger] keys[k] == n {
                    let k = choose|k: int| 0 <= k < i && #[trigger] keys[k] == n;
                    assert(keys.contains(n));
                }
            }
            assert(kept@ =~= want);
        }
        self.oom_recent = kept;
    }

    /// Memory ran out in the control group of a unit, whose policy is `policy`
    /// if it is a service. Exits of it are explained by that for a while, and
    /// until it is down where it is stopped for it.
    pub fn apply_oom_event(&mut self, name: &str, policy: OomPolicy, now: u64) -> (r: OomAction)
        requires
            old(self).wf(),
        ensures
            final(self).wf(),
            *final(self) == (Manager {
                units: final(self).units,
                oom_recent: final(self).oom_recent,
                oom_stopping: final(self).oom_stopping,
                ..*old(self)
            }),
            if old(self).records().dom().contains(name@) && service_of(old(self).records()[name@].loaded) is Some {
                &&& r == match policy {
                    OomPolicy::Continue => OomAction::Note,
                    OomPolicy::Stop => OomAction::Stop,
                    OomPolicy::Kill => OomAction::StopAndKill,
                }
                &&& final(self).records() == old(self).records().insert(
                    name@,
                    RecordView { service_result: "oom-kill"@, ..old(self).records()[name@] },
                )
                &&& final(self).oom_recent@ == old(self).oom_recent@.insert(name@, oom_until(now))
                &&& final(self).oom_stopping@ == if policy == OomPolicy::Continue {
                    old(self).oom_stopping@
                } else {
                    old(self).oom_stopping@.insert(name@, ())
                }
            } else {
                r == OomAction::Ignore && *final(self) == *old(self)
            },
    {
        let ghost before = *self;
        let service = match self.units.get(name) {
            Some(record) => match &record.loaded {
                LoadedUnit::Service(_) => true,
                _ => false,
            },
            None => false,
        };
        if !service {
            return OomAction::Ignore;
        }
        if let Some(record) = self.units.get_mut(name) {
            record.service_result = "oom-kill".to_owned();
        }
        proof {
            lemma_views_insert(before.units@, name@, self.units@[name@]);
        }
        let until: u64 = if now > u64::MAX - OOM_WINDOW_NS {
            u64::MAX
        } else {
            now + OOM_WINDOW_NS
        };
        self.oom_recent.insert(name.to_owned(), until);
        match policy {
            OomPolicy::Continue => OomAction::Note,
            OomPolicy::Stop => {
                self.oom_stopping.insert(name.to_owned(), ());
                OomAction::Stop
            },
            OomPolicy::Kill => {
                self.oom_stopping.insert(name.to_owned(), ());
                OomAction::StopAndKill
            },
        }
    }

    /// Whether the control group of a unit is to be removed once it is empty.
    /// That of a service on its way up is empty before its process moves in.
    pub fn may_remove_cgroup(&self, name: &str) -> (r: bool)
        requires
            self.wf(),
        ensures
            r == !(self.records().dom().contains(name@) && keeps_cgroup(self.records()[name@])),
    {
        match self.units.get(name) {
            Some(record) => !unit_cgroup_must_remain_realized(record),
            None => true,
        }
    }

    /// Forget what is watched of a control group that is empty or gone: the
    /// sources to be removed.
    pub fn forget_cgroup(&mut self, name: &str) -> (r: (Option<SourceId>, Option<SourceId>))
        requires
            old(self).wf(),
        ensures
            final(self).wf(),
            *final(self) == (Manager {
                cgroup_sources: final(self).cgroup_sources,
                oom_sources: final(self).oom_sources,
                oom_stopping: final(self).oom_stopping,
                oom_recent: final(self).oom_recent,
                ..*old(self)
            }),
            r.0 == entry(old(self).cgroup_sources@, name@),
            r.1 == entry(old(self).oom_sources@, name@),
            final(self).cgroup_sources@ == old(self).cgroup_sources@.remove(name@),
            final(self).oom_sources@ == old(self).oom_sources@.remove(name@),
            final(self).oom_stopping@ == old(self).oom_stopping@.remove(name@),
            final(self).oom_recent@ == old(self).oom_recent@.remove(name@),
    {
        let cgroup = self.cgroup_sources.remove(name);
        let oom = self.oom_sources.remove(name);
        self.oom_stopping.remove(name);
        self.oom_recent.remove(name);
        (cgroup, oom)
    }

    /// Take that a control group is watched through a source.
    pub fn cgroup_watched(&mut self, name: &str, source: SourceId)
        requires
            old(self).wf(),
        ensures
            final(self).wf(),
            *final(self) == (Manager { cgroup_sources: final(self).cgroup_sources, ..*old(self) }),
            final(self).cgroup_sources@ == old(self).cgroup_sources@.insert(name@, source),
    {
        self.cgroup_sources.insert(name.to_owned(), source);
    }

    /// Take that a control group is watched for memory exhaustion through a
    /// source.
    pub fn oom_watched(&mut self, name: &str, source: SourceId)
        requires
            old(self).wf(),
        ensures
            final(self).wf(),
            *final(self) == (Manager { oom_sources: final(self).oom_sources, ..*old(self) }),
            final(self).oom_sources@ == old(self).oom_sources@.insert(name@, source),
    {
        self.oom_sources.insert(name.to_owned(), source);
    }

    /// Whether a service whose control group ran empty may be restarted: that
    /// completed its exit, and it was not stopped on request.
    pub fn on_cgroup_empty(&self, name: &str, completed: bool) -> (r: bool)
        requires
            self.wf(),
        ensures
            r == (completed && self.records().dom().contains(name@) && !self.records()[name@].stop_requested),
    {
        match self.units.get(name) {
            Some(record) => completed && !record.stop_requested,
            None => false,
        }
    }
}

/// An exit while a unit is stopped for want of memory is never taken for a
/// stop on request.
pub proof fn law_oom_is_no_explicit_stop(m: Manager, name: Seq<char>, now: u64)
    requires
        oom_related(m, name, now),
    ensures
        !exit_context(m, name, now).explicitly_stopping,
{
}

/// A main exit that memory exhaustion explains fails the unit unless it is
/// still up, and says so.
pub proof fn law_oom_exit_is_reported(r: RecordView, context: ExitContext, realtime: Option<i64>, monotonic: Option<i64>)
    requires
        context.oom_related,
    ensures
        main_exited(r, context, realtime, monotonic).service_result == "oom-kill"@,
        r.state != UnitState::Active ==> main_exited(r, context, realtime, monotonic).state == UnitState::Failed,
{
}

/// Whose messages count from now on when a service names its main process: the
/// new process in the place of the one before; or, where there was none, the
/// new process with the rights that the service grants, if it grants any.
pub proof fn law_a_new_main_process_may_notify(units: Map<Seq<char>, RecordView>, name: Seq<char>, old_pid: Option<i32>, new_pid: i32)
    ensures
        ({
            let r = notify_pid(units, name, old_pid, new_pid);
            let is_service = units.dom().contains(name) && units[name].loaded is Service;
            let access = notify_access_of(units[name].loaded->Service_0.specific);
            &&& old_pid is Some ==> r == NotifyPid::Replace(old_pid->0, new_pid)
            &&& old_pid is None && is_service && access is Some ==> r == NotifyPid::Register(new_pid, access->0)
            &&& old_pid is None && !(is_service && access is Some) ==> r is Nothing
        }),
{
}

/// An exit is put down to a lack of memory while the unit is stopped for it, and
/// until the time that was noted for it. It is on request where one was made
/// and memory has nothing to do with it.
pub proof fn law_what_an_exit_is_put_down_to(m: Manager, name: Seq<char>, now: u64)
    ensures
        ({
            let c = exit_context(m, name, now);
            let known = m.records().dom().contains(name);
            &&& c.oom_related <==> m.oom_stopping@.dom().contains(name) || (m.oom_recent@.dom().contains(name) && now
                < m.oom_recent@[name])
            &&& c.explicitly_stopping <==> known && m.records()[name].stop_requested && !c.oom_related
            &&& c.notifies <==> known && m.records()[name].loaded is Service && notify_access_of(
                m.records()[name].loaded->Service_0.specific,
            ) is Some
        }),
{
}

/// A lack of memory is remembered for two seconds, as far as the clock reaches.
pub proof fn law_a_lack_of_memory_is_remembered(now: u64)
    ensures
        now <= u64::MAX - 2_000_000_000 ==> oom_until(now) == now + 2_000_000_000,
        now > u64::MAX - 2_000_000_000 ==> oom_until(now) == u64::MAX,
{
}

/// When the main process exits, the times are noted and the watchdog rests. A
/// service that ran out of memory has that as its result and fails, unless it
/// is up again. Nothing else of it changes.
pub proof fn law_what_the_exit_of_a_main_process_changes(
    r: RecordView,
    context: ExitContext,
    realtime: Option<i64>,
    monotonic: Option<i64>,
)
    ensures
        ({
            let after = main_exited(r, context, realtime, monotonic);
            &&& after.exec_main_exit_realtime_ns == realtime
            &&& after.exec_main_exit_monotonic_ns == monotonic
            &&& after.watchdog_timestamp_ns is None
            &&& after.watchdog_timestamp_realtime_ns is None
            &&& !after.watchdog_triggered
            &&& !context.oom_related ==> after.state == r.state && after.service_result == r.service_result
            &&& context.oom_related ==> after.service_result == "oom-kill"@ && (if r.state is Active {
                after.state is Active
            } else {
                after.state is Failed
            })
            &&& after == (RecordView {
                exec_main_exit_realtime_ns: after.exec_main_exit_realtime_ns,
                exec_main_exit_monotonic_ns: after.exec_main_exit_monotonic_ns,
                watchdog_timestamp_ns: after.watchdog_timestamp_ns,
                watchdog_timestamp_realtime_ns: after.watchdog_timestamp_realtime_ns,
                watchdog_triggered: after.watchdog_triggered,
                state: after.state,
                service_result: after.service_result,
                ..r
            })
        }),
{
}

/// When the control process exits, nothing changes unless the service ran out
/// of memory: then that is its result and it fails, unless it is up.
pub proof fn law_what_the_exit_of_a_control_process_changes(r: RecordView, context: ExitContext)
    ensures
        ({
            let after = control_exited(r, context);
            &&& !context.oom_related ==> after == r
            &&& context.oom_related ==> after == (RecordView { state: after.state, service_result: "oom-kill"@, ..r })
            &&& context.oom_related && r.state is Active ==> after.state is Active
            &&& context.oom_related && !(r.state is Active) ==> after.state is Failed
        }),
{
}

} // verus!
