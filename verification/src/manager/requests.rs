//! What clients ask of the manager over the bus, and what they are told.

use vstd::prelude::*;

use crate::dbus::unit_iface::{job_object, job_path, DbusObjectNamespace};
use crate::ipc::UnitInfo;
use crate::job::{job_events, JobEvent, JobEventView, JobInfo, JobInfoView, JobRegistryView};
use crate::manager::records::shows;
use crate::manager::snapshot::{published, SnapshotChange};
use crate::manager::transactions::with_loaded;
use crate::manager::Manager;
use crate::service::RecordView;
use crate::unit::LoadedUnit;

verus! {

/// A client wants a unit to be loaded.
#[derive(Debug)]
pub struct UnitLoadRequest {
    pub name: String,
    /// What loading it came to.
    pub loaded: Option<LoadedUnit>,
}

/// The registry after requests to load units.
pub open spec fn after_loads(units: Map<Seq<char>, RecordView>, requests: Seq<UnitLoadRequest>) -> Map<
    Seq<char>,
    RecordView,
>
    decreases requests.len(),
{
    if requests.len() == 0 {
        units
    } else {
        with_loaded(after_loads(units, requests.drop_last()), requests.last().name@, requests.last().loaded)
    }
}

/// Whether a reply says of a unit what the registry holds of it.
pub open spec fn tells_of(reply: Option<UnitInfo>, units: Map<Seq<char>, RecordView>, name: Seq<char>) -> bool {
    match reply {
        Some(info) => units.dom().contains(name) && shows(info, units[name]),
        None => !units.dom().contains(name),
    }
}

/// Loading a unit keeps what is there.
proof fn lemma_loads_grow(units: Map<Seq<char>, RecordView>, requests: Seq<UnitLoadRequest>)
    ensures
        units.dom().subset_of(after_loads(units, requests).dom()),
    decreases requests.len(),
{
    if requests.len() > 0 {
        lemma_loads_grow(units, requests.drop_last());
    }
}

/// What is announced of a job.
#[derive(Debug)]
pub enum JobSignal {
    JobNew { job: JobInfo, path: String },
    JobStateChanged { job: JobInfo, path: String },
    JobRemoved { job: JobInfo, path: String, result: String },
}

/// What an announcement says.
#[verifier::ext_equal]
pub enum JobSignalView {
    JobNew { job: JobInfoView, path: Seq<char> },
    JobStateChanged { job: JobInfoView, path: Seq<char> },
    JobRemoved { job: JobInfoView, path: Seq<char>, result: Seq<char> },
}

impl View for JobSignal {
    type V = JobSignalView;

    open spec fn view(&self) -> JobSignalView {
        match self {
            JobSignal::JobNew { job, path } => JobSignalView::JobNew { job: job@, path: path@ },
            JobSignal::JobStateChanged { job, path } => JobSignalView::JobStateChanged { job: job@, path: path@ },
            JobSignal::JobRemoved { job, path, result } => JobSignalView::JobRemoved {
                job: job@,
                path: path@,
                result: result@,
            },
        }
    }
}

/// What is announced of an event.
pub open spec fn announced(event: JobEventView) -> JobSignalView {
    match event {
        JobEventView::New(job) => JobSignalView::JobNew { job, path: job_object(DbusObjectNamespace::Native, job.id) },
        JobEventView::StateChanged(job) => JobSignalView::JobStateChanged { job, path: job_object(DbusObjectNamespace::Native, job.id) },
        JobEventView::Removed { job, result } => JobSignalView::JobRemoved {
            job,
            path: job_object(DbusObjectNamespace::Native, job.id),
            result: result.name(),
        },
    }
}

/// The views of announcements.
pub open spec fn signal_views(signals: Seq<JobSignal>) -> Seq<JobSignalView> {
    signals.map_values(|signal: JobSignal| signal@)
}

fn announce(event: JobEvent) -> (r: JobSignal)
    ensures
        r@ == announced(event@),
{
    match event {
        JobEvent::New(job) => {
            let path = job_path(job.id);
            JobSignal::JobNew { job, path }
        },
        JobEvent::StateChanged(job) => {
            let path = job_path(job.id);
            JobSignal::JobStateChanged { job, path }
        },
        JobEvent::Removed { job, result } => {
            let path = job_path(job.id);
            JobSignal::JobRemoved { job, path, result: result.as_str().to_owned() }
        },
    }
}

impl Manager {
    /// Take in units that clients want loaded, and tell each client what there
    /// is. What clients see is renewed where a unit came in.
    pub fn apply_unit_load_requests(&mut self, requests: Vec<UnitLoadRequest>) -> (r: (
        Vec<Option<UnitInfo>>,
        Option<SnapshotChange>,
    ))
        requires
            old(self).wf(),
        ensures
            final(self).wf(),
            final(self).records() == after_loads(old(self).records(), requests@),
            r.0@.len() == requests@.len(),
            forall|i: int|
                0 <= i < requests@.len() ==> tells_of(
                    #[trigger] r.0@[i],
                    after_loads(old(self).records(), requests@.take(i + 1)),
                    requests@[i].name@,
                ),
            match r.1 {
                Some(change) => {
                    &&& final(self).records().dom() != old(self).records().dom()
                    &&& published((Manager { units: final(self).units, ..*old(self) }), *final(self), change)
                },
                None => final(self).records() == old(self).records() && *final(self) == (Manager {
                    units: final(self).units,
                    ..*old(self)
                }),
            },
    {
        let ghost before = *self;
        let ghost all = requests@;
        let mut waiting = requests;
        let mut replies: Vec<Option<UnitInfo>> = Vec::new();
        let mut changed = false;
        proof {
            assert(all.take(0) =~= Seq::empty());
            assert(all.skip(0) =~= all);
        }
        while waiting.len() > 0
            invariant
                self.wf(),
                *self == (Manager { units: self.units, ..before }),
                replies@.len() + waiting@.len() == all.len(),
                waiting@ == all.skip(replies@.len() as int),
                self.records() == after_loads(before.records(), all.take(replies@.len() as int)),
                before.records().dom().subset_of(self.records().dom()),
                changed <==> self.records().dom() != before.records().dom(),
                !changed ==> self.records() == before.records(),
                forall|i: int|
                    0 <= i < replies@.len() ==> tells_of(
                        #[trigger] replies@[i],
                        after_loads(before.records(), all.take(i + 1)),
                        all[i].name@,
                    ),
            decreases waiting@.len(),
        {
            let ghost k = replies@.len() as int;
            let ghost prior = self.records();
            let request = waiting.remove(0);
            proof {
                assert(request == all[k]);
                assert(all.take(k + 1).drop_last() =~= all.take(k));
                assert(all.skip(k + 1) =~= all.skip(k).drop_first());
                assert(waiting@ =~= all.skip(k + 1));
                lemma_loads_grow(before.records(), all.take(k + 1));
            }
            let is_new = !self.units.contains(request.name.as_str()) && request.loaded.is_some();
            if self.load_unit(request.name.as_str(), request.loaded) && is_new {
                changed = true;
            }
            proof {
                if is_new {
                    assert(self.records().dom().contains(request.name@));
                    assert(!before.records().dom().contains(request.name@));
                } else {
                    assert(self.records() == prior);
                }
            }
            replies.push(self.unit_info(request.name.as_str()));
        }
        assert(all.take(replies@.len() as int) =~= all);
        if changed {
            let ghost loaded = *self;
            let change = self.publish_snapshot();
            assert(loaded == (Manager { units: self.units, ..before }));
            assert(self.records().dom() != before.records().dom());
            (replies, Some(change))
        } else {
            (replies, None)
        }
    }

    /// Take what is to be announced of the jobs, in order.
    pub fn publish_job_events(&mut self) -> (r: Vec<JobSignal>)
        requires
            old(self).wf(),
        ensures
            final(self).wf(),
            *final(self) == (Manager { job_registry: final(self).job_registry, ..*old(self) }),
            signal_views(r@) == old(self).job_registry@.events.map_values(|event: JobEventView| announced(event)),
            final(self).job_registry@ == (JobRegistryView { events: Seq::empty(), ..old(self).job_registry@ }),
    {
        let mut events = self.job_registry.drain_events();
        let ghost all = job_events(events@);
        let mut signals: Vec<JobSignal> = Vec::new();
        while events.len() > 0
            invariant
                signals@.len() + events@.len() == all.len(),
                job_events(events@) == all.skip(signals@.len() as int),
                signal_views(signals@) == all.take(signals@.len() as int).map_values(
                    |event: JobEventView| announced(event),
                ),
            decreases events@.len(),
        {
            let ghost k = signals@.len() as int;
            let ghost prior = events@;
            let ghost sent = signals@;
            let event = events.remove(0);
            proof {
                assert(job_events(prior)[0] == event@);
                assert(event@ == all[k]);
                assert(events@ =~= prior.skip(1));
                assert(job_events(events@) =~= job_events(prior).skip(1));
                assert(all.skip(k).skip(1) =~= all.skip(k + 1));
            }
            signals.push(announce(event));
            assert(signal_views(signals@) =~= signal_views(sent).push(announced(all[k])));
            assert(all.take(k + 1).map_values(|event: JobEventView| announced(event)) =~= all.take(k).map_values(
                |event: JobEventView| announced(event),
            ).push(announced(all[k])));
        }
        assert(all.take(signals@.len() as int) =~= all);
        signals
    }
}

/// Requests to load units add what was not there, each as the first request for
/// it that succeeded brought it; a unit that is there stays.
pub proof fn law_the_first_load_of_a_unit_counts(units: Map<Seq<char>, RecordView>, requests: Seq<UnitLoadRequest>, name: Seq<char>)
    ensures
        ({
            let after = after_loads(units, requests);
            &&& units.dom().contains(name) ==> after.dom().contains(name) && after[name] == units[name]
            &&& after.dom().contains(name) <==> units.dom().contains(name) || exists|i: int|
                0 <= i < requests.len() && (#[trigger] requests[i]).name@ == name && requests[i].loaded is Some
            &&& after.dom().contains(name) && !units.dom().contains(name) ==> exists|i: int| {
                &&& 0 <= i < requests.len()
                &&& (#[trigger] requests[i]).name@ == name
                &&& requests[i].loaded == Some(after[name].loaded)
                &&& forall|k: int| 0 <= k < i && (#[trigger] requests[k]).name@ == name ==> requests[k].loaded is None
            }
        }),
    decreases requests.len(),
{
    if requests.len() > 0 {
        let front = requests.drop_last();
        let n = requests.len() - 1;
        law_the_first_load_of_a_unit_counts(units, front, name);
        let before = after_loads(units, front);
        let after = after_loads(units, requests);
        if before.dom().contains(name) && !units.dom().contains(name) {
            let i = choose|i: int| {
                &&& 0 <= i < front.len()
                &&& (#[trigger] front[i]).name@ == name
                &&& front[i].loaded == Some(before[name].loaded)
                &&& forall|k: int| 0 <= k < i && (#[trigger] front[k]).name@ == name ==> front[k].loaded is None
            };
            assert(requests[i] == front[i]);
            assert forall|k: int| 0 <= k < i && (#[trigger] requests[k]).name@ == name implies requests[k].loaded is None by {
                assert(front[k] == requests[k]);
            }
        }
        if !before.dom().contains(name) {
            assert forall|k: int| 0 <= k < n && (#[trigger] requests[k]).name@ == name implies requests[k].loaded is None by {
                assert(front[k] == requests[k]);
            }
        }
        if exists|i: int| 0 <= i < requests.len() && (#[trigger] requests[i]).name@ == name && requests[i].loaded is Some {
            let i = choose|i: int| 0 <= i < requests.len() && (#[trigger] requests[i]).name@ == name && requests[i].loaded is Some;
            if i < n {
                assert(front[i] == requests[i]);
            }
        }
        if after.dom().contains(name) && !before.dom().contains(name) {
            assert(requests[n].name@ == name);
        }
    }
}

/// What happened to a job is announced under the path of the job: that it is
/// new, that its state changed, or that it ended and how.
pub proof fn law_what_happens_to_jobs_is_announced(event: JobEventView)
    ensures
        announced(event) is JobNew <==> event is New,
        announced(event) is JobStateChanged <==> event is StateChanged,
        announced(event) is JobRemoved <==> event is Removed,
        event is New ==> announced(event)->JobNew_job == event->New_0 && announced(event)->JobNew_path == job_object(
            DbusObjectNamespace::Native,
            event->New_0.id,
        ),
        event is StateChanged ==> announced(event)->JobStateChanged_job == event->StateChanged_0 && announced(event)->JobStateChanged_path
            == job_object(DbusObjectNamespace::Native, event->StateChanged_0.id),
        event is Removed ==> announced(event)->JobRemoved_job == event->job && announced(event)->result == event->result.name()
            && announced(event)->JobRemoved_path == job_object(DbusObjectNamespace::Native, event->job.id),
{
}

/// The reply to a request to load a unit says what is held of it, and nothing
/// where nothing is held.
pub proof fn law_what_a_reply_says(reply: Option<UnitInfo>, units: Map<Seq<char>, RecordView>, name: Seq<char>)
    ensures
        tells_of(reply, units, name) && reply is None ==> !units.dom().contains(name),
        tells_of(reply, units, name) && reply is Some ==> units.dom().contains(name) && shows(reply->0, units[name]),
        !units.dom().contains(name) ==> (tells_of(reply, units, name) <==> reply is None),
{
}

} // verus!
