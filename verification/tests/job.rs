use rustd::job::{orders_as_stop, Job, JobEvent, JobKind, JobQueue, JobRegistry, JobResult, JobState};
use rustd::names::NameMap;
use rustd::unit::UnitState;

fn states(pairs: &[(&str, UnitState)]) -> NameMap<UnitState> {
    let mut map = NameMap::new();
    for (name, state) in pairs {
        map.insert((*name).to_owned(), *state);
    }
    map
}

fn afters(pairs: &[(&str, &[&str])]) -> NameMap<Vec<String>> {
    let mut map = NameMap::new();
    for (name, deps) in pairs {
        map.insert((*name).to_owned(), deps.iter().map(|s| (*s).to_owned()).collect());
    }
    map
}

fn fresh() -> (JobQueue, JobRegistry) {
    (JobQueue::default(), JobRegistry::new())
}

#[test]
fn identifiers_are_stable_across_queues() {
    let mut registry = JobRegistry::new();
    let mut ingress = JobQueue::default();
    let mut manager = JobQueue::default();
    let first = ingress.enqueue(&mut registry, JobKind::Start, "one.service");
    let second = ingress.enqueue(&mut registry, JobKind::Stop, "two.service");
    assert_eq!(first.id, 1);
    assert_eq!(second.id, 2);

    let moved = ingress.pop_front(&registry).unwrap();
    manager.push_existing(&registry, moved);
    let moved = manager.pop_ready(&registry, &states(&[]), &afters(&[])).unwrap();
    assert_eq!(moved.id, first.id);
    assert_eq!(registry.get(first.id).unwrap().state, JobState::Waiting);
}

#[test]
fn running_and_completion_events_are_tracked() {
    let (mut queue, mut registry) = fresh();
    let job = queue.enqueue(&mut registry, JobKind::Start, "foo.service");
    assert!(registry.mark_running(job.id));
    assert_eq!(registry.get(job.id).unwrap().state, JobState::Running);
    assert!(registry.finish(job.id, JobResult::Done).is_some());
    assert!(registry.get(job.id).is_none());
    let events = registry.drain_events();
    assert!(matches!(&events[0], JobEvent::New(_)));
    assert!(matches!(&events[1], JobEvent::StateChanged(_)));
    assert!(matches!(
        &events[2],
        JobEvent::Removed {
            result: JobResult::Done,
            ..
        }
    ));
}

#[test]
fn lifetime_counters_track_installations_and_only_failed_results() {
    let (mut queue, mut registry) = fresh();
    let done = queue.enqueue(&mut registry, JobKind::Start, "done.service");
    let timeout = queue.enqueue(&mut registry, JobKind::Start, "timeout.service");
    let dependency = queue.enqueue(&mut registry, JobKind::Start, "dependency.service");
    let canceled = queue.enqueue(&mut registry, JobKind::Start, "canceled.service");
    let failed = queue.enqueue(&mut registry, JobKind::Start, "failed.service");
    let invalid = queue.enqueue(&mut registry, JobKind::Start, "invalid.service");
    let frozen = queue.enqueue(&mut registry, JobKind::Start, "frozen.service");
    let concurrency = queue.enqueue(&mut registry, JobKind::Start, "concurrency.service");

    assert_eq!(registry.n_installed(), 8);
    assert_eq!(registry.n_failed(), 0);
    assert_eq!(JobResult::Invalid.as_str(), "invalid");
    assert_eq!(JobResult::Frozen.as_str(), "frozen");
    assert_eq!(JobResult::Concurrency.as_str(), "concurrency");

    registry.finish(done.id, JobResult::Done);
    registry.finish(timeout.id, JobResult::Timeout);
    registry.finish(dependency.id, JobResult::Dependency);
    registry.finish(canceled.id, JobResult::Canceled);
    assert_eq!(registry.n_failed(), 0);

    registry.finish(failed.id, JobResult::Failed);
    registry.finish(invalid.id, JobResult::Invalid);
    registry.finish(frozen.id, JobResult::Frozen);
    registry.finish(concurrency.id, JobResult::Concurrency);
    assert_eq!(registry.n_failed(), 4);
    assert_eq!(registry.n_installed(), 8);

    queue.enqueue_internal(JobKind::Start, "internal.service");
    assert_eq!(registry.n_installed(), 8);
}

#[test]
fn cancel_removes_exported_job() {
    let (mut queue, mut registry) = fresh();
    let job = queue.enqueue(&mut registry, JobKind::Start, "foo.service");
    assert!(queue.cancel(&mut registry, job.id));
    assert!(!registry.is_live(job.id));
    assert!(queue.is_empty(&registry));
}

#[test]
fn cancel_all_removes_every_live_job() {
    let (mut queue, mut registry) = fresh();
    queue.enqueue(&mut registry, JobKind::Start, "one.service");
    queue.enqueue(&mut registry, JobKind::Stop, "two.service");
    assert_eq!(queue.cancel_all(&mut registry), 2);
    assert!(registry.is_empty());
    assert!(queue.is_empty(&registry));
}

#[test]
fn stop_always_ready() {
    let (mut queue, mut registry) = fresh();
    queue.enqueue(&mut registry, JobKind::Stop, "foo.service");
    let jobs = queue.drain_ready(&registry, &states(&[]), &afters(&[]));
    assert_eq!(jobs.len(), 1);
    assert_eq!(jobs[0].kind, JobKind::Stop);
}

#[test]
fn reload_always_ready() {
    let (mut queue, mut registry) = fresh();
    queue.enqueue(&mut registry, JobKind::Reload, "foo.service");
    let jobs = queue.drain_ready(&registry, &states(&[]), &afters(&[]));
    assert_eq!(jobs.len(), 1);
    assert_eq!(jobs[0].kind, JobKind::Reload);
}

#[test]
fn restart_always_ready() {
    let (mut queue, mut registry) = fresh();
    queue.enqueue(&mut registry, JobKind::Restart, "foo.service");
    let jobs = queue.drain_ready(&registry, &states(&[]), &afters(&[]));
    assert_eq!(jobs.len(), 1);
    assert_eq!(jobs[0].kind, JobKind::Restart);
}

#[test]
fn isolate_always_ready() {
    let (mut queue, mut registry) = fresh();
    queue.enqueue(&mut registry, JobKind::Isolate, "rescue.target");
    let jobs = queue.drain_ready(&registry, &states(&[]), &afters(&[]));
    assert_eq!(jobs.len(), 1);
    assert_eq!(jobs[0].kind, JobKind::Isolate);
    assert_eq!(jobs[0].kind.as_str(), "start");
}

#[test]
fn start_no_deps_ready() {
    let (mut queue, mut registry) = fresh();
    queue.enqueue(&mut registry, JobKind::Start, "foo.service");
    let jobs = queue.drain_ready(&registry, &states(&[]), &afters(&[]));
    assert_eq!(jobs.len(), 1);
}

#[test]
fn start_dep_activating_blocks() {
    let (mut queue, mut registry) = fresh();
    queue.enqueue(&mut registry, JobKind::Start, "foo.service");
    let st = states(&[("bar.service", UnitState::Activating)]);
    let af = afters(&[("foo.service", &["bar.service"])]);
    let jobs = queue.drain_ready(&registry, &st, &af);
    assert!(jobs.is_empty());
}

#[test]
fn start_dep_active_unblocks() {
    let (mut queue, mut registry) = fresh();
    queue.enqueue(&mut registry, JobKind::Start, "foo.service");
    let st = states(&[("bar.service", UnitState::Active)]);
    let af = afters(&[("foo.service", &["bar.service"])]);
    let jobs = queue.drain_ready(&registry, &st, &af);
    assert_eq!(jobs.len(), 1);
}

#[test]
fn start_dep_failed_is_ordering_settled() {
    let (mut queue, mut registry) = fresh();
    queue.enqueue(&mut registry, JobKind::Start, "foo.service");
    let states = states(&[("bar.service", UnitState::Failed)]);
    let afters = afters(&[("foo.service", &["bar.service"])]);
    let jobs = queue.drain_ready(&registry, &states, &afters);
    assert_eq!(jobs.len(), 1);
}

#[test]
fn start_absent_after_dep_does_not_block() {
    let (mut queue, mut registry) = fresh();
    queue.enqueue(&mut registry, JobKind::Start, "sshd.service");
    let af = afters(&[("sshd.service", &["network.target"])]);
    let jobs = queue.drain_ready(&registry, &states(&[]), &af);
    assert_eq!(jobs.len(), 1);
    assert_eq!(jobs[0].unit_name, "sshd.service");
}

#[test]
fn ordered_drain() {
    let (mut queue, mut registry) = fresh();
    let later = queue.enqueue(&mut registry, JobKind::Start, "b.service");
    let earlier = queue.enqueue(&mut registry, JobKind::Start, "a.service");
    let af = afters(&[("b.service", &["a.service"])]);
    queue.refresh_ordering(&mut registry, &af);
    assert_eq!(registry.get_before(later.id)[0].id, earlier.id);
    assert_eq!(registry.get_after(earlier.id)[0].id, later.id);

    let st_empty = states(&[]);
    let first = queue.drain_ready(&registry, &st_empty, &af);
    assert_eq!(first.len(), 1);
    assert_eq!(first[0].unit_name, "a.service");
    registry.finish(earlier.id, JobResult::Done);

    let st_a = states(&[("a.service", UnitState::Active)]);
    let second = queue.drain_ready(&registry, &st_a, &af);
    assert_eq!(second.len(), 1);
    assert_eq!(second[0].unit_name, "b.service");
}

#[test]
fn stop_order_is_reverse_of_start_order() {
    let (mut queue, mut registry) = fresh();
    let earlier_start = queue.enqueue(&mut registry, JobKind::Stop, "a.service");
    let later_start = queue.enqueue(&mut registry, JobKind::Stop, "b.service");
    let af = afters(&[("b.service", &["a.service"])]);
    queue.refresh_ordering(&mut registry, &af);

    assert_eq!(registry.get_before(earlier_start.id)[0].id, later_start.id);
    let ready = queue.drain_ready(&registry, &states(&[]), &af);
    assert_eq!(ready.len(), 1);
    assert_eq!(ready[0].id, later_start.id);
}

#[test]
fn dbus_owner_is_tracked_until_completion() {
    let (mut queue, mut registry) = fresh();
    let job = queue.enqueue_owned(
        &mut registry,
        JobKind::Start,
        "foo.service",
        Some(":1.42".to_owned()),
    );
    assert!(registry.is_owner(job.id, ":1.42"));
    assert!(!registry.is_owner(job.id, ":1.43"));
    registry.finish(job.id, JobResult::Done);
    assert!(!registry.is_owner(job.id, ":1.42"));
}

#[test]
fn a_finished_job_does_not_finish_again() {
    let (mut queue, mut registry) = fresh();
    let job = queue.enqueue(&mut registry, JobKind::Start, "foo.service");
    assert_eq!(registry.finish(job.id, JobResult::Failed).unwrap().unit_name, "foo.service");
    assert!(registry.finish(job.id, JobResult::Failed).is_none());
    assert_eq!(registry.n_failed(), 1);
    assert!(!registry.mark_running(job.id));
    assert!(!queue.cancel(&mut registry, job.id));
}

#[test]
fn internal_jobs_have_no_identifier_and_are_handed_out() {
    let (mut queue, registry) = fresh();
    queue.enqueue_internal(JobKind::Stop, "foo.service");
    assert_eq!(queue.len(&registry), 1);
    let job = queue.pop_front(&registry).unwrap();
    assert_eq!(job.id, 0);
    assert_eq!(job.unit_name, "foo.service");
    assert!(queue.pop_front(&registry).is_none());
}

#[test]
fn the_oldest_live_job_stands_for_its_unit() {
    let (mut queue, mut registry) = fresh();
    let first = queue.enqueue(&mut registry, JobKind::Start, "foo.service");
    let other = queue.enqueue(&mut registry, JobKind::Start, "bar.service");
    queue.enqueue(&mut registry, JobKind::Stop, "foo.service");
    assert_eq!(registry.for_unit("foo.service").unwrap().id, first.id);
    assert_eq!(registry.for_unit("bar.service").unwrap().id, other.id);
    assert!(registry.for_unit("baz.service").is_none());
    let ids: Vec<u32> = registry.list().iter().map(|job| job.id).collect();
    assert_eq!(ids, vec![first.id, other.id, other.id + 1]);
}

#[test]
fn a_dead_job_is_not_taken_into_a_queue() {
    let (mut queue, mut registry) = fresh();
    let job = queue.enqueue(&mut registry, JobKind::Start, "foo.service");
    registry.finish(job.id, JobResult::Canceled);
    let mut other = JobQueue::default();
    other.push_existing(&registry, job);
    assert!(other.is_empty(&registry));
    assert!(queue.is_empty(&registry));
}

#[test]
fn names_of_jobs() {
    let kinds = [
        (JobKind::Nop, "nop"),
        (JobKind::Start, "start"),
        (JobKind::Stop, "stop"),
        (JobKind::Restart, "restart"),
        (JobKind::Reload, "reload"),
        (JobKind::Isolate, "start"),
    ];
    for (kind, name) in kinds {
        assert_eq!(kind.as_str(), name);
    }
    assert_eq!(JobState::Waiting.as_str(), "waiting");
    assert_eq!(JobState::Running.as_str(), "running");
    let results = [
        (JobResult::Done, "done"),
        (JobResult::Canceled, "canceled"),
        (JobResult::Timeout, "timeout"),
        (JobResult::Failed, "failed"),
        (JobResult::Dependency, "dependency"),
    ];
    for (result, name) in results {
        assert_eq!(result.as_str(), name);
    }
}

#[test]
fn only_stop_like_jobs_order_as_stop() {
    assert!(orders_as_stop(JobKind::Stop));
    assert!(orders_as_stop(JobKind::Restart));
    assert!(!orders_as_stop(JobKind::Start));
    assert!(!orders_as_stop(JobKind::Reload));
}

#[test]
fn jobs_are_copied_whole() {
    let job = Job {
        id: 7,
        kind: JobKind::Reload,
        unit_name: "a.service".to_owned(),
    };
    let copy = job.clone();
    assert_eq!(copy.id, 7);
    assert_eq!(copy.kind, JobKind::Reload);
    assert_eq!(copy.unit_name, "a.service");
}

#[test]
fn later_jobs_get_greater_identifiers() {
    let mut registry = JobRegistry::new();
    let mut ingress = JobQueue::default();
    let mut manager = JobQueue::default();
    let first = ingress.enqueue(&mut registry, JobKind::Start, "one.service");
    assert!(ingress.cancel(&mut registry, first.id));
    let second = manager.enqueue_owned(&mut registry, JobKind::Stop, "two.service", Some(":1.5".to_owned()));
    assert!(manager.pop_front(&registry).is_some());
    registry.finish(second.id, JobResult::Failed);
    manager.enqueue_internal(JobKind::Start, "internal.service");
    registry.drain_events();
    let third = ingress.enqueue(&mut registry, JobKind::Start, "one.service");
    assert_eq!(ingress.cancel_all(&mut registry), 1);
    assert_eq!([first.id, second.id, third.id], [1, 2, 3]);
    assert_eq!(registry.n_installed(), 3);
}
