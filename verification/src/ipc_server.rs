//! Serving the control socket: how a request is read off a stream, and what
//! each request does.

use vstd::prelude::*;

use crate::ipc::{
    answered, refused, succeeded, DataView, IpcData, IpcJobInfo, IpcJobView, IpcRequest, IpcResponse, ResponseView,
    UnitInfo, FRAME_MAX,
};
use crate::job::{
    canceled_events, finished, installed, is_listing, JobInfo, JobInfoView, JobKind, JobQueue, JobRegistry,
    JobRegistryView, JobResult, JobView,
};
use crate::text;

verus! {

/// How much is read at once.
pub const IPC_READ_CHUNK: usize = 4096;

/// How long a client may keep the server waiting, in seconds.
pub const IPC_IO_TIMEOUT_SECS: u64 = 2;

/// How long the server pauses after it could not accept a connection, in
/// milliseconds.
pub const IPC_ACCEPT_ERROR_BACKOFF_MS: u64 = 100;

/// What came of reading from a client.
pub enum ReadEvent {
    /// Some bytes.
    Data(Vec<u8>),
    /// The end of the stream.
    Closed,
    /// The read was interrupted.
    Interrupted,
    /// The read failed.
    Failed(String),
}

/// What the bytes read so far are.
pub enum Decoded {
    /// A request.
    Complete,
    /// The beginning of one.
    Incomplete,
    /// No request, whatever follows.
    Invalid(String),
}

/// What to do next about a request.
pub enum FrameStep {
    /// Read at most this many bytes.
    Read(usize),
    /// Try to decode the bytes read so far.
    Decode,
    /// The request is complete.
    Done,
    /// Give up.
    Fail(String),
}

/// One request being read. A stream may split it anywhere, so it is complete
/// only when it can be decoded.
#[derive(Debug)]
pub struct FrameReader {
    frame: Vec<u8>,
}

impl View for FrameReader {
    type V = Seq<u8>;

    /// The bytes read so far.
    closed spec fn view(&self) -> Seq<u8> {
        self.frame@
    }
}

/// How much may be read next.
pub open spec fn read_limit(length: int) -> int {
    if FRAME_MAX - length < IPC_READ_CHUNK {
        FRAME_MAX - length
    } else {
        IPC_READ_CHUNK as int
    }
}

impl FrameReader {
    /// Nothing read yet.
    pub fn new() -> (r: Self)
        ensures
            r@ == Seq::<u8>::empty(),
    {
        FrameReader { frame: Vec::new() }
    }

    /// The bytes read so far.
    pub fn frame(&self) -> (r: &[u8])
        ensures
            r@ == self@,
    {
        self.frame.as_slice()
    }

    /// Go on reading, unless the frame is full.
    pub fn next(&self) -> (r: FrameStep)
        requires
            self@.len() <= FRAME_MAX,
        ensures
            self@.len() < FRAME_MAX ==> r == FrameStep::Read(read_limit(self@.len() as int) as usize) && read_limit(
                self@.len() as int,
            ) > 0,
            self@.len() == FRAME_MAX ==> r is Fail && r->Fail_0@ == "request exceeds 65536-byte frame limit"@,
    {
        if self.frame.len() == FRAME_MAX {
            return FrameStep::Fail("request exceeds 65536-byte frame limit".to_owned());
        }
        let remaining: usize = FRAME_MAX - self.frame.len();
        if remaining < IPC_READ_CHUNK {
            FrameStep::Read(remaining)
        } else {
            FrameStep::Read(IPC_READ_CHUNK)
        }
    }

    /// Take what a read came to.
    pub fn on_read(&mut self, event: ReadEvent) -> (r: FrameStep)
        requires
            old(self)@.len() < FRAME_MAX,
            event matches ReadEvent::Data(bytes) ==> 0 < bytes@.len() <= read_limit(old(self)@.len() as int),
        ensures
            final(self)@.len() <= FRAME_MAX,
            match event {
                ReadEvent::Data(bytes) => final(self)@ == old(self)@ + bytes@ && r == FrameStep::Decode,
                ReadEvent::Closed => final(self)@ == old(self)@ && r is Fail && r->Fail_0@
                    == "connection closed before a complete request"@,
                ReadEvent::Interrupted => final(self)@ == old(self)@ && r == FrameStep::Read(
                    read_limit(old(self)@.len() as int) as usize,
                ),
                ReadEvent::Failed(error) => final(self)@ == old(self)@ && r is Fail && r->Fail_0@
                    == "request read failed: "@ + error@,
            },
    {
        match event {
            ReadEvent::Data(bytes) => {
                let mut bytes = bytes;
                self.frame.append(&mut bytes);
                FrameStep::Decode
            },
            ReadEvent::Closed => FrameStep::Fail("connection closed before a complete request".to_owned()),
            ReadEvent::Interrupted => self.next(),
            ReadEvent::Failed(error) => {
                let mut text = "request read failed: ".to_owned();
                text.push_str(error.as_str());
                FrameStep::Fail(text)
            },
        }
    }

    /// Take what decoding the bytes read so far came to.
    pub fn on_decode(&self, outcome: Decoded) -> (r: FrameStep)
        requires
            self@.len() <= FRAME_MAX,
        ensures
            match outcome {
                Decoded::Complete => r == FrameStep::Done,
                Decoded::Incomplete => if self@.len() < FRAME_MAX {
                    r == FrameStep::Read(read_limit(self@.len() as int) as usize)
                } else {
                    r is Fail && r->Fail_0@ == "request exceeds 65536-byte frame limit"@
                },
                Decoded::Invalid(error) => r is Fail && r->Fail_0@ == "bad request: "@ + error@,
            },
    {
        match outcome {
            Decoded::Complete => FrameStep::Done,
            Decoded::Incomplete => self.next(),
            Decoded::Invalid(error) => {
                let mut text = "bad request: ".to_owned();
                text.push_str(error.as_str());
                FrameStep::Fail(text)
            },
        }
    }
}

/// The job that a request asks for.
pub open spec fn requested_job(req: IpcRequest) -> Option<(JobKind, Seq<char>)> {
    match req {
        IpcRequest::Start { unit } => Some((JobKind::Start, unit@)),
        IpcRequest::Stop { unit } => Some((JobKind::Stop, unit@)),
        IpcRequest::Restart { unit } => Some((JobKind::Restart, unit@)),
        IpcRequest::Reload { unit } => Some((JobKind::Reload, unit@)),
        IpcRequest::Isolate { unit } => Some((JobKind::Isolate, unit@)),
        _ => None,
    }
}

/// What the manager does on a request.
pub enum Reply {
    /// Answer at once.
    Answer(IpcResponse),
    /// Wake the event loop, and answer with what that came to.
    AfterWake,
}

/// The answer of a reply that is given at once.
pub open spec fn answer(reply: Reply) -> Option<ResponseView> {
    match reply {
        Reply::Answer(response) => Some(response@),
        Reply::AfterWake => None,
    }
}

/// The first unit of a name, or the number of units.
pub open spec fn position(units: Seq<UnitInfo>, name: Seq<char>) -> int
    decreases units.len(),
{
    if units.len() == 0 {
        0
    } else if units[0].name@ == name {
        0
    } else {
        1 + position(units.drop_first(), name)
    }
}

/// What is said of a unit that is not loaded.
pub open spec fn not_loaded(unit: Seq<char>) -> ResponseView {
    refused("unit '"@ + unit + "' not loaded"@)
}

/// A live job as it is shown to clients.
pub open spec fn shown(job: JobInfoView) -> IpcJobView {
    IpcJobView { id: job.id, unit_name: job.unit, job_type: job.kind.name(), state: job.state.name() }
}

/// Live jobs as they are shown to clients.
pub open spec fn shown_all(jobs: Seq<JobInfoView>) -> Seq<IpcJobView> {
    jobs.map_values(|job: JobInfoView| shown(job))
}

proof fn lemma_position(units: Seq<UnitInfo>, name: Seq<char>, k: int)
    requires
        0 <= k <= units.len(),
        forall|i: int| 0 <= i < k ==> (#[trigger] units[i]).name@ != name,
        k < units.len() ==> units[k].name@ == name,
    ensures
        position(units, name) == k,
    decreases units.len(),
{
    if k > 0 {
        let rest = units.drop_first();
        assert(units[0].name@ != name);
        assert forall|i: int| 0 <= i < k - 1 implies (#[trigger] rest[i]).name@ != name by {
            assert(rest[i] == units[i + 1]);
        }
        lemma_position(rest, name, k - 1);
    }
}

fn find_unit(snapshot: &Vec<UnitInfo>, name: &str) -> (r: Option<usize>)
    ensures
        match r {
            Some(i) => i < snapshot@.len() && i == position(snapshot@, name@),
            None => position(snapshot@, name@) == snapshot@.len(),
        },
{
    let mut i: usize = 0;
    while i < snapshot.len()
        invariant
            i <= snapshot@.len(),
            forall|k: int| 0 <= k < i ==> (#[trigger] snapshot@[k]).name@ != name@,
        decreases snapshot@.len() - i,
    {
        if text::same(snapshot[i].name.as_str(), name) {
            proof {
                lemma_position(snapshot@, name@, i as int);
            }
            return Some(i);
        }
        i += 1;
    }
    proof {
        lemma_position(snapshot@, name@, i as int);
    }
    None
}

fn unit_not_loaded(unit: &str) -> (r: IpcResponse)
    ensures
        r@ == not_loaded(unit@),
{
    let mut text = "unit '".to_owned();
    text.push_str(unit);
    text.push_str("' not loaded");
    IpcResponse::err(text.as_str())
}

fn list_jobs(registry: &JobRegistry) -> (r: Vec<IpcJobInfo>)
    requires
        registry.wf(),
    ensures
        exists|jobs: Seq<JobInfoView>| #[trigger]
            is_listing(jobs, registry@.live) && r@.map_values(|job: IpcJobInfo| job@) == shown_all(jobs),
{
    let jobs = registry.list();
    let ghost listed = crate::job::job_infos(jobs@);
    let mut out: Vec<IpcJobInfo> = Vec::new();
    let mut i: usize = 0;
    while i < jobs.len()
        invariant
            listed == crate::job::job_infos(jobs@),
            i <= jobs@.len(),
            out@.len() == i,
            forall|k: int| 0 <= k < i ==> (#[trigger] out@[k])@ == shown(listed[k]),
        decreases jobs@.len() - i,
    {
        let job: &JobInfo = &jobs[i];
        out.push(
            IpcJobInfo {
                id: job.id,
                unit_name: job.unit_name.clone(),
                job_type: job.kind.as_str().to_owned(),
                state: job.state.as_str().to_owned(),
            },
        );
        i += 1;
    }
    assert(out@.map_values(|job: IpcJobInfo| job@) =~= shown_all(listed));
    out
}

/// What the manager does on a request, and what becomes of the jobs, the
/// reload flag and the requests to clear failures.
pub fn dispatch(
    req: IpcRequest,
    snapshot: &Vec<UnitInfo>,
    jobs: &mut JobQueue,
    registry: &mut JobRegistry,
    reload: &mut bool,
    reset_failed: &mut Vec<Vec<String>>,
) -> (r: Reply)
    requires
        old(registry).wf(),
        requested_job(req) is Some ==> old(registry)@.next_id < u32::MAX,
    ensures
        final(registry).wf(),
        match requested_job(req) {
            Some((kind, unit)) => {
                &&& r is AfterWake
                &&& final(registry)@ == installed(old(registry)@, kind, unit, None)
                &&& final(jobs)@ == old(jobs)@.push(JobView { id: old(registry)@.next_id, kind, unit })
            },
            None => !(req is Cancel) ==> final(registry)@ == old(registry)@ && final(jobs)@ == old(jobs)@,
        },
        *final(reload) == (*old(reload) || req is DaemonReload),
        final(reset_failed)@ == match req {
            IpcRequest::ResetFailed { units } => old(reset_failed)@.push(units),
            _ => old(reset_failed)@,
        },
        match req {
            IpcRequest::ListUnits => answer(r) == Some(answered(DataView::Units(snapshot@))),
            IpcRequest::ListJobs => exists|listed: Seq<JobInfoView>| #[trigger]
                is_listing(listed, old(registry)@.live) && answer(r) == Some(
                    answered(DataView::Jobs(shown_all(listed))),
                ),
            IpcRequest::Status { unit } => answer(r) == Some(
                if position(snapshot@, unit@) < snapshot@.len() {
                    answered(DataView::Unit(snapshot@[position(snapshot@, unit@)]))
                } else {
                    not_loaded(unit@)
                },
            ),
            IpcRequest::IsActive { unit } | IpcRequest::IsFailed { unit } => answer(r) == Some(
                if position(snapshot@, unit@) < snapshot@.len() {
                    answered(DataView::Text(snapshot@[position(snapshot@, unit@)].active_state@))
                } else {
                    not_loaded(unit@)
                },
            ),
            IpcRequest::ResetFailed { .. } | IpcRequest::DaemonReload => r is AfterWake,
            IpcRequest::Cancel { job_id: Some(id) } => {
                &&& final(registry)@ == finished(old(registry)@, id, JobResult::Canceled)
                &&& final(jobs)@ == (if id == 0 {
                    old(jobs)@
                } else {
                    old(jobs)@.filter(|job: JobView| job.id != id)
                })
                &&& if old(registry)@.live.dom().contains(id) {
                    r is AfterWake
                } else {
                    answer(r) == Some(refused("job "@ + text::decimal(id as nat) + " does not exist"@))
                }
            },
            IpcRequest::Cancel { job_id: None } => {
                &&& exists|listed: Seq<JobInfoView>| #[trigger]
                    is_listing(listed, old(registry)@.live) && final(registry)@ == (JobRegistryView {
                        live: Map::empty(),
                        owners: Set::empty(),
                        edges: Set::empty(),
                        events: old(registry)@.events + canceled_events(listed),
                        ..old(registry)@
                    })
                &&& final(jobs)@ == old(jobs)@.filter(|job: JobView| !old(registry)@.live.dom().contains(job.id))
                &&& if old(registry)@.live.dom().len() > 0 {
                    r is AfterWake
                } else {
                    answer(r) == Some(succeeded())
                }
            },
            IpcRequest::Enable { .. } | IpcRequest::Disable { .. } | IpcRequest::IsEnabled { .. } => answer(r) == Some(
                refused("enable/disable are client-side file operations"@),
            ),
            _ => true,
        },
{
    match req {
        IpcRequest::ListUnits => {
            let units = snapshot.clone();
            assert(units@ =~= snapshot@);
            Reply::Answer(IpcResponse::with_data(IpcData::Units(units)))
        },
        IpcRequest::ListJobs => Reply::Answer(IpcResponse::with_data(IpcData::Jobs(list_jobs(registry)))),
        IpcRequest::Status { unit } => match find_unit(snapshot, unit.as_str()) {
            Some(i) => Reply::Answer(IpcResponse::with_data(IpcData::Unit(snapshot[i].clone()))),
            None => Reply::Answer(unit_not_loaded(unit.as_str())),
        },
        IpcRequest::Start { unit } => {
            jobs.enqueue(registry, JobKind::Start, unit.as_str());
            Reply::AfterWake
        },
        IpcRequest::Stop { unit } => {
            jobs.enqueue(registry, JobKind::Stop, unit.as_str());
            Reply::AfterWake
        },
        IpcRequest::Restart { unit } => {
            jobs.enqueue(registry, JobKind::Restart, unit.as_str());
            Reply::AfterWake
        },
        IpcRequest::Reload { unit } => {
            jobs.enqueue(registry, JobKind::Reload, unit.as_str());
            Reply::AfterWake
        },
        IpcRequest::Isolate { unit } => {
            jobs.enqueue(registry, JobKind::Isolate, unit.as_str());
            Reply::AfterWake
        },
        IpcRequest::IsActive { unit } | IpcRequest::IsFailed { unit } => match find_unit(snapshot, unit.as_str()) {
            Some(i) => Reply::Answer(IpcResponse::with_data(IpcData::Text(snapshot[i].active_state.clone()))),
            None => Reply::Answer(unit_not_loaded(unit.as_str())),
        },
        IpcRequest::ResetFailed { units } => {
            reset_failed.push(units);
            Reply::AfterWake
        },
        IpcRequest::DaemonReload => {
            *reload = true;
            Reply::AfterWake
        },
        IpcRequest::Cancel { job_id } => match job_id {
            Some(id) => {
                if jobs.cancel(registry, id) {
                    Reply::AfterWake
                } else {
                    let mut text = "job ".to_owned();
                    text.push_str(text::decimal_of(id as u128).as_str());
                    text.push_str(" does not exist");
                    Reply::Answer(IpcResponse::err(text.as_str()))
                }
            },
            None => {
                if jobs.cancel_all(registry) > 0 {
                    Reply::AfterWake
                } else {
                    Reply::Answer(IpcResponse::ok())
                }
            },
        },
        IpcRequest::Enable { .. } | IpcRequest::Disable { .. } | IpcRequest::IsEnabled { .. } => Reply::Answer(
            IpcResponse::err("enable/disable are client-side file operations"),
        ),
    }
}

/// The answer after the event loop was woken.
pub fn wake_response(result: Result<(), String>) -> (r: IpcResponse)
    ensures
        r@ == match result {
            Ok(()) => succeeded(),
            Err(error) => refused("internal: event loop wake failed: "@ + error@),
        },
{
    match result {
        Ok(()) => IpcResponse::ok(),
        Err(error) => {
            let mut text = "internal: event loop wake failed: ".to_owned();
            text.push_str(error.as_str());
            IpcResponse::err(text.as_str())
        },
    }
}

/// A frame is read in pieces of at most 4096 bytes, and never beyond 65536.
pub proof fn law_how_much_is_read(length: int)
    requires
        0 <= length <= 65536,
    ensures
        length + read_limit(length) <= 65536,
        0 <= read_limit(length) <= 4096,
        length + 4096 <= 65536 ==> read_limit(length) == 4096,
        length + 4096 > 65536 ==> length + read_limit(length) == 65536,
        IPC_READ_CHUNK == 4096 && IPC_IO_TIMEOUT_SECS == 2 && IPC_ACCEPT_ERROR_BACKOFF_MS == 100,
{
}

/// Which requests ask for a job, of which kind and on which unit: start, stop,
/// restart, reload and isolate.
pub proof fn law_which_requests_ask_for_jobs(req: IpcRequest)
    ensures
        requested_job(req) is Some <==> req is Start || req is Stop || req is Restart || req is Reload || req is Isolate,
        req matches IpcRequest::Start { unit } ==> requested_job(req) == Some((JobKind::Start, unit@)),
        req matches IpcRequest::Stop { unit } ==> requested_job(req) == Some((JobKind::Stop, unit@)),
        req matches IpcRequest::Restart { unit } ==> requested_job(req) == Some((JobKind::Restart, unit@)),
        req matches IpcRequest::Reload { unit } ==> requested_job(req) == Some((JobKind::Reload, unit@)),
        req matches IpcRequest::Isolate { unit } ==> requested_job(req) == Some((JobKind::Isolate, unit@)),
{
}

/// A unit is found at its first place; one that is not there is answered with
/// its name.
pub proof fn law_where_a_unit_is_found(units: Seq<UnitInfo>, name: Seq<char>)
    ensures
        0 <= position(units, name) <= units.len(),
        position(units, name) < units.len() ==> units[position(units, name)].name@ == name,
        forall|i: int| 0 <= i < position(units, name) ==> (#[trigger] units[i]).name@ != name,
        !not_loaded(name).ok,
        not_loaded(name).data is None,
        not_loaded(name).error == Some("unit '"@ + name + "' not loaded"@),
    decreases units.len(),
{
    if units.len() > 0 && units[0].name@ != name {
        let rest = units.drop_first();
        law_where_a_unit_is_found(rest, name);
        assert forall|i: int| 0 <= i < position(units, name) implies (#[trigger] units[i]).name@ != name by {
            if i > 0 {
                assert(units[i] == rest[i - 1]);
            }
        }
    }
}

/// Jobs are shown one by one, with the words for their kind and state.
pub proof fn law_how_jobs_are_shown(jobs: Seq<JobInfoView>, i: int, response: IpcResponse)
    requires
        0 <= i < jobs.len(),
    ensures
        shown_all(jobs).len() == jobs.len(),
        ({
            let seen = shown_all(jobs)[i];
            &&& seen.id == jobs[i].id
            &&& seen.unit_name == jobs[i].unit
            &&& seen.job_type == jobs[i].kind.name()
            &&& seen.state == jobs[i].state.name()
        }),
        answer(Reply::Answer(response)) == Some(response@),
        answer(Reply::AfterWake) is None,
{
}

} // verus!
