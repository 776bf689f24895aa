//! The control protocol between the manager and its client: requests,
//! responses, and where the socket is.

use vstd::prelude::*;

use crate::paths;
use crate::text;

verus! {

/// Path of the manager's control socket.
pub const SOCKET_PATH: &'static str = "/run/rustd/ctl.sock";

/// Maximum frame size (64 KiB).
pub const FRAME_MAX: usize = 65536;

/// The control socket of the system manager: the one configured, else the
/// default.
pub fn control_socket_path(configured: Option<&str>) -> (r: String)
    ensures
        r@ == match configured {
            Some(path) => path@,
            None => SOCKET_PATH@,
        },
{
    match configured {
        Some(path) => path.to_owned(),
        None => SOCKET_PATH.to_owned(),
    }
}

/// The control socket of a user's manager: the one configured, else one in the
/// user's runtime directory.
pub fn user_control_socket_path(configured: Option<&str>, runtime_dir: Option<&str>, uid: u32) -> (r: String)
    ensures
        r@ == match configured {
            Some(path) => path@,
            None => paths::joined(
                match runtime_dir {
                    Some(dir) => dir@,
                    None => "/run/user/"@ + text::decimal(uid as nat),
                },
                "rustd/ctl.sock"@,
            ),
        },
{
    match configured {
        Some(path) => path.to_owned(),
        None => {
            let runtime = match runtime_dir {
                Some(dir) => dir.to_owned(),
                None => {
                    let mut dir = "/run/user/".to_owned();
                    dir.push_str(text::decimal_of(uid as u128).as_str());
                    dir
                },
            };
            paths::join(runtime.as_str(), "rustd/ctl.sock")
        },
    }
}

/// A command sent from the client to the manager.
#[derive(Debug)]
#[allow(inconsistent_fields)]
pub enum IpcRequest {
    /// Return a list of all loaded units.
    ListUnits,
    /// Return all jobs that are waiting or running.
    ListJobs,
    /// Return detailed information about one unit.
    Status { unit: String },
    /// Enqueue a start job.
    Start { unit: String },
    /// Enqueue a stop job.
    Stop { unit: String },
    /// Enqueue a restart job.
    Restart { unit: String },
    /// Enqueue a reload job.
    Reload { unit: String },
    /// Replace the active units with those of a target.
    Isolate { unit: String },
    /// Create the installation links of a unit.
    Enable { unit: String },
    /// Remove the installation links of a unit.
    Disable { unit: String },
    /// Report whether the unit is enabled.
    IsEnabled { unit: String },
    /// Report whether the unit is active.
    IsActive { unit: String },
    /// Report whether the unit is failed.
    IsFailed { unit: String },
    /// Clear failure state for named units, or every loaded unit when empty.
    ResetFailed { units: Vec<String> },
    /// Re-scan unit directories and reload changed units.
    DaemonReload,
    /// Cancel one job, or all jobs when no identifier is supplied.
    Cancel { job_id: Option<u32> },
}

/// The manager's reply to a single request.
#[derive(Debug)]
pub struct IpcResponse {
    /// Whether the request succeeded.
    pub ok: bool,
    /// What went wrong where it did not.
    pub error: Option<String>,
    /// Response payload.
    pub data: Option<IpcData>,
}

/// The payload of a response.
#[derive(Debug)]
pub enum IpcData {
    /// Unit summaries.
    Units(Vec<UnitInfo>),
    /// A single unit.
    Unit(UnitInfo),
    /// Live jobs.
    Jobs(Vec<IpcJobInfo>),
    /// A word.
    Text(String),
}

/// Job information.
#[derive(Debug)]
pub struct IpcJobInfo {
    /// Job identifier.
    pub id: u32,
    /// Unit to which the job applies.
    pub unit_name: String,
    /// Job type, for example `start`.
    pub job_type: String,
    /// Job state, either `waiting` or `running`.
    pub state: String,
}

/// A realized dynamic user.
#[derive(Debug)]
pub struct DynamicUserInfo {
    /// Its number, which is also that of its group.
    pub uid: u32,
    /// Its name.
    pub name: String,
}

/// Runtime state of a service.
#[derive(Debug)]
pub struct ServiceRuntimeInfo {
    pub invocation_id: Option<[u8; 16]>,
    pub restart_count: u32,
    pub bus_name: Option<String>,
    pub control_pid: Option<i32>,
    pub status_text: Option<String>,
    pub status_errno: Option<i32>,
    pub watchdog_timestamp_ns: Option<i64>,
    pub watchdog_timestamp_realtime_ns: Option<i64>,
    pub exec_main_start_realtime_ns: Option<i64>,
    pub exec_main_start_monotonic_ns: Option<i64>,
    pub exec_main_exit_realtime_ns: Option<i64>,
    pub exec_main_exit_monotonic_ns: Option<i64>,
    pub result: String,
    pub exec_main_code: i32,
    pub exec_main_status: i32,
    pub dynamic_user: Option<DynamicUserInfo>,
    pub file_descriptor_store_max: u32,
}

/// Information about a unit.
#[derive(Debug)]
pub struct UnitInfo {
    pub name: String,
    pub load_state: String,
    pub active_state: String,
    pub sub_state: String,
    pub description: String,
    pub main_pid: Option<i32>,
    pub unit_type: String,
    /// For services only.
    pub service_type: Option<String>,
    /// For services only.
    pub restart_policy: Option<String>,
    pub service_runtime: Box<ServiceRuntimeInfo>,
}

/// A copy of a string that may be absent.
pub fn copy_option(s: &Option<String>) -> (r: Option<String>)
    ensures
        r == *s,
{
    match s {
        Some(s) => Some(s.clone()),
        None => None,
    }
}

impl Clone for DynamicUserInfo {
    fn clone(&self) -> (r: Self)
        ensures
            r == *self,
    {
        DynamicUserInfo { uid: self.uid, name: self.name.clone() }
    }
}

impl Clone for ServiceRuntimeInfo {
    fn clone(&self) -> (r: Self)
        ensures
            r == *self,
    {
        ServiceRuntimeInfo {
            invocation_id: self.invocation_id,
            restart_count: self.restart_count,
            bus_name: copy_option(&self.bus_name),
            control_pid: self.control_pid,
            status_text: copy_option(&self.status_text),
            status_errno: self.status_errno,
            watchdog_timestamp_ns: self.watchdog_timestamp_ns,
            watchdog_timestamp_realtime_ns: self.watchdog_timestamp_realtime_ns,
            exec_main_start_realtime_ns: self.exec_main_start_realtime_ns,
            exec_main_start_monotonic_ns: self.exec_main_start_monotonic_ns,
            exec_main_exit_realtime_ns: self.exec_main_exit_realtime_ns,
            exec_main_exit_monotonic_ns: self.exec_main_exit_monotonic_ns,
            result: self.result.clone(),
            exec_main_code: self.exec_main_code,
            exec_main_status: self.exec_main_status,
            dynamic_user: match &self.dynamic_user {
                Some(user) => Some(user.clone()),
                None => None,
            },
            file_descriptor_store_max: self.file_descriptor_store_max,
        }
    }
}

impl Default for ServiceRuntimeInfo {
    fn default() -> (r: Self)
        ensures
            r.invocation_id is None,
            r.restart_count == 0,
            r.bus_name is None,
            r.control_pid is None,
            r.status_text is None,
            r.status_errno is None,
            r.watchdog_timestamp_ns is None,
            r.watchdog_timestamp_realtime_ns is None,
            r.exec_main_start_realtime_ns is None,
            r.exec_main_start_monotonic_ns is None,
            r.exec_main_exit_realtime_ns is None,
            r.exec_main_exit_monotonic_ns is None,
            r.result@ == Seq::<char>::empty(),
            r.exec_main_code == 0,
            r.exec_main_status == 0,
            r.dynamic_user is None,
            r.file_descriptor_store_max == 0,
    {
        ServiceRuntimeInfo {
            invocation_id: None,
            restart_count: 0,
            bus_name: None,
            control_pid: None,
            status_text: None,
            status_errno: None,
            watchdog_timestamp_ns: None,
            watchdog_timestamp_realtime_ns: None,
            exec_main_start_realtime_ns: None,
            exec_main_start_monotonic_ns: None,
            exec_main_exit_realtime_ns: None,
            exec_main_exit_monotonic_ns: None,
            result: String::new(),
            exec_main_code: 0,
            exec_main_status: 0,
            dynamic_user: None,
            file_descriptor_store_max: 0,
        }
    }
}

impl Clone for UnitInfo {
    fn clone(&self) -> (r: Self)
        ensures
            r == *self,
    {
        let runtime: &ServiceRuntimeInfo = &self.service_runtime;
        UnitInfo {
            name: self.name.clone(),
            load_state: self.load_state.clone(),
            active_state: self.active_state.clone(),
            sub_state: self.sub_state.clone(),
            description: self.description.clone(),
            main_pid: self.main_pid,
            unit_type: self.unit_type.clone(),
            service_type: copy_option(&self.service_type),
            restart_policy: copy_option(&self.restart_policy),
            service_runtime: Box::new(runtime.clone()),
        }
    }
}

/// Job information.
pub struct IpcJobView {
    pub id: u32,
    pub unit_name: Seq<char>,
    pub job_type: Seq<char>,
    pub state: Seq<char>,
}

impl View for IpcJobInfo {
    type V = IpcJobView;

    open spec fn view(&self) -> IpcJobView {
        IpcJobView { id: self.id, unit_name: self.unit_name@, job_type: self.job_type@, state: self.state@ }
    }
}

/// The payload of a response.
pub enum DataView {
    Units(Seq<UnitInfo>),
    Unit(UnitInfo),
    Jobs(Seq<IpcJobView>),
    Text(Seq<char>),
}

impl View for IpcData {
    type V = DataView;

    open spec fn view(&self) -> DataView {
        match *self {
            IpcData::Units(units) => DataView::Units(units@),
            IpcData::Unit(unit) => DataView::Unit(unit),
            IpcData::Jobs(jobs) => DataView::Jobs(jobs@.map_values(|job: IpcJobInfo| job@)),
            IpcData::Text(text) => DataView::Text(text@),
        }
    }
}

/// A response.
pub struct ResponseView {
    pub ok: bool,
    pub error: Option<Seq<char>>,
    pub data: Option<DataView>,
}

impl View for IpcResponse {
    type V = ResponseView;

    open spec fn view(&self) -> ResponseView {
        ResponseView {
            ok: self.ok,
            error: text::opt_view(self.error),
            data: match self.data {
                Some(data) => Some(data@),
                None => None,
            },
        }
    }
}

/// A success without payload.
pub open spec fn succeeded() -> ResponseView {
    ResponseView { ok: true, error: None, data: None }
}

/// A success with a payload.
pub open spec fn answered(data: DataView) -> ResponseView {
    ResponseView { ok: true, error: None, data: Some(data) }
}

/// An error.
pub open spec fn refused(message: Seq<char>) -> ResponseView {
    ResponseView { ok: false, error: Some(message), data: None }
}

impl IpcResponse {
    /// A success response without payload.
    pub fn ok() -> (r: Self)
        ensures
            r@ == succeeded(),
    {
        IpcResponse { ok: true, error: None, data: None }
    }

    /// A success response with a payload.
    pub fn with_data(data: IpcData) -> (r: Self)
        ensures
            r@ == answered(data@),
    {
        IpcResponse { ok: true, error: None, data: Some(data) }
    }

    /// An error response.
    pub fn err(msg: &str) -> (r: Self)
        ensures
            r@ == refused(msg@),
    {
        IpcResponse { ok: false, error: Some(msg.to_owned()), data: None }
    }
}

/// What the three answers are: success without data, success with data, and a
/// refusal with its reason.
pub proof fn law_what_answers_are(data: DataView, message: Seq<char>)
    ensures
        succeeded().ok && succeeded().error is None && succeeded().data is None,
        answered(data).ok && answered(data).error is None && answered(data).data == Some(data),
        !refused(message).ok && refused(message).error == Some(message) && refused(message).data is None,
        FRAME_MAX == 65536,
        SOCKET_PATH@ == "/run/rustd/ctl.sock"@,
{
}

/// What is seen of an answer, of its data and of a job is what they hold.
pub proof fn law_an_answer_is_seen_as_it_is(response: IpcResponse, job: IpcJobInfo, i: int)
    ensures
        response@.ok == response.ok,
        response.error is None <==> response@.error is None,
        response.error matches Some(e) ==> response@.error == Some(e@),
        response.data is None <==> response@.data is None,
        response.data matches Some(IpcData::Text(t)) ==> response@.data == Some(DataView::Text(t@)),
        response.data matches Some(IpcData::Unit(u)) ==> response@.data == Some(DataView::Unit(u)),
        response.data matches Some(IpcData::Units(us)) ==> response@.data == Some(DataView::Units(us@)),
        response.data matches Some(IpcData::Jobs(js)) ==> {
            &&& response@.data matches Some(DataView::Jobs(seen))
            &&& seen.len() == js@.len()
            &&& 0 <= i < js@.len() ==> seen[i] == js@[i]@
        },
        job@.id == job.id && job@.unit_name == job.unit_name@ && job@.job_type == job.job_type@ && job@.state == job.state@,
{
}

} // verus!
