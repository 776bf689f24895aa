use rustd::ipc::{
    control_socket_path, user_control_socket_path, IpcData, IpcRequest, IpcResponse, ServiceRuntimeInfo, UnitInfo,
    FRAME_MAX,
};
use rustd::ipc_server::{dispatch, wake_response, Decoded, FrameReader, FrameStep, ReadEvent, Reply, IPC_READ_CHUNK};
use rustd::job::{JobKind, JobQueue, JobRegistry};

fn decoded(frame: &[u8]) -> Decoded {
    match serde_json::from_slice::<serde_json::Value>(frame) {
        Ok(_) => Decoded::Complete,
        Err(error) if error.is_eof() => Decoded::Incomplete,
        Err(error) => Decoded::Invalid(error.to_string()),
    }
}

fn read_request_frame(input: &[u8]) -> Result<Vec<u8>, String> {
    let mut reader = FrameReader::new();
    let mut at = 0;
    let mut step = reader.next();
    loop {
        step = match step {
            FrameStep::Read(limit) => {
                let end = input.len().min(at + limit);
                let event = if end == at {
                    ReadEvent::Closed
                } else {
                    ReadEvent::Data(input[at..end].to_vec())
                };
                at = end;
                reader.on_read(event)
            }
            FrameStep::Decode => reader.on_decode(decoded(reader.frame())),
            FrameStep::Done => return Ok(reader.frame().to_vec()),
            FrameStep::Fail(error) => return Err(error),
        };
    }
}

#[test]
fn fragmented_stream_request_is_reassembled() {
    let mut request = b"{\"op\":\"start\",\"unit\":\"".to_vec();
    request.extend(vec![b'x'; 2 * IPC_READ_CHUNK]);
    request.extend_from_slice(b"\"}");
    assert_eq!(read_request_frame(&request).expect("fragmented request"), request);
}

#[test]
fn invalid_stream_request_fails_without_waiting_for_eof() {
    let error = read_request_frame(b"{invalid-json").expect_err("invalid request");
    assert!(error.starts_with("bad request:"));
}

#[test]
fn incomplete_frame_is_bounded() {
    let input = vec![b' '; FRAME_MAX];
    let error = read_request_frame(&input).expect_err("oversized incomplete request");
    assert!(error.contains("frame limit"));
}

#[test]
fn closed_and_broken_connections_are_reported() {
    assert_eq!(
        read_request_frame(b"{").unwrap_err(),
        "connection closed before a complete request"
    );
    let mut reader = FrameReader::new();
    match reader.on_read(ReadEvent::Failed("gone".to_owned())) {
        FrameStep::Fail(error) => assert_eq!(error, "request read failed: gone"),
        _ => panic!("must fail"),
    }
    assert!(matches!(reader.on_read(ReadEvent::Interrupted), FrameStep::Read(IPC_READ_CHUNK)));
}

#[test]
fn response_ok_no_data() {
    let back = IpcResponse::ok();
    assert!(back.ok);
    assert!(back.data.is_none());
    assert!(back.error.is_none());
}

#[test]
fn response_err() {
    let back = IpcResponse::err("unit not found");
    assert!(!back.ok);
    assert_eq!(back.error.as_deref(), Some("unit not found"));
}

#[test]
fn sockets_are_where_the_environment_says() {
    assert_eq!(control_socket_path(None), "/run/rustd/ctl.sock");
    assert_eq!(control_socket_path(Some("/tmp/x")), "/tmp/x");
    assert_eq!(user_control_socket_path(Some("/tmp/x"), Some("/run/user/1"), 1), "/tmp/x");
    assert_eq!(
        user_control_socket_path(None, Some("/run/user/1000"), 1),
        "/run/user/1000/rustd/ctl.sock"
    );
    assert_eq!(user_control_socket_path(None, None, 1000), "/run/user/1000/rustd/ctl.sock");
}

fn unit(name: &str, active: &str) -> UnitInfo {
    UnitInfo {
        name: name.to_owned(),
        load_state: "loaded".to_owned(),
        active_state: active.to_owned(),
        sub_state: "running".to_owned(),
        description: "Test".to_owned(),
        main_pid: Some(1234),
        unit_type: "service".to_owned(),
        service_type: Some("simple".to_owned()),
        restart_policy: Some("no".to_owned()),
        service_runtime: Box::new(ServiceRuntimeInfo::default()),
    }
}

struct Server {
    snapshot: Vec<UnitInfo>,
    jobs: JobQueue,
    registry: JobRegistry,
    reload: bool,
    reset: Vec<Vec<String>>,
}

fn server() -> Server {
    Server {
        snapshot: vec![unit("a.service", "active"), unit("b.service", "failed")],
        jobs: JobQueue::default(),
        registry: JobRegistry::new(),
        reload: false,
        reset: Vec::new(),
    }
}

impl Server {
    fn ask(&mut self, req: IpcRequest) -> Option<IpcResponse> {
        let reply = dispatch(
            req,
            &self.snapshot,
            &mut self.jobs,
            &mut self.registry,
            &mut self.reload,
            &mut self.reset,
        );
        match reply {
            Reply::Answer(response) => Some(response),
            Reply::AfterWake => None,
        }
    }
}

#[test]
fn requests_for_work_become_jobs() {
    let mut server = server();
    let requests = [
        (IpcRequest::Start { unit: "u".to_owned() }, JobKind::Start),
        (IpcRequest::Stop { unit: "u".to_owned() }, JobKind::Stop),
        (IpcRequest::Restart { unit: "u".to_owned() }, JobKind::Restart),
        (IpcRequest::Reload { unit: "u".to_owned() }, JobKind::Reload),
        (IpcRequest::Isolate { unit: "u".to_owned() }, JobKind::Isolate),
    ];
    for (request, kind) in requests {
        assert!(server.ask(request).is_none());
        let job = server.jobs.pop_front(&server.registry).unwrap();
        assert_eq!(job.kind, kind);
        assert_eq!(job.unit_name, "u");
        assert_eq!(server.registry.get(job.id).unwrap().kind, kind);
    }
    match server.ask(IpcRequest::ListJobs).unwrap().data {
        Some(IpcData::Jobs(jobs)) => {
            assert_eq!(jobs.len(), 5);
            assert_eq!(jobs[1].job_type, "stop");
            assert_eq!(jobs[1].state, "waiting");
        }
        _ => panic!("no jobs"),
    }
}

#[test]
fn requests_about_units_are_answered_from_the_snapshot() {
    let mut server = server();
    match server.ask(IpcRequest::ListUnits).unwrap().data {
        Some(IpcData::Units(units)) => assert_eq!(units.len(), 2),
        _ => panic!("no units"),
    }
    match server.ask(IpcRequest::Status { unit: "b.service".to_owned() }).unwrap().data {
        Some(IpcData::Unit(info)) => assert_eq!(info.name, "b.service"),
        _ => panic!("no unit"),
    }
    match server.ask(IpcRequest::IsActive { unit: "a.service".to_owned() }).unwrap().data {
        Some(IpcData::Text(text)) => assert_eq!(text, "active"),
        _ => panic!("no text"),
    }
    match server.ask(IpcRequest::IsFailed { unit: "b.service".to_owned() }).unwrap().data {
        Some(IpcData::Text(text)) => assert_eq!(text, "failed"),
        _ => panic!("no text"),
    }
    let refused = server.ask(IpcRequest::Status { unit: "c.service".to_owned() }).unwrap();
    assert_eq!(refused.error.as_deref(), Some("unit 'c.service' not loaded"));
    for request in [
        IpcRequest::Enable { unit: "a.service".to_owned() },
        IpcRequest::Disable { unit: "a.service".to_owned() },
        IpcRequest::IsEnabled { unit: "a.service".to_owned() },
    ] {
        assert_eq!(
            server.ask(request).unwrap().error.as_deref(),
            Some("enable/disable are client-side file operations")
        );
    }
}

#[test]
fn jobs_can_be_canceled() {
    let mut server = server();
    assert!(server.ask(IpcRequest::Cancel { job_id: None }).unwrap().ok);
    assert_eq!(
        server.ask(IpcRequest::Cancel { job_id: Some(9) }).unwrap().error.as_deref(),
        Some("job 9 does not exist")
    );
    server.ask(IpcRequest::Start { unit: "u".to_owned() });
    server.ask(IpcRequest::Start { unit: "v".to_owned() });
    assert!(server.ask(IpcRequest::Cancel { job_id: Some(1) }).is_none());
    assert!(!server.registry.is_live(1));
    assert!(server.ask(IpcRequest::Cancel { job_id: None }).is_none());
    assert!(server.registry.is_empty());
}

#[test]
fn flags_are_left_for_the_manager() {
    let mut server = server();
    assert!(server.ask(IpcRequest::DaemonReload).is_none());
    assert!(server.reload);
    assert!(server
        .ask(IpcRequest::ResetFailed { units: vec!["a.service".to_owned()] })
        .is_none());
    assert_eq!(server.reset, vec![vec!["a.service".to_owned()]]);
    assert!(wake_response(Ok(())).ok);
    assert_eq!(
        wake_response(Err("broken".to_owned())).error.as_deref(),
        Some("internal: event loop wake failed: broken")
    );
}
