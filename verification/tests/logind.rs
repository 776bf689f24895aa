use rustd::logind::{
    directory_step, object_component, owner_step, parse, rebuild_summaries, save, seat_path, session, session_path,
    sort_sessions, user_path, user_runtime_path, DirectoryStep, OwnerStep, PathKind, Session,
};

fn example(id: &str) -> Session {
    Session {
        id: id.to_owned(),
        uid: 1000,
        user: "test-user".to_owned(),
        gid: 100,
        seat: "seat0".to_owned(),
        tty: "tty2".to_owned(),
        service: "login".to_owned(),
        session_type: "tty".to_owned(),
        class: "user".to_owned(),
        desktop: "console".to_owned(),
        display: ":0".to_owned(),
        remote: true,
        remote_user: "remote-user".to_owned(),
        remote_host: "example.test".to_owned(),
        leader: 4321,
        state: "active".to_owned(),
        locked: false,
    }
}

#[test]
fn user_runtime_and_session_metadata_round_trip() {
    assert_eq!(user_runtime_path("/run/user", 1000), "/run/user/1000");
    let expected = example("r-test");
    let (path, content) = save("/run/rustd", &expected);
    assert!(path.ends_with("/r-test"));
    let read = session("r-test", true, Some(&content)).unwrap();
    assert_eq!(read.serialize(), expected.serialize());
    assert_eq!(read.id, expected.id);
    assert_eq!(read.uid, expected.uid);
    assert_eq!(read.gid, expected.gid);
    assert_eq!(read.remote_host, expected.remote_host);
    assert_eq!(read.leader, expected.leader);
    assert!(read.remote);
    assert!(!read.locked);
    assert!(session("r-test", false, None).is_none());
}

#[test]
fn missing_values_have_defaults() {
    let read = session("x", true, None).unwrap();
    assert_eq!(read.seat, "seat0");
    assert_eq!(read.session_type, "unspecified");
    assert_eq!(read.class, "user");
    assert_eq!(read.state, "active");
    assert_eq!(read.uid, 0);
    let values = parse("A=b\nnonsense\nC=d=e\n");
    assert_eq!(values.get("A").map(String::as_str), Some("b"));
    assert_eq!(values.get("C").map(String::as_str), Some("d=e"));
    assert!(!values.contains("nonsense"));
}

#[test]
fn sessions_are_sorted_by_identifier() {
    let sorted = sort_sessions(&vec![example("c2"), example("c10"), example("a")]);
    let ids: Vec<&str> = sorted.iter().map(|s| s.id.as_str()).collect();
    assert_eq!(ids, vec!["a", "c10", "c2"]);
}

#[test]
fn users_and_seats_are_summed_up() {
    let mut other = example("b");
    other.uid = 7;
    other.seat = "seat1".to_owned();
    let (users, seats) = rebuild_summaries(&vec![example("a"), other], "/run/user");
    assert_eq!(users.iter().map(|s| s.name.as_str()).collect::<Vec<_>>(), vec!["7", "1000"]);
    assert_eq!(
        users[0].text,
        "UID=7\nGID=100\nUSER=test-user\nSTATE=active\nRUNTIME=/run/user/7\nSESSIONS=b\n"
    );
    assert_eq!(seats.len(), 2);
    assert_eq!(seats[0].name, "seat0");
    assert_eq!(seats[0].text, "ID=seat0\nACTIVE_SESSION=a\nSESSIONS=a\n");
}

#[test]
fn directories_are_taken_over_carefully() {
    assert_eq!(directory_step(PathKind::Missing), DirectoryStep::Create);
    assert_eq!(directory_step(PathKind::Directory), DirectoryStep::Use);
    assert_eq!(directory_step(PathKind::Unsafe), DirectoryStep::Refuse);
    assert_eq!(owner_step(0, 0, 1000, 100), OwnerStep::Change);
    assert_eq!(owner_step(1000, 100, 1000, 100), OwnerStep::Keep);
    assert_eq!(owner_step(1000, 100, 1001, 100), OwnerStep::Refuse);
}

#[test]
fn bus_paths_are_escaped() {
    assert_eq!(object_component("abc1"), "abc1");
    assert_eq!(object_component("r-1"), "r_2d1");
    assert_eq!(session_path("a"), "/io/rustd/Login1/session/a");
    assert_eq!(seat_path("seat0"), "/io/rustd/Login1/seat/seat0");
    assert_eq!(user_path(7), "/io/rustd/Login1/user/7");
}

#[test]
fn summaries_ascend_and_name_each_once() {
    let mut sessions = Vec::new();
    for (id, uid, seat) in [("a", 1000, "seat2"), ("b", 7, "seat10"), ("c", 1000, "seat0"), ("d", 42, "seat2")] {
        let mut session = example(id);
        session.uid = uid;
        session.seat = seat.to_owned();
        sessions.push(session);
    }
    let (users, seats) = rebuild_summaries(&sessions, "/run/user");
    assert_eq!(users.iter().map(|s| s.name.as_str()).collect::<Vec<_>>(), vec!["7", "42", "1000"]);
    assert_eq!(seats.iter().map(|s| s.name.as_str()).collect::<Vec<_>>(), vec!["seat0", "seat10", "seat2"]);
}
