use rustd::event::loop_::LoopResult;
use rustd::journal::compression::{
    decode_step, decode_step_with, initial_capacity, initial_capacity_with, DecodeError, DecodeStep, DATA_SIZE_MAX,
};
use rustd::journal::daemon::{
    after_turn, directory_is_acceptable, link_step, removes_link, run_outcome, JournalDaemonConfig, LinkState, LinkStep,
    RunEnd, DEFAULT_RUNTIME_DIRECTORY,
};
use rustd::journal::entry::{normalize_id128, parse_priority, EntryRing, JournalEntry, Sequence, Stamp};
use rustd::journal::priority;
use rustd::journal::receiver::{parse_datagram_with_peer, trusted_peer, valid_field_name, DEFAULT_SOCKET_PATH};
use rustd::journal::rotation::{
    archive_name, is_archive_name, needs_rotation, vacuum, Archive, DEFAULT_MAX_FILE_SIZE, DEFAULT_MAX_USE,
};
use rustd::journal::sink::{JournalSink, SinkStep};
use rustd::journal::socket::{FileIdentity, SocketPathGuard};
use rustd::journal::stdout::{trim_newlines, StdoutStream, DEFAULT_STDOUT_PATH};
use rustd::journal::writer::{
    append_step, append_step_with, is_corruption_errno, is_corruption_errno_with, open_step, open_step_with,
    quarantine_name, AppendStep, JournalWriter, OpenStep,
};
use rustd::names::NameMap;
use rustd::sys::ErrorNumbers;

const BOOT: &str = "0123456789abcdef0123456789abcdef";

fn stamp(seqnum: u64) -> Stamp {
    Stamp {
        realtime_usec: 1000 + seqnum,
        seqnum,
        boot_id: Some(BOOT.to_owned()),
    }
}

fn message(unit: &str, msg: &str, seqnum: u64) -> JournalEntry {
    JournalEntry::message(unit, 6, msg, &stamp(seqnum))
}

fn parse_datagram(data: &[u8]) -> Option<JournalEntry> {
    parse_datagram_with_peer(data, None, &stamp(1))
}

#[test]
fn normalize_compact_and_hyphenated_id128() {
    let compact = "0123456789abcdef0123456789abcdef";
    let hyphenated = "01234567-89ab-cdef-0123-456789abcdef\n";
    assert_eq!(normalize_id128(compact).as_deref(), Some(compact));
    assert_eq!(normalize_id128(hyphenated).as_deref(), Some(compact));
    assert!(normalize_id128("0123-not-an-id").is_none());
}

#[test]
fn new_entry_has_current_boot_id_when_available() {
    let entry = JournalEntry::message("test.service", 6, "hello", &stamp(1));
    assert_eq!(entry.fields.get("_BOOT_ID").map(Vec::as_slice), Some(BOOT.as_bytes()));
    let unknown = Stamp {
        realtime_usec: 1,
        seqnum: 1,
        boot_id: None,
    };
    let entry = JournalEntry::message("test.service", 6, "hello", &unknown);
    assert!(entry.fields.get("_BOOT_ID").is_none());
}

#[test]
fn historical_boot_id_is_preserved() {
    let historical = b"aaaaaaaaaaaaaaaaaaaaaaaaaaaaaaaa".to_vec();
    let mut fields = NameMap::new();
    fields.insert("_BOOT_ID".into(), historical.clone());
    let entry = JournalEntry::new(fields, &stamp(1));
    assert_eq!(entry.fields.get("_BOOT_ID"), Some(&historical));
}

#[test]
fn push_and_drain_all() {
    let mut ring = EntryRing::new(16);
    let mut sequence = Sequence::new();
    for i in 0..3u8 {
        ring.push(message("test.service", &format!("msg {i}"), sequence.next_seqnum()));
    }
    assert_eq!(ring.len(), 3);
    let all = ring.drain_since(0);
    assert_eq!(all.len(), 3);
    assert_eq!(all[0].message_str(), "msg 0");
    assert_eq!(all[2].message_str(), "msg 2");
}

#[test]
fn drain_since_cursor() {
    let mut ring = EntryRing::new(16);
    let mut sequence = Sequence::new();
    ring.push(message("a.service", "first", sequence.next_seqnum()));
    ring.push(message("a.service", "second", sequence.next_seqnum()));
    ring.push(message("a.service", "third", sequence.next_seqnum()));
    let all = ring.drain_since(0);
    let cursor = all[1].seqnum;
    let tail = ring.drain_since(cursor);
    assert_eq!(tail.len(), 1);
    assert_eq!(tail[0].message_str(), "third");
}

#[test]
fn ring_wraps_correctly() {
    let mut ring = EntryRing::new(4);
    let mut sequence = Sequence::new();
    for i in 0..6u8 {
        ring.push(message("x.service", &format!("{i}"), sequence.next_seqnum()));
    }
    assert_eq!(ring.len(), 4);
    assert_eq!(ring.total_pushed(), 6);
    // Should retain entries 2..=5.
    let all = ring.drain_since(0);
    assert_eq!(all.len(), 4);
    assert_eq!(all[0].message_str(), "2");
    assert_eq!(all[3].message_str(), "5");
}

#[test]
fn priority_name() {
    assert_eq!(priority::name(6), "info");
    assert_eq!(priority::name(3), "err");
    assert_eq!(priority::name(0), "emerg");
    assert_eq!(priority::name(priority::DEBUG), "debug");
    assert_eq!(priority::name(9), "unknown");
}

#[test]
fn entry_fields() {
    let e = JournalEntry::message("foo.service", 4, "hello", &stamp(1));
    assert_eq!(e.message_str(), "hello");
    assert_eq!(e.priority(), 4);
    assert_eq!(e.unit(), "foo.service");
}

#[test]
fn numbers_in_a_journal_only_grow() {
    let mut sequence = Sequence::new();
    let first = sequence.next_seqnum();
    assert_eq!(first, 1);
    assert_eq!(sequence.next_seqnum(), 2);
    assert!(EntryRing::new(0).is_empty());
}

#[test]
fn unreadable_fields_fall_back() {
    let mut fields = NameMap::new();
    fields.insert("MESSAGE".to_owned(), vec![0xff, 0xfe]);
    fields.insert("PRIORITY".to_owned(), b"x".to_vec());
    let entry = JournalEntry::new(fields, &stamp(1));
    assert_eq!(entry.message_str(), "");
    assert_eq!(entry.priority(), 6);
    assert_eq!(entry.pid_str(), "");
    assert_eq!(parse_priority("3"), 3);
    assert_eq!(parse_priority("300"), 6);
    let mut fields = NameMap::new();
    fields.insert("MESSAGE".to_owned(), "gr\u{fc}n".as_bytes().to_vec());
    assert_eq!(JournalEntry::new(fields, &stamp(1)).message_str(), "gr\u{fc}n");
}

fn make_text_datagram(fields: &[(&str, &str)]) -> Vec<u8> {
    let mut buf = Vec::new();
    for (k, v) in fields {
        buf.extend_from_slice(k.as_bytes());
        buf.push(b'=');
        buf.extend_from_slice(v.as_bytes());
        buf.push(b'\n');
    }
    buf
}

fn make_binary_datagram(key: &str, value: &[u8]) -> Vec<u8> {
    let mut buf = Vec::new();
    buf.extend_from_slice(key.as_bytes());
    buf.push(b'\n');
    let len = value.len() as u64;
    buf.extend_from_slice(&len.to_le_bytes());
    buf.extend_from_slice(value);
    buf.push(b'\n');
    buf
}

#[test]
fn default_socket_path_is_native_rustd() {
    assert_eq!(DEFAULT_SOCKET_PATH, "/run/rustd/journal/socket");
}

#[test]
fn parse_text_fields() {
    let data = make_text_datagram(&[("MESSAGE", "hello"), ("PRIORITY", "6")]);
    let entry = parse_datagram(&data).expect("should parse");
    assert_eq!(entry.message_str(), "hello");
    assert_eq!(entry.priority(), 6);
}

#[test]
fn invalid_field_names_are_ignored_without_rejecting_the_entry() {
    let long_key = "A".repeat(65);
    let data = make_text_datagram(&[
        ("MESSAGE", "hello"),
        ("bad-key", "discarded"),
        ("1NOT_A_FIELD", "discarded"),
    ])
    .into_iter()
    .chain(format!("{long_key}=discarded\n").into_bytes())
    .collect::<Vec<_>>();
    let entry = parse_datagram(&data).expect("valid fields should remain");
    assert_eq!(entry.message_str(), "hello");
    assert!(!entry.fields.contains("BAD-KEY"));
    assert!(!entry.fields.contains("1NOT_A_FIELD"));
    assert!(!entry.fields.contains(&long_key));
}

#[test]
fn parse_binary_field() {
    let value = b"\x00\x01\x02binary";
    let mut data = make_binary_datagram("MESSAGE", value);
    data.extend_from_slice(b"PRIORITY=3\n");
    let entry = parse_datagram(&data).expect("should parse binary");
    assert_eq!(entry.fields.get("MESSAGE").map(Vec::as_slice), Some(value.as_slice()));
    assert_eq!(entry.priority(), 3);
}

#[test]
fn parse_empty_returns_none() {
    assert!(parse_datagram(b"").is_none());
    assert!(parse_datagram(b"\n\n\n").is_none());
}

#[test]
fn key_is_uppercased() {
    let data = make_text_datagram(&[("message", "hi")]);
    let entry = parse_datagram(&data).expect("should parse");
    assert!(entry.fields.contains("MESSAGE"));
}

#[test]
fn sender_cannot_spoof_boot_id() {
    let data = make_text_datagram(&[
        ("MESSAGE", "hello"),
        ("_BOOT_ID", "aaaaaaaaaaaaaaaaaaaaaaaaaaaaaaaa"),
    ]);
    let entry = parse_datagram(&data).expect("should parse");
    assert_eq!(entry.fields.get("_BOOT_ID").map(Vec::as_slice), Some(BOOT.as_bytes()));
    let unknown = Stamp {
        realtime_usec: 1,
        seqnum: 1,
        boot_id: None,
    };
    let entry = parse_datagram_with_peer(&data, None, &unknown).expect("should parse");
    assert!(!entry.fields.contains("_BOOT_ID"));
}

#[test]
fn sender_cannot_spoof_any_reserved_metadata() {
    let data = make_text_datagram(&[
        ("MESSAGE", "hello"),
        ("_PID", "1"),
        ("_UID", "0"),
        ("_SYSTEMD_UNIT", "spoofed.service"),
        ("_RUSTD_UNIT", "spoofed.service"),
        ("_TRANSPORT", "driver"),
    ]);
    let entry = parse_datagram_with_peer(&data, Some((4242, 1000, 1000)), &stamp(1)).expect("parse");
    assert_eq!(entry.pid_str(), "4242");
    assert_eq!(entry.fields.get("_UID").map(Vec::as_slice), Some(b"1000".as_slice()));
    assert!(!entry.fields.contains("_SYSTEMD_UNIT"));
    assert_eq!(
        entry.fields.get("_TRANSPORT").map(Vec::as_slice),
        Some(b"journal".as_slice())
    );
}

#[test]
fn only_processes_are_trusted_peers() {
    assert_eq!(trusted_peer(5, 6, 7), Some((5, 6, 7)));
    assert_eq!(trusted_peer(0, 6, 7), None);
    assert!(valid_field_name("MESSAGE"));
    assert!(!valid_field_name(""));
    assert!(!valid_field_name("a"));
}

#[test]
fn truncated_binary_fields_are_dropped() {
    let mut data = b"MESSAGE\n".to_vec();
    data.extend_from_slice(&9u64.to_le_bytes());
    data.extend_from_slice(b"short");
    assert!(parse_datagram(&data).is_none());
    let mut data = b"PRIORITY=3\nMESSAGE\n".to_vec();
    data.extend_from_slice(&u64::MAX.to_le_bytes());
    assert_eq!(parse_datagram(&data).unwrap().priority(), 3);
}

#[test]
fn default_stdout_path_is_native_rustd() {
    assert_eq!(DEFAULT_STDOUT_PATH, "/run/rustd/journal/stdout");
}

fn serve(lines: &[&str]) -> Vec<JournalEntry> {
    let mut stream = StdoutStream::new();
    let mut entries = Vec::new();
    for (i, line) in lines.iter().enumerate() {
        if let Some(entry) = stream.on_line(&trim_newlines(line), &stamp(i as u64 + 1)) {
            entries.push(entry);
        }
    }
    entries
}

#[test]
fn serve_connection_pushes_entries() {
    let entries = serve(&["myapp\n", "test.service\n", "6\n", "first line\n", "second line\n"]);
    assert_eq!(entries.len(), 2);
    assert_eq!(entries[0].message_str(), "first line");
    assert_eq!(entries[1].message_str(), "second line");
    assert_eq!(entries[0].priority(), 6);
    assert_eq!(entries[0].unit(), "test.service");
}

#[test]
fn serve_connection_empty_unit() {
    let entries = serve(&["sshd\n", "\n", "3\n", "error occurred\n"]);
    assert_eq!(entries.len(), 1);
    assert!(!entries[0].fields.contains("_SYSTEMD_UNIT"));
    assert_eq!(entries[0].priority(), 3);
}

#[test]
fn default_paths_match_rustd_locations() {
    let config = JournalDaemonConfig::default();
    assert_eq!(config.runtime_directory, DEFAULT_RUNTIME_DIRECTORY);
    assert_eq!(config.runtime_directory, "/run/rustd/journal");
    assert_eq!(config.journal_path(), "/var/log/journal/system.journal");
}

#[test]
fn journal_path_can_be_overridden() {
    let config = JournalDaemonConfig {
        journal_file: Some("/tmp/private.journal".to_owned()),
        ..JournalDaemonConfig::default()
    };
    assert_eq!(config.journal_path(), "/tmp/private.journal");
}

#[test]
fn rejects_relative_runtime_directory() {
    assert!(!directory_is_acceptable("relative/runtime"));
    assert!(directory_is_acceptable("/run/rustd/journal"));
}

#[test]
fn sockets_stand_in_the_runtime_directory() {
    let mut config = JournalDaemonConfig::default();
    assert_eq!(config.socket_path(), DEFAULT_SOCKET_PATH);
    assert_eq!(config.stdout_path(), DEFAULT_STDOUT_PATH);
    assert!(config.wants_compatibility_links());
    config.runtime_directory = "/tmp/journal".to_owned();
    assert_eq!(config.socket_path(), "/tmp/journal/socket");
    assert!(!config.wants_compatibility_links());
    config.runtime_directory = "/run/rustd//journal/".to_owned();
    assert!(config.wants_compatibility_links());
}

#[test]
fn compatibility_links_refuse_to_replace_existing_paths() {
    let target = "/run/rustd/journal/socket";
    assert_eq!(link_step(&LinkState::Missing, target), LinkStep::Create);
    assert_eq!(link_step(&LinkState::Link(target.to_owned()), target), LinkStep::Keep);
    assert_eq!(link_step(&LinkState::Link("/other".to_owned()), target), LinkStep::PointsElsewhere);
    assert_eq!(link_step(&LinkState::Link(format!("/{target}/")), target), LinkStep::Keep);
    assert_eq!(link_step(&LinkState::Other, target), LinkStep::NotALink);
    assert_eq!(link_step(&LinkState::Unreadable, target), LinkStep::Fail);
    assert!(removes_link(true, &Some(target.to_owned()), target));
    assert!(!removes_link(false, &Some(target.to_owned()), target));
    assert!(!removes_link(true, &Some("/other".to_owned()), target));
    assert!(!removes_link(true, &None, target));
    assert!(removes_link(true, &Some(format!("{target}/.")), target));
}

#[test]
fn the_daemon_reports_the_first_failure() {
    assert!(after_turn(Ok(LoopResult::Continue), None).is_none());
    assert!(matches!(
        after_turn(Ok(LoopResult::Exit), None),
        Some(RunEnd::Stopped(LoopResult::Exit))
    ));
    let end = after_turn(Ok(LoopResult::Continue), Some("disk".to_owned())).unwrap();
    assert!(matches!(end, RunEnd::PersistenceFailed(_)));
    assert!(run_outcome(end, Ok(())).is_err());
    assert_eq!(run_outcome(RunEnd::Stopped(LoopResult::Exit), Ok(())), Ok(LoopResult::Exit));
    assert!(run_outcome(RunEnd::Stopped(LoopResult::Exit), Err("close".to_owned())).is_err());
    assert!(run_outcome(RunEnd::LoopFailed("poll".to_owned()), Ok(())).is_err());
}

#[test]
fn rejects_empty_payload() {
    assert_eq!(initial_capacity(0, 1024).unwrap_err(), DecodeError::Empty);
}

#[test]
fn rejects_unknown_compression_flag() {
    let unsupported = -i64::from(libc::EPROTONOSUPPORT);
    assert_eq!(initial_capacity(14, unsupported).unwrap_err(), DecodeError::Query(-unsupported));
    assert!(matches!(decode_step(1024, unsupported), DecodeStep::Fail(DecodeError::Decode(_))));
}

#[test]
fn decoding_grows_its_buffer() {
    let no_space = -i64::from(libc::ENOBUFS);
    assert!(matches!(decode_step(1024, 10), DecodeStep::Done(10)));
    assert!(matches!(decode_step(1024, 1025), DecodeStep::Fail(DecodeError::Overrun)));
    assert!(matches!(decode_step(1024, no_space), DecodeStep::Grow(2048)));
    assert!(matches!(
        decode_step(DATA_SIZE_MAX, no_space),
        DecodeStep::Fail(DecodeError::TooLarge)
    ));
}

#[test]
fn in_memory_sink_retains_entries() {
    let mut sink = JournalSink::in_memory(EntryRing::new(2));
    assert!(matches!(sink.step(), SinkStep::Retain));
    sink.record(message("test.service", "stored", 1), Ok(()));
    assert_eq!(sink.ring().len(), 1);
    assert_eq!(sink.ring().drain_since(0)[0].message_str(), "stored");
    assert!(sink.failure().is_none());
}

#[test]
fn a_failed_write_stops_the_sink() {
    let mut sink = JournalSink::with_writer(EntryRing::new(2));
    assert!(matches!(sink.step(), SinkStep::Append));
    sink.record(message("a.service", "one", 1), Err("disk full".to_owned()));
    assert_eq!(sink.failure(), Some("disk full"));
    assert!(matches!(sink.step(), SinkStep::Refuse));
    assert!(sink.ring().is_empty());
}

#[test]
fn removes_the_socket_it_captured() {
    let found = FileIdentity {
        is_socket: true,
        device: 1,
        inode: 2,
    };
    let guard = SocketPathGuard::capture("/run/socket", found).unwrap();
    assert!(guard.owns(Some(found)));
    assert!(!guard.owns(None));
    let other = FileIdentity {
        is_socket: true,
        device: 1,
        inode: 3,
    };
    assert!(!guard.owns(Some(other)));
    let file = FileIdentity {
        is_socket: false,
        device: 1,
        inode: 2,
    };
    assert!(!guard.owns(Some(file)));
    assert!(SocketPathGuard::capture("/run/file", file).is_none());
}

#[test]
fn recovery_is_limited_to_structural_failures() {
    for errno in [
        libc::EIO,
        libc::EBADMSG,
        libc::ENODATA,
        libc::EPROTONOSUPPORT,
        libc::EHOSTDOWN,
        libc::ESTALE,
        libc::EINVAL,
    ] {
        assert!(is_corruption_errno(errno), "errno {errno}");
    }
    for errno in [
        libc::EACCES,
        libc::EPERM,
        libc::ENOSPC,
        libc::EDQUOT,
        libc::EROFS,
        libc::EMFILE,
    ] {
        assert!(!is_corruption_errno(errno), "errno {errno}");
    }
}

#[test]
fn resilient_open_quarantines_invalid_active_file() {
    assert_eq!(open_step(Some(libc::EBADMSG), true), OpenStep::Quarantine);
    assert_eq!(open_step(Some(libc::EBADMSG), false), OpenStep::Fail);
    assert_eq!(open_step(Some(libc::EACCES), true), OpenStep::Fail);
    assert_eq!(open_step(None, true), OpenStep::Fail);
    let name = quarantine_name("system.journal", 77, 12, 3, 0).unwrap();
    assert!(name.starts_with("system.journal.corrupt-"));
    assert!(quarantine_name("system.journal", 77, 12, 3, 1024).is_none());
}

#[test]
fn an_append_is_retried_once() {
    assert!(matches!(append_step(0, false), AppendStep::Done));
    assert!(matches!(append_step(-libc::EIO, false), AppendStep::Recover(_)));
    assert!(matches!(append_step(-libc::EIO, true), AppendStep::RetryFailed(_)));
    assert!(matches!(append_step(-libc::ENOSPC, false), AppendStep::Fail(28)));
}

#[test]
fn the_writer_counts_what_it_wrote() {
    let mut writer = JournalWriter::open("/tmp/system.journal");
    let entry = message("a.service", "hello", 1);
    assert!(JournalWriter::can_append(&entry));
    writer.append(&entry);
    assert!(writer.bytes_written > 0);
    writer.reopen_after_corruption();
    assert_eq!(writer.bytes_written, 0);
}

fn archive(path: &str, mtime_secs: u64, size: u64) -> Archive {
    Archive {
        path: path.to_owned(),
        mtime_secs,
        size,
    }
}

#[test]
fn collect_archives_finds_only_archives() {
    assert!(is_archive_name("archive-0001.journal"));
    assert!(!is_archive_name("system.journal"));
    assert!(!is_archive_name("other.txt"));
    assert!(is_archive_name(&archive_name(1)));
}

#[test]
fn vacuum_removes_oldest_when_over_limit() {
    let archives = vec![archive("b", 20, 100), archive("a", 10, 100)];
    // At most 150 bytes may stay, so one file of 100 bytes must be removed.
    let removed = vacuum(&archives, 150, 0, 30);
    assert_eq!(removed.len(), 1);
    assert_eq!(removed[0].path, "a");
}

#[test]
fn vacuum_removes_what_is_too_old() {
    let archives = vec![archive("new", 95, 1), archive("old", 10, 1)];
    let removed = vacuum(&archives, 1000, 50, 100);
    assert_eq!(removed.len(), 1);
    assert_eq!(removed[0].path, "old");
    assert!(!needs_rotation(DEFAULT_MAX_FILE_SIZE, DEFAULT_MAX_FILE_SIZE));
    assert!(needs_rotation(DEFAULT_MAX_FILE_SIZE + 1, DEFAULT_MAX_FILE_SIZE));
    assert!(!needs_rotation(DEFAULT_MAX_FILE_SIZE - 1, DEFAULT_MAX_FILE_SIZE));
    assert_eq!(DEFAULT_MAX_USE, 4 * 1024 * 1024 * 1024);
}

#[test]
fn a_ring_never_holds_more_than_its_capacity() {
    let mut ring = EntryRing::new(0);
    let mut sequence = Sequence::new();
    for i in 0..3usize {
        ring.push(message("x.service", &format!("{i}"), sequence.next_seqnum()));
        assert_eq!(ring.len(), 1);
        assert_eq!(ring.total_pushed(), i + 1);
    }
    let all = ring.drain_since(0);
    assert_eq!(all[0].message_str(), "2");
    assert_eq!(all[0].seqnum, 3);
}

#[test]
fn error_numbers_differ_between_machines() {
    let other = ErrorNumbers {
        nodata: 61,
        badmsg: 77,
        protonosupport: 120,
        nobufs: 132,
        hostdown: 147,
        stale: 151,
    };
    for errno in [libc::EIO, libc::EINVAL, 61, 77, 120, 147, 151] {
        assert!(is_corruption_errno_with(errno, &other), "errno {errno}");
    }
    assert!(!is_corruption_errno_with(74, &other));
    assert_eq!(open_step_with(Some(77), true, &other), OpenStep::Quarantine);
    assert_eq!(open_step_with(Some(74), true, &other), OpenStep::Fail);
    assert!(matches!(append_step_with(-151, false, &other), AppendStep::Recover(151)));
    assert!(matches!(append_step_with(-116, false, &other), AppendStep::Fail(116)));
    assert!(matches!(decode_step_with(1024, -132, &other), DecodeStep::Grow(2048)));
    assert!(matches!(decode_step_with(1024, -105, &other), DecodeStep::Fail(DecodeError::Decode(105))));
    assert_eq!(initial_capacity_with(600, -61, &other), Ok(1200));
    assert_eq!(initial_capacity(600, -i64::from(libc::ENODATA)), Ok(1200));
}
