use rustd::event::child::ChildExit;
use rustd::event::inotify::{parse_events, parse_events_in, ByteOrder, Watches, EVENT_SIZE};
use rustd::event::loop_::{
    clamp_timeout, polled, realtime_result, route, EventLoop, LoopResult, Route, SdEpollEvent, MAX_POLL_MS,
};
use rustd::event::signal::{
    managed_signals, managed_signals_fixed, managed_signals_from, read_result, signal_to_action, signal_to_action_with,
    SignalAction, RT_OFFSETS,
};
use rustd::event::source::{SourceId, SourceIdAlloc, SourceKind, SourceToken};
use rustd::event::timer::{clock_result, split_ns, ClockId, TimerSpec};
use rustd::event::wake::wake_result;
use rustd::sys::SignalNumbers;

#[test]
fn disabled_io_source_retains_pending_readiness_until_reenabled() {
    let (mut event_loop, _) = EventLoop::new();
    let (source, token) = event_loop.register(SourceKind::Io);
    event_loop.add_io(source, 7, libc::EPOLLIN as u32);
    assert!(matches!(event_loop.io_interest(source, true), Some(None)));
    let off = event_loop.io_interest(source, false).unwrap().unwrap();
    assert_eq!((off.fd, off.events), (7, 0));
    assert!(event_loop.set_io_enabled(source, false));
    let on = event_loop.io_interest(source, true).unwrap().unwrap();
    assert_eq!((on.fd, on.events, on.token.0), (7, libc::EPOLLIN as u32, token.0));
    assert!(event_loop.set_io_enabled(source, true));
    assert!(matches!(event_loop.io_interest(source, true), Some(None)));
}

#[test]
fn sources_are_numbered_from_one_and_found_again() {
    let mut ids = SourceIdAlloc::new();
    assert!(ids.has_next());
    assert_eq!(ids.next().get(), 1);
    assert_eq!(ids.next().get(), 2);
    assert!(SourceId::new(0).is_none());
    for kind in [
        SourceKind::Io,
        SourceKind::Signal,
        SourceKind::Timer,
        SourceKind::Inotify,
        SourceKind::Child,
        SourceKind::Defer,
    ] {
        let token = SourceToken::encode(kind, SourceId::new(77).unwrap());
        assert_eq!(token.kind(), Some(kind));
        assert_eq!(token.id(), 77);
        assert_eq!(SourceKind::from_token_bits(kind.to_token_bits()), Some(kind));
    }
    assert_eq!(SourceKind::from_token_bits(200), None);
}

#[test]
fn ready_sources_are_routed() {
    let (mut event_loop, signal) = EventLoop::new();
    assert!(matches!(route(signal), Route::Signal));
    assert!(event_loop.can_register());
    let (timer, token) = event_loop.register(SourceKind::Timer);
    assert!(matches!(route(token), Route::Timer(id) if id.get() == timer.get()));
    assert!(matches!(route(SourceToken(u64::MAX)), Route::Nowhere));
    let raw = vec![
        SdEpollEvent { events: 1, token: token.0 },
        SdEpollEvent { events: 4, token: signal.0 },
        SdEpollEvent { events: 0, token: 0 },
    ];
    let ready = polled(2, &raw).unwrap();
    assert_eq!(ready.len(), 2);
    assert_eq!(ready[0].1, 1);
    assert!(matches!(ready[1].0, Route::Signal));
    assert_eq!(polled(-4, &raw).unwrap_err(), 4);
}

#[test]
fn removed_sources_are_forgotten() {
    let (mut event_loop, _) = EventLoop::new();
    let (source, _) = event_loop.register(SourceKind::Io);
    event_loop.add_io(source, 9, 1);
    assert_eq!(event_loop.io_fd(source), Some(9));
    assert_eq!(event_loop.remove_io(source), Some(9));
    assert_eq!(event_loop.io_fd(source), None);
    assert_eq!(event_loop.remove_io(source), None);
    assert!(event_loop.io_interest(source, true).is_none());
    assert!(!event_loop.set_io_enabled(source, true));
}

#[test]
fn signals_end_the_loop() {
    let (mut event_loop, _) = EventLoop::new();
    let rt_min = libc::SIGRTMIN();
    assert_eq!(event_loop.result(), LoopResult::Continue);
    let numbers = here();
    assert!(event_loop.on_signal(libc::SIGCHLD, &numbers, rt_min));
    assert_eq!(event_loop.take_result(), LoopResult::Continue);
    assert!(!event_loop.on_signal(rt_min + 4, &numbers, rt_min));
    assert_eq!(event_loop.take_result(), LoopResult::Reboot);
    assert_eq!(event_loop.take_result(), LoopResult::Continue);
    event_loop.request_exit(LoopResult::Exit);
    assert_eq!(event_loop.result(), LoopResult::Exit);
    assert_eq!(realtime_result(rt_min + 1, rt_min), None);
    assert!(event_loop.dispatch_signal(libc::SIGCHLD));
    assert_eq!(event_loop.take_result(), LoopResult::Exit);
    assert!(!event_loop.dispatch_signal(rt_min + 13));
    assert_eq!(event_loop.take_result(), LoopResult::Poweroff);
}

#[test]
fn exits_are_collected_in_order() {
    let (mut event_loop, _) = EventLoop::new();
    event_loop.collect_child_exits(vec![ChildExit { pid: 1, code: 1, status: 0 }]);
    event_loop.collect_child_exits(vec![ChildExit { pid: 2, code: 2, status: 9 }]);
    let exits = event_loop.drain_child_exits();
    assert_eq!(exits.iter().map(|exit| exit.pid).collect::<Vec<_>>(), vec![1, 2]);
    assert!(exits[0].is_success());
    assert!(!exits[1].is_success());
    assert!(event_loop.drain_child_exits().is_empty());
}

#[test]
fn polls_are_bounded() {
    assert_eq!(clamp_timeout(-1), 0);
    assert_eq!(clamp_timeout(50), 50);
    assert_eq!(clamp_timeout(60_000), MAX_POLL_MS);
}

#[test]
fn managed_signals_follow_the_system() {
    let signals = managed_signals();
    let fixed = managed_signals_fixed(&here());
    assert_eq!(signals.len(), fixed.len() + RT_OFFSETS.len());
    assert_eq!(signals[..fixed.len()], fixed);
    assert_eq!(signals, managed_signals_from(&here(), libc::SIGRTMIN()));
    assert!(signals.contains(&libc::SIGCHLD));
    assert!(signals.contains(&(libc::SIGRTMIN() + 13)));
    assert_eq!(signals[fixed.len()], libc::SIGRTMIN());
}

#[test]
fn signals_mean_actions() {
    assert_eq!(signal_to_action(libc::SIGHUP), SignalAction::Reload);
    assert_eq!(signal_to_action(libc::SIGCHLD), SignalAction::ReapChildren);
    assert_eq!(signal_to_action(libc::SIGINT), SignalAction::CtrlAltDelete);
    assert_eq!(signal_to_action(libc::SIGPWR), SignalAction::PowerFailure);
    assert_eq!(signal_to_action(libc::SIGPIPE), SignalAction::Ignore);
    assert_eq!(read_result(0, 15), Ok(Some(15)));
    assert_eq!(read_result(-libc::EAGAIN, 0), Ok(None));
    assert_eq!(read_result(-libc::EIO, 0), Err(libc::EIO));
}

#[test]
fn watches_know_their_paths() {
    let mut watches = Watches::new();
    watches.add_watch(3, "/etc", 2);
    assert_eq!(watches.path_for(3), Some("/etc"));
    watches.remove_watch(3);
    assert_eq!(watches.path_for(3), None);
}

#[test]
fn inotify_events_are_cut_out_of_the_buffer() {
    let mut buf = Vec::new();
    for (wd, mask, name) in [(1i32, 2u32, b"abcd".as_slice()), (5, 6, b"".as_slice())] {
        buf.extend_from_slice(&wd.to_ne_bytes());
        buf.extend_from_slice(&mask.to_ne_bytes());
        buf.extend_from_slice(&0u32.to_ne_bytes());
        buf.extend_from_slice(&(name.len() as u32).to_ne_bytes());
        buf.extend_from_slice(name);
    }
    let events = parse_events(&buf);
    assert_eq!(events.len(), 2);
    assert_eq!((events[0].wd, events[0].mask), (1, 2));
    assert_eq!((events[1].wd, events[1].mask), (5, 6));
    assert!(parse_events(&buf[..EVENT_SIZE - 1]).is_empty());
}

#[test]
fn events_are_read_in_the_order_of_the_machine() {
    let words = [7u32, 0x0102, 0, 0];
    let little: Vec<u8> = words.iter().flat_map(|word| word.to_le_bytes()).collect();
    let big: Vec<u8> = words.iter().flat_map(|word| word.to_be_bytes()).collect();
    for (buf, order) in [(&little, ByteOrder::Little), (&big, ByteOrder::Big)] {
        let events = parse_events_in(buf, order);
        assert_eq!(events.len(), 1);
        assert_eq!((events[0].wd, events[0].mask), (7, 0x0102));
    }
    assert_eq!(parse_events_in(&little, ByteOrder::Big)[0].wd, 7 << 24);
}

/// The numbers on the machine that runs the tests.
fn here() -> SignalNumbers {
    SignalNumbers {
        chld: libc::SIGCHLD,
        usr1: libc::SIGUSR1,
        usr2: libc::SIGUSR2,
        winch: libc::SIGWINCH,
        pwr: libc::SIGPWR,
    }
}

#[test]
fn signal_numbers_differ_between_machines() {
    let other = SignalNumbers { chld: 18, usr1: 16, usr2: 17, winch: 20, pwr: 19 };
    assert_eq!(signal_to_action_with(18, &other), SignalAction::ReapChildren);
    assert_eq!(signal_to_action_with(17, &other), SignalAction::Reexecute);
    assert_eq!(signal_to_action_with(28, &other), SignalAction::Realtime(28));
    assert_eq!(signal_to_action_with(libc::SIGTERM, &other), SignalAction::Terminate);
    assert_eq!(managed_signals_fixed(&other), [18, 15, 2, 1, 16, 17, 20, 13, 19]);
    assert_eq!(signal_to_action(libc::SIGUSR1), SignalAction::DumpStatus);
    assert_eq!(signal_to_action(libc::SIGUSR2), SignalAction::Reexecute);
    assert_eq!(signal_to_action(libc::SIGWINCH), SignalAction::WindowResize);
}

#[test]
fn timers_are_split_into_seconds() {
    assert_eq!(split_ns(1_500_000_000), (1, 500_000_000));
    let once = TimerSpec::once(2_000_000_001).setting();
    assert_eq!((once.value_seconds, once.value_nanoseconds), (2, 1));
    assert_eq!((once.interval_seconds, once.interval_nanoseconds), (0, 0));
    assert_eq!(once.flags, 0);
    let repeating = TimerSpec::repeating(1, 3_000_000_000).setting();
    assert_eq!(repeating.interval_seconds, 3);
    assert_eq!(ClockId::Realtime.number(), libc::CLOCK_REALTIME);
    assert_eq!(ClockId::Monotonic.number(), libc::CLOCK_MONOTONIC);
    assert_eq!(ClockId::Boottime.number(), libc::CLOCK_BOOTTIME);
    assert_eq!(clock_result(5), Ok(5));
    assert!(clock_result(-1).is_err());
}

#[test]
fn a_full_wake_counter_is_no_error() {
    assert_eq!(wake_result(0), Ok(()));
    assert_eq!(wake_result(-libc::EAGAIN), Ok(()));
    assert_eq!(wake_result(-libc::EBADF), Err(libc::EBADF));
}
