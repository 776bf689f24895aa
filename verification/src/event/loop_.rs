//! The event loop's bookkeeping: which sources are registered, where an event
//! goes, and what the loop was asked to do.
//!
//! An iteration has three phases: deferred callbacks, the poll, and the
//! dispatch of each ready source.

use std::collections::HashMap;

use vstd::prelude::*;

use crate::event::child::ChildExit;
use crate::event::signal::{action_of, signal_to_action_with, SignalAction};
use crate::event::source::{SourceId, SourceIdAlloc, SourceKind, SourceToken};
use crate::sys::{self, SignalNumbers};

verus! {

broadcast use vstd::std_specs::hash::group_hash_axioms;

/// Maximum events taken from a single poll.
pub const MAX_EVENTS: usize = 64;

/// The longest poll, in milliseconds.
pub const MAX_POLL_MS: i32 = 30_000;

/// What the event loop should do after dispatching all pending events.
#[derive(Debug, Clone, Copy, PartialEq, Eq, Structural)]
pub enum LoopResult {
    /// Keep running.
    Continue,
    /// A clean exit was requested.
    Exit,
    /// A system reboot was requested.
    Reboot,
    /// A system poweroff was requested.
    Poweroff,
    /// A system halt was requested.
    Halt,
    /// A kexec transition was requested.
    Kexec,
    /// Re-execute the manager binary in place.
    Reexecute,
}

/// Callback for an IO source becoming readable or writable.
pub trait IoHandler: Send {
    fn on_io(&mut self, fd: i32, events: u32);
}

/// Callback for a timer expiry.
pub trait TimerHandler: Send {
    fn on_timer(&mut self, id: SourceId, expirations: i64);
}

/// Callback for an inotify event.
pub trait InotifyHandler: Send {
    fn on_inotify(&mut self, wd: i32, mask: u32, path: Option<&str>);
}

/// Callback invoked once per loop iteration, before the poll.
pub trait DeferHandler: Send {
    /// Whether the source should be kept alive for the next iteration.
    fn on_defer(&mut self) -> bool;
}

/// A registered IO source.
#[derive(Debug, Clone, Copy, PartialEq, Eq, Structural)]
pub struct IoSource {
    pub fd: i32,
    pub events: u32,
    pub enabled: bool,
}

/// A change to what the kernel watches: the descriptor, the events, and the
/// token of the source.
#[derive(Debug, Clone, Copy, PartialEq, Eq, Structural)]
pub struct Interest {
    pub fd: i32,
    pub events: u32,
    pub token: SourceToken,
}

/// Where a ready event goes.
#[derive(Debug, Clone, Copy, PartialEq, Eq, Structural)]
pub enum Route {
    Signal,
    Timer(SourceId),
    Io(SourceId),
    Inotify(SourceId),
    Nowhere,
}

/// The registered sources of the loop and what it was asked to do.
#[derive(Debug)]
pub struct EventLoop {
    alloc: SourceIdAlloc,
    io_sources: HashMap<u32, IoSource>,
    result: LoopResult,
    pending_child_exits: Vec<ChildExit>,
}

/// What an event loop holds.
#[verifier::ext_equal]
pub struct LoopView {
    /// The last source number handed out.
    pub last_id: u32,
    pub io_sources: Map<u32, IoSource>,
    pub result: LoopResult,
    pub pending_child_exits: Seq<ChildExit>,
}

/// What a real-time signal, by its distance from the first, asks for.
pub open spec fn realtime_request(offset: int) -> Option<LoopResult> {
    if offset == 2 || offset == 13 {
        Some(LoopResult::Poweroff)
    } else if offset == 3 || offset == 15 {
        Some(LoopResult::Halt)
    } else if offset == 4 || offset == 14 {
        Some(LoopResult::Reboot)
    } else {
        None
    }
}

/// What an action asks of the loop when real-time signals begin at `rt_min`.
pub open spec fn request_of(action: SignalAction, rt_min: int) -> Option<LoopResult> {
    match action {
        SignalAction::Terminate => Some(LoopResult::Exit),
        SignalAction::CtrlAltDelete => Some(LoopResult::Reboot),
        SignalAction::Reexecute => Some(LoopResult::Reexecute),
        SignalAction::Realtime(sig) => realtime_request(sig - rt_min),
        _ => None,
    }
}

/// The loop after a signal, on a machine with the given numbers.
pub open spec fn signaled(v: LoopView, signo: i32, numbers: SignalNumbers, rt_min: i32) -> LoopView {
    LoopView {
        result: match request_of(action_of(signo, numbers), rt_min as int) {
            Some(result) => result,
            None => v.result,
        },
        ..v
    }
}

/// What a real-time signal asks for when they begin at `rt_min`.
pub fn realtime_result(sig: i32, rt_min: i32) -> (r: Option<LoopResult>)
    ensures
        r == realtime_request(sig - rt_min),
{
    let offset: i64 = sig as i64 - rt_min as i64;
    if offset == 2 || offset == 13 {
        Some(LoopResult::Poweroff)
    } else if offset == 3 || offset == 15 {
        Some(LoopResult::Halt)
    } else if offset == 4 || offset == 14 {
        Some(LoopResult::Reboot)
    } else {
        None
    }
}

/// A poll timeout within the ceiling.
pub fn clamp_timeout(timeout_ms: i32) -> (r: i32)
    ensures
        r == if timeout_ms < 0 {
            0
        } else if timeout_ms > MAX_POLL_MS {
            MAX_POLL_MS
        } else {
            timeout_ms
        },
{
    if timeout_ms < 0 {
        0
    } else if timeout_ms > MAX_POLL_MS {
        MAX_POLL_MS
    } else {
        timeout_ms
    }
}

/// Whether an event with this token goes there.
pub open spec fn goes_to(token: SourceToken, r: Route) -> bool {
    match r {
        Route::Signal => token.kind_bits() == SourceKind::Signal.bits(),
        Route::Timer(id) => token.kind_bits() == SourceKind::Timer.bits() && id@ == token.id_bits() && id@ != 0,
        Route::Io(id) => token.kind_bits() == SourceKind::Io.bits() && id@ == token.id_bits() && id@ != 0,
        Route::Inotify(id) => token.kind_bits() == SourceKind::Inotify.bits() && id@ == token.id_bits() && id@ != 0,
        Route::Nowhere => token.kind_bits() != SourceKind::Signal.bits() && (token.id_bits() == 0 || (token.kind_bits()
            != SourceKind::Timer.bits() && token.kind_bits() != SourceKind::Io.bits() && token.kind_bits()
            != SourceKind::Inotify.bits())),
    }
}

/// Where an event with this token goes.
pub fn route(token: SourceToken) -> (r: Route)
    ensures
        goes_to(token, r),
{
    let kind = match token.kind() {
        Some(kind) => kind,
        None => {
            assert(SourceKind::Signal.bits() != token.kind_bits());
            assert(SourceKind::Timer.bits() != token.kind_bits());
            assert(SourceKind::Io.bits() != token.kind_bits());
            assert(SourceKind::Inotify.bits() != token.kind_bits());
            return Route::Nowhere;
        },
    };
    let id = SourceId::new(token.id());
    match kind {
        SourceKind::Signal => Route::Signal,
        SourceKind::Timer => match id {
            Some(id) => Route::Timer(id),
            None => Route::Nowhere,
        },
        SourceKind::Io => match id {
            Some(id) => Route::Io(id),
            None => Route::Nowhere,
        },
        SourceKind::Inotify => match id {
            Some(id) => Route::Inotify(id),
            None => Route::Nowhere,
        },
        SourceKind::Child | SourceKind::Defer => Route::Nowhere,
    }
}

/// One event that a poll reports.
#[derive(Debug, Clone, Copy, PartialEq, Eq, Structural)]
pub struct SdEpollEvent {
    pub events: u32,
    pub token: u64,
}

/// What a poll that returned `n` into `raw` comes to: where each event goes and
/// what is ready there, or the error number.
pub fn polled(n: i32, raw: &Vec<SdEpollEvent>) -> (r: Result<Vec<(Route, u32)>, i32>)
    requires
        i32::MIN < n <= raw@.len(),
    ensures
        match r {
            Ok(routes) => n >= 0 && routes@.len() == n && forall|i: int|
                0 <= i < n ==> goes_to(SourceToken(raw@[i].token), (#[trigger] routes@[i]).0) && routes@[i].1
                    == raw@[i].events,
            Err(errno) => n < 0 && errno == -n,
        },
{
    if n < 0 {
        return Err(-n);
    }
    let mut routes: Vec<(Route, u32)> = Vec::new();
    let count: usize = n as usize;
    let mut i: usize = 0;
    while i < count
        invariant
            i <= count,
            count == n,
            n <= raw@.len(),
            routes@.len() == i,
            forall|k: int|
                0 <= k < i ==> goes_to(SourceToken(raw@[k].token), (#[trigger] routes@[k]).0) && routes@[k].1
                    == raw@[k].events,
        decreases count - i,
    {
        routes.push((route(SourceToken(raw[i].token)), raw[i].events));
        i += 1;
    }
    Ok(routes)
}

impl View for EventLoop {
    type V = LoopView;

    closed spec fn view(&self) -> LoopView {
        LoopView {
            last_id: self.alloc@,
            io_sources: self.io_sources@,
            result: self.result,
            pending_child_exits: self.pending_child_exits@,
        }
    }
}

impl EventLoop {
    /// Every registered source has a number that was handed out.
    pub open spec fn wf(&self) -> bool {
        forall|id: u32| #[trigger] self@.io_sources.dom().contains(id) ==> 0 < id <= self@.last_id
    }

    /// A loop without sources, and the token of its signal source.
    pub fn new() -> (r: (Self, SourceToken))
        ensures
            r.0.wf(),
            r.0@ == (LoopView {
                last_id: 1,
                io_sources: Map::empty(),
                result: LoopResult::Continue,
                pending_child_exits: Seq::empty(),
            }),
            r.1.kind_bits() == SourceKind::Signal.bits(),
            r.1.id_bits() == 1,
    {
        let mut alloc = SourceIdAlloc::new();
        let id = alloc.next();
        let token = SourceToken::encode(SourceKind::Signal, id);
        (
            EventLoop {
                alloc,
                io_sources: HashMap::new(),
                result: LoopResult::Continue,
                pending_child_exits: Vec::new(),
            },
            token,
        )
    }

    /// Whether another source can be numbered.
    pub fn can_register(&self) -> (r: bool)
        ensures
            r == (self@.last_id < u32::MAX),
    {
        self.alloc.has_next()
    }

    /// Number a new source and give its token.
    pub fn register(&mut self, kind: SourceKind) -> (r: (SourceId, SourceToken))
        requires
            old(self).wf(),
            old(self)@.last_id < u32::MAX,
        ensures
            final(self).wf(),
            r.0@ == old(self)@.last_id + 1,
            !old(self)@.io_sources.dom().contains(r.0@),
            r.1.kind_bits() == kind.bits(),
            r.1.id_bits() == r.0@,
            final(self)@ == (LoopView { last_id: (old(self)@.last_id + 1) as u32, ..old(self)@ }),
    {
        let id = self.alloc.next();
        let token = SourceToken::encode(kind, id);
        (id, token)
    }

    /// Record an IO source that the kernel accepted.
    pub fn add_io(&mut self, id: SourceId, fd: i32, events: u32)
        requires
            old(self).wf(),
            0 < id@ <= old(self)@.last_id,
        ensures
            final(self).wf(),
            final(self)@ == (LoopView {
                io_sources: old(self)@.io_sources.insert(id@, IoSource { fd, events, enabled: true }),
                ..old(self)@
            }),
    {
        self.io_sources.insert(id.get(), IoSource { fd, events, enabled: true });
    }

    /// What to tell the kernel so that readiness of an IO source is delivered
    /// or not, while its handler stays. Nothing where that is already so;
    /// `None` for an unknown source.
    pub fn io_interest(&self, id: SourceId, enabled: bool) -> (r: Option<Option<Interest>>)
        requires
            self.wf(),
        ensures
            match r {
                None => !self@.io_sources.dom().contains(id@),
                Some(change) => {
                    &&& self@.io_sources.dom().contains(id@)
                    &&& change is None <==> self@.io_sources[id@].enabled == enabled
                    &&& change matches Some(interest) ==> interest.fd == self@.io_sources[id@].fd && interest.events == (
                    if enabled {
                        self@.io_sources[id@].events
                    } else {
                        0
                    }) && interest.token.kind_bits() == SourceKind::Io.bits() && interest.token.id_bits() == id@
                },
            },
    {
        match self.io_sources.get(&id.get()) {
            None => None,
            Some(source) => {
                if source.enabled == enabled {
                    Some(None)
                } else {
                    let token = SourceToken::encode(SourceKind::Io, id);
                    let events: u32 = if enabled {
                        source.events
                    } else {
                        0
                    };
                    Some(Some(Interest { fd: source.fd, events, token }))
                }
            },
        }
    }

    /// Record that the kernel accepted the change to an IO source.
    pub fn set_io_enabled(&mut self, id: SourceId, enabled: bool) -> (r: bool)
        requires
            old(self).wf(),
        ensures
            final(self).wf(),
            r == old(self)@.io_sources.dom().contains(id@),
            r ==> final(self)@ == (LoopView {
                io_sources: old(self)@.io_sources.insert(
                    id@,
                    IoSource { enabled, ..old(self)@.io_sources[id@] },
                ),
                ..old(self)@
            }),
            !r ==> final(self)@ == old(self)@,
    {
        let source: IoSource = match self.io_sources.get(&id.get()) {
            None => return false,
            Some(source) => *source,
        };
        self.io_sources.insert(id.get(), IoSource { fd: source.fd, events: source.events, enabled });
        true
    }

    /// The descriptor of an IO source, for its handler.
    pub fn io_fd(&self, id: SourceId) -> (r: Option<i32>)
        ensures
            r == if self@.io_sources.dom().contains(id@) {
                Some(self@.io_sources[id@].fd)
            } else {
                None
            },
    {
        match self.io_sources.get(&id.get()) {
            None => None,
            Some(source) => Some(source.fd),
        }
    }

    /// Forget an IO source; its descriptor, where it was registered.
    pub fn remove_io(&mut self, id: SourceId) -> (r: Option<i32>)
        requires
            old(self).wf(),
        ensures
            final(self).wf(),
            r == if old(self)@.io_sources.dom().contains(id@) {
                Some(old(self)@.io_sources[id@].fd)
            } else {
                None
            },
            final(self)@ == (LoopView { io_sources: old(self)@.io_sources.remove(id@), ..old(self)@ }),
    {
        match self.io_sources.remove(&id.get()) {
            None => {
                assert(self@.io_sources =~= old(self)@.io_sources.remove(id@));
                None
            },
            Some(source) => Some(source.fd),
        }
    }

    /// Ask the loop to stop with this result.
    pub fn request_exit(&mut self, result: LoopResult)
        ensures
            final(self)@ == (LoopView { result, ..old(self)@ }),
    {
        self.result = result;
    }

    /// What the loop was asked to do so far.
    pub fn result(&self) -> (r: LoopResult)
        ensures
            r == self@.result,
    {
        self.result
    }

    /// Consume what the loop was asked to do.
    pub fn take_result(&mut self) -> (r: LoopResult)
        ensures
            r == old(self)@.result,
            final(self)@ == (LoopView { result: LoopResult::Continue, ..old(self)@ }),
    {
        let result = self.result;
        self.result = LoopResult::Continue;
        result
    }

    /// Take one signal, on a machine with the given numbers. Whether children
    /// are to be reaped on it.
    pub fn on_signal(&mut self, signo: i32, numbers: &SignalNumbers, rt_min: i32) -> (r: bool)
        ensures
            r == (action_of(signo, *numbers) is ReapChildren),
            final(self)@ == signaled(old(self)@, signo, *numbers, rt_min),
    {
        match signal_to_action_with(signo, numbers) {
            SignalAction::ReapChildren => true,
            SignalAction::Terminate => {
                self.result = LoopResult::Exit;
                false
            },
            SignalAction::CtrlAltDelete => {
                self.result = LoopResult::Reboot;
                false
            },
            SignalAction::Reexecute => {
                self.result = LoopResult::Reexecute;
                false
            },
            SignalAction::Realtime(sig) => {
                if let Some(result) = realtime_result(sig, rt_min) {
                    self.result = result;
                }
                false
            },
            SignalAction::Reload
            | SignalAction::DumpStatus
            | SignalAction::WindowResize
            | SignalAction::PowerFailure
            | SignalAction::Ignore => false,
        }
    }

    /// Take one signal, with the numbers of this machine. Whether children are
    /// to be reaped on it.
    pub fn dispatch_signal(&mut self, signo: i32) -> (r: bool)
        ensures
            exists|numbers: SignalNumbers, rt_min: i32| {
                &&& numbers.on_linux()
                &&& r == (action_of(signo, numbers) is ReapChildren)
                &&& final(self)@ == #[trigger] signaled(old(self)@, signo, numbers, rt_min)
            },
    {
        self.on_signal(signo, &sys::signal_numbers(), sys::sigrtmin())
    }

    /// Remember children that were reaped.
    pub fn collect_child_exits(&mut self, exits: Vec<ChildExit>)
        ensures
            final(self)@ == (LoopView {
                pending_child_exits: old(self)@.pending_child_exits + exits@,
                ..old(self)@
            }),
    {
        let mut exits = exits;
        self.pending_child_exits.append(&mut exits);
    }

    /// Hand out all child exits collected since the last call.
    pub fn drain_child_exits(&mut self) -> (r: Vec<ChildExit>)
        ensures
            r@ == old(self)@.pending_child_exits,
            final(self)@ == (LoopView { pending_child_exits: Seq::empty(), ..old(self)@ }),
    {
        let mut exits: Vec<ChildExit> = Vec::new();
        exits.append(&mut self.pending_child_exits);
        exits
    }
}

/// An event with the token of a source goes to that source and to no other.
pub proof fn law_events_reach_their_source(token: SourceToken, kind: SourceKind, id: SourceId, r: Route)
    requires
        id@ != 0,
        token.kind_bits() == kind.bits(),
        token.id_bits() == id@,
        goes_to(token, r),
    ensures
        kind is Signal ==> r is Signal,
        kind is Io ==> r is Io && r->Io_0@ == id@,
        kind is Timer ==> r is Timer && r->Timer_0@ == id@,
        kind is Inotify ==> r is Inotify && r->Inotify_0@ == id@,
        kind is Child || kind is Defer ==> r is Nowhere,
{
}

/// What signals ask of the loop. Of the real-time signals, counted from the
/// first, the third and the 14th ask to power off, the fourth and the 16th to
/// halt, the fifth and the 15th to reboot; nothing else changes but the result.
pub proof fn law_what_signals_ask_of_the_loop(v: LoopView, signo: i32, numbers: SignalNumbers, rt_min: i32)
    requires
        numbers.on_linux(),
    ensures
        ({
            let after = signaled(v, signo, numbers, rt_min);
            let fixed = signo == 1 || signo == 2 || signo == 13 || signo == 15 || signo == numbers.chld || signo == numbers.usr1 || signo == numbers.usr2
                || signo == numbers.winch || signo == numbers.pwr;
            let n = signo - rt_min;
            &&& after.last_id == v.last_id && after.io_sources == v.io_sources && after.pending_child_exits == v.pending_child_exits
            &&& signo == 15 ==> after.result is Exit
            &&& signo == 2 ==> after.result is Reboot
            &&& signo == numbers.usr2 ==> after.result is Reexecute
            &&& fixed && signo != 15 && signo != 2 && signo != numbers.usr2 ==> after.result == v.result
            &&& !fixed && (n == 2 || n == 13) ==> after.result is Poweroff
            &&& !fixed && (n == 3 || n == 15) ==> after.result is Halt
            &&& !fixed && (n == 4 || n == 14) ==> after.result is Reboot
            &&& !fixed && !(2 <= n <= 4) && !(13 <= n <= 15) ==> after.result == v.result
        }),
        realtime_request(signo - rt_min) is Some <==> 2 <= signo - rt_min <= 4 || 13 <= signo - rt_min <= 15,
        realtime_request(2) == Some(LoopResult::Poweroff) && realtime_request(13) == Some(LoopResult::Poweroff),
        realtime_request(3) == Some(LoopResult::Halt) && realtime_request(15) == Some(LoopResult::Halt),
        realtime_request(4) == Some(LoopResult::Reboot) && realtime_request(14) == Some(LoopResult::Reboot),
        MAX_POLL_MS == 30_000 && MAX_EVENTS == 64,
{
}

/// An event goes by the kind in the top byte of its token and the number in the
/// lower half: to a timer, a descriptor or a watch with that number, to the
/// signals, or nowhere. It goes to one of them only.
pub proof fn law_where_an_event_goes(token: SourceToken, r: Route, other: Route)
    requires
        goes_to(token, r),
    ensures
        ({
            let kind = token.0 as int / 0x100_0000_0000_0000;
            let number = token.0 as int % 0x1_0000_0000;
            &&& kind == 2 <==> r is Signal
            &&& kind == 3 && number != 0 <==> r is Timer
            &&& kind == 1 && number != 0 <==> r is Io
            &&& kind == 4 && number != 0 <==> r is Inotify
            &&& r matches Route::Timer(id) ==> id@ == number
            &&& r matches Route::Io(id) ==> id@ == number
            &&& r matches Route::Inotify(id) ==> id@ == number
        }),
        goes_to(token, other) && (r is Signal || r is Nowhere) ==> other == r,
{
}

} // verus!
