//! The signals that the manager takes, and what it does on each.

use vstd::prelude::*;

use crate::sys::{self, SignalNumbers};

verus! {

/// Real-time signals that the manager takes, counted from the first.
pub const RT_OFFSETS: [i32; 13] = [0, 1, 2, 3, 4, 13, 14, 15, 20, 21, 22, 26, 29];

/// The signals other than real-time ones that the manager takes.
pub open spec fn fixed(numbers: SignalNumbers) -> Seq<i32> {
    seq![
        numbers.chld,
        sys::SIGTERM,
        sys::SIGINT,
        sys::SIGHUP,
        numbers.usr1,
        numbers.usr2,
        numbers.winch,
        sys::SIGPIPE,
        numbers.pwr,
    ]
}

/// The signals other than real-time ones that the manager takes.
pub fn managed_signals_fixed(numbers: &SignalNumbers) -> (r: [i32; 9])
    ensures
        r@ == fixed(*numbers),
{
    let signals: [i32; 9] = [
        numbers.chld,
        sys::SIGTERM,
        sys::SIGINT,
        sys::SIGHUP,
        numbers.usr1,
        numbers.usr2,
        numbers.winch,
        sys::SIGPIPE,
        numbers.pwr,
    ];
    assert(signals@ =~= fixed(*numbers));
    signals
}

/// The signals that the manager takes when real-time signals begin at `min`.
pub open spec fn managed(numbers: SignalNumbers, min: i32) -> Seq<i32> {
    fixed(numbers) + Seq::new(13, |i: int| min.wrapping_add(RT_OFFSETS[i]))
}

/// The signals that the manager takes when real-time signals begin at `min`.
pub fn managed_signals_from(numbers: &SignalNumbers, min: i32) -> (r: Vec<i32>)
    ensures
        r@ == managed(*numbers, min),
{
    let first = managed_signals_fixed(numbers);
    let offsets: [i32; 13] = RT_OFFSETS;
    let ghost all = managed(*numbers, min);
    let mut signals: Vec<i32> = Vec::new();
    let mut i: usize = 0;
    while i < 9
        invariant
            i <= 9,
            first@ == fixed(*numbers),
            all == managed(*numbers, min),
            signals@ == all.take(i as int),
        decreases 9 - i,
    {
        signals.push(first[i]);
        assert(signals@ =~= all.take(i + 1));
        i += 1;
    }
    let mut j: usize = 0;
    while j < 13
        invariant
            j <= 13,
            offsets == RT_OFFSETS,
            all == managed(*numbers, min),
            signals@ == all.take(9 + j),
        decreases 13 - j,
    {
        signals.push(min.wrapping_add(offsets[j]));
        assert(signals@ =~= all.take(9 + j + 1));
        j += 1;
    }
    assert(all.take(22) =~= all);
    signals
}

/// The full set of signals that the manager takes, with the numbers that they
/// have on this machine.
pub fn managed_signals() -> (r: Vec<i32>)
    ensures
        exists|numbers: SignalNumbers, min: i32| numbers.on_linux() && r@ == #[trigger] managed(numbers, min),
{
    managed_signals_from(&sys::signal_numbers(), sys::sigrtmin())
}

/// The managed real-time signals stand at fixed distances from the first,
/// which is one of them.
pub proof fn law_managed_offsets(numbers: SignalNumbers, min: i32, i: int)
    requires
        min <= i32::MAX - 29,
        0 <= i < 13,
    ensures
        managed(numbers, min).len() == 22,
        managed(numbers, min)[9 + i] == min + RT_OFFSETS[i],
        managed(numbers, min)[9] == min,
{
}

/// What the event loop should do in response to a signal.
#[derive(Debug, Clone, Copy, PartialEq, Eq, Structural)]
pub enum SignalAction {
    /// Reload unit configuration.
    Reload,
    /// Terminate the manager cleanly.
    Terminate,
    /// Reap one or more children.
    ReapChildren,
    /// Initiate a clean system shutdown.
    CtrlAltDelete,
    /// Dump manager status.
    DumpStatus,
    /// Re-execute the manager binary in place.
    Reexecute,
    /// Propagate a window-resize event.
    WindowResize,
    /// Power failure notification.
    PowerFailure,
    /// A real-time signal.
    Realtime(i32),
    /// Ignore this signal.
    Ignore,
}

/// The action for a signal number, on a machine with these numbers.
pub open spec fn action_of(signo: i32, numbers: SignalNumbers) -> SignalAction {
    if signo == numbers.chld {
        SignalAction::ReapChildren
    } else if signo == sys::SIGHUP {
        SignalAction::Reload
    } else if signo == sys::SIGTERM {
        SignalAction::Terminate
    } else if signo == sys::SIGINT {
        SignalAction::CtrlAltDelete
    } else if signo == numbers.usr1 {
        SignalAction::DumpStatus
    } else if signo == numbers.usr2 {
        SignalAction::Reexecute
    } else if signo == numbers.winch {
        SignalAction::WindowResize
    } else if signo == sys::SIGPIPE {
        SignalAction::Ignore
    } else if signo == numbers.pwr {
        SignalAction::PowerFailure
    } else {
        SignalAction::Realtime(signo)
    }
}

/// Map a received signal number to the action that the manager takes, with the
/// numbers of this machine.
pub fn signal_to_action(signo: i32) -> (r: SignalAction)
    ensures
        exists|numbers: SignalNumbers| numbers.on_linux() && r == #[trigger] action_of(signo, numbers),
{
    signal_to_action_with(signo, &sys::signal_numbers())
}

/// On every machine each managed signal means its own action; every other
/// number is a real-time signal's.
pub proof fn law_each_signal_has_its_action(numbers: SignalNumbers, signo: i32)
    requires
        numbers.on_linux(),
    ensures
        action_of(numbers.chld, numbers) == SignalAction::ReapChildren,
        action_of(sys::SIGHUP, numbers) == SignalAction::Reload,
        action_of(sys::SIGTERM, numbers) == SignalAction::Terminate,
        action_of(sys::SIGINT, numbers) == SignalAction::CtrlAltDelete,
        action_of(numbers.usr1, numbers) == SignalAction::DumpStatus,
        action_of(numbers.usr2, numbers) == SignalAction::Reexecute,
        action_of(numbers.winch, numbers) == SignalAction::WindowResize,
        action_of(sys::SIGPIPE, numbers) == SignalAction::Ignore,
        action_of(numbers.pwr, numbers) == SignalAction::PowerFailure,
        !fixed(numbers).contains(signo) ==> action_of(signo, numbers) == SignalAction::Realtime(signo),
{
    let all = fixed(numbers);
    assert(all[0] == numbers.chld && all[1] == sys::SIGTERM && all[2] == sys::SIGINT && all[3] == sys::SIGHUP && all[4]
        == numbers.usr1 && all[5] == numbers.usr2 && all[6] == numbers.winch && all[7] == sys::SIGPIPE && all[8]
        == numbers.pwr);
}

/// Map a received signal number to the action that the manager takes, on a
/// machine with the given numbers.
pub fn signal_to_action_with(signo: i32, numbers: &SignalNumbers) -> (r: SignalAction)
    ensures
        r == action_of(signo, *numbers),
{
    if signo == numbers.chld {
        SignalAction::ReapChildren
    } else if signo == sys::SIGHUP {
        SignalAction::Reload
    } else if signo == sys::SIGTERM {
        SignalAction::Terminate
    } else if signo == sys::SIGINT {
        SignalAction::CtrlAltDelete
    } else if signo == numbers.usr1 {
        SignalAction::DumpStatus
    } else if signo == numbers.usr2 {
        SignalAction::Reexecute
    } else if signo == numbers.winch {
        SignalAction::WindowResize
    } else if signo == sys::SIGPIPE {
        SignalAction::Ignore
    } else if signo == numbers.pwr {
        SignalAction::PowerFailure
    } else {
        SignalAction::Realtime(signo)
    }
}

/// What one read of the signal descriptor came to: a signal, none pending, or
/// the number of the error.
pub fn read_result(rc: i32, signo: i32) -> (r: Result<Option<i32>, i32>)
    requires
        rc > i32::MIN,
    ensures
        r == if rc == 0 {
            Ok::<Option<i32>, i32>(Some(signo))
        } else if rc == -sys::EAGAIN {
            Ok(None)
        } else {
            Err((-rc) as i32)
        },
{
    if rc == 0 {
        Ok(Some(signo))
    } else if rc == -sys::EAGAIN {
        Ok(None)
    } else {
        Err(-rc)
    }
}

/// What each signal means. The standard signals keep their meaning on every
/// machine; what is none of them is a real-time signal.
pub proof fn law_what_each_signal_means(signo: i32, numbers: SignalNumbers)
    requires
        numbers.on_linux(),
    ensures
        signo == numbers.chld && signo != numbers.usr2 ==> action_of(signo, numbers) is ReapChildren,
        action_of(numbers.chld, numbers) is ReapChildren,
        action_of(1, numbers) is Reload,
        action_of(15, numbers) is Terminate,
        action_of(2, numbers) is CtrlAltDelete,
        action_of(numbers.usr1, numbers) is DumpStatus,
        action_of(numbers.usr2, numbers) is Reexecute,
        action_of(numbers.winch, numbers) is WindowResize,
        action_of(13, numbers) is Ignore,
        action_of(numbers.pwr, numbers) is PowerFailure,
        signo != numbers.chld && signo != 1 && signo != 15 && signo != 2 && signo != numbers.usr1 && signo != numbers.usr2 && signo != numbers.winch && signo != 13
            && signo != numbers.pwr <==> action_of(signo, numbers) is Realtime,
        action_of(signo, numbers) matches SignalAction::Realtime(n) ==> n == signo,
{
}

/// Which signals are managed: nine standard ones, and thirteen real-time ones,
/// counted from the first.
pub proof fn law_which_signals_are_managed(numbers: SignalNumbers, min: i32, i: int)
    requires
        0 <= min <= 100,
    ensures
        managed(numbers, min).len() == 22,
        managed(numbers, min).take(9) == seq![numbers.chld, 15, 2, 1, numbers.usr1, numbers.usr2, numbers.winch, 13, numbers.pwr],
        0 <= i < 13 ==> managed(numbers, min)[9 + i] - min == seq![0int, 1, 2, 3, 4, 13, 14, 15, 20, 21, 22, 26, 29][i],
{
    assert(managed(numbers, min).take(9) =~= fixed(numbers));
}

} // verus!
