//! Timer specifications.

use vstd::prelude::*;

verus! {

/// Which kernel clock backs a timer source.
#[derive(Debug, Clone, Copy, PartialEq, Eq, Structural)]
pub enum ClockId {
    /// Wall-clock time. Jumps when the clock is set.
    Realtime,
    /// Monotonic time since boot. Never jumps.
    Monotonic,
    /// Like the monotonic clock but includes suspend time.
    Boottime,
}

impl ClockId {
    /// The kernel's number of a clock.
    pub fn number(self) -> (r: i32)
        ensures
            r == match self {
                ClockId::Realtime => 0i32,
                ClockId::Monotonic => 1,
                ClockId::Boottime => 7,
            },
    {
        match self {
            ClockId::Realtime => 0,
            ClockId::Monotonic => 1,
            ClockId::Boottime => 7,
        }
    }
}

/// A timer specification: first-fire time and optional repeat interval, both
/// in nanoseconds.
#[derive(Debug, Clone, Copy, PartialEq, Eq, Structural)]
pub struct TimerSpec {
    /// When the timer first fires.
    pub value_ns: i64,
    /// Repeat interval; zero for a timer that fires once.
    pub interval_ns: i64,
    /// Whether `value_ns` is a timestamp on the clock instead of a delay.
    pub absolute: bool,
}

/// Whether some seconds and nanoseconds make up a span: they add up to it,
/// the nanoseconds are less than a second, and neither part goes the other
/// way.
pub open spec fn splits(ns: i64, seconds: i64, nanoseconds: i64) -> bool {
    &&& seconds * 1_000_000_000 + nanoseconds == ns
    &&& -1_000_000_000 < nanoseconds < 1_000_000_000
    &&& ns >= 0 ==> seconds >= 0 && nanoseconds >= 0
    &&& ns <= 0 ==> seconds <= 0 && nanoseconds <= 0
}

/// A span in seconds and nanoseconds.
pub fn split_ns(ns: i64) -> (r: (i64, i64))
    ensures
        splits(ns, r.0, r.1),
{
    let negative = ns < 0;
    let wide: i128 = ns as i128;
    let magnitude: u64 = if negative {
        (-wide) as u64
    } else {
        ns as u64
    };
    let seconds: i64 = (magnitude / 1_000_000_000) as i64;
    let nanoseconds: i64 = (magnitude % 1_000_000_000) as i64;
    if negative {
        (-seconds, -nanoseconds)
    } else {
        (seconds, nanoseconds)
    }
}

/// What the kernel is told about a timer.
#[derive(Debug, Clone, Copy, PartialEq, Eq, Structural)]
pub struct TimerSetting {
    pub flags: i32,
    pub value_seconds: i64,
    pub value_nanoseconds: i64,
    pub interval_seconds: i64,
    pub interval_nanoseconds: i64,
}

impl TimerSpec {
    /// A timer that fires once, `delay_ns` from now.
    pub fn once(delay_ns: i64) -> (r: Self)
        ensures
            r == (TimerSpec { value_ns: delay_ns, interval_ns: 0, absolute: false }),
    {
        TimerSpec { value_ns: delay_ns, interval_ns: 0, absolute: false }
    }

    /// A timer that fires first after `delay_ns` and then every `interval_ns`.
    pub fn repeating(delay_ns: i64, interval_ns: i64) -> (r: Self)
        ensures
            r == (TimerSpec { value_ns: delay_ns, interval_ns, absolute: false }),
    {
        TimerSpec { value_ns: delay_ns, interval_ns, absolute: false }
    }

    /// What the kernel is told to arm this timer.
    pub fn setting(&self) -> (r: TimerSetting)
        ensures
            r.flags == if self.absolute {
                1i32
            } else {
                0
            },
            splits(self.value_ns, r.value_seconds, r.value_nanoseconds),
            splits(self.interval_ns, r.interval_seconds, r.interval_nanoseconds),
    {
        let value = split_ns(self.value_ns);
        let interval = split_ns(self.interval_ns);
        TimerSetting {
            flags: if self.absolute {
                1
            } else {
                0
            },
            value_seconds: value.0,
            value_nanoseconds: value.1,
            interval_seconds: interval.0,
            interval_nanoseconds: interval.1,
        }
    }
}

/// Seconds and nanoseconds are determined by the span that they make up.
pub proof fn law_split_is_unique(ns: i64, s1: i64, n1: i64, s2: i64, n2: i64)
    requires
        splits(ns, s1, n1),
        splits(ns, s2, n2),
    ensures
        s1 == s2,
        n1 == n2,
{
}

/// What reading the clock came to: the time, or the number of the error.
pub fn clock_result(ns: i64) -> (r: Result<i64, i64>)
    requires
        ns > i64::MIN,
    ensures
        r == if ns < 0 {
            Err::<i64, i64>((-ns) as i64)
        } else {
            Ok(ns)
        },
{
    if ns < 0 {
        Err(-ns)
    } else {
        Ok(ns)
    }
}

/// A time has one split into seconds and nanoseconds of its sign.
pub proof fn law_a_time_splits_in_one_way(ns: i64, seconds: i64, nanoseconds: i64, other_seconds: i64, other_nanoseconds: i64)
    requires
        splits(ns, seconds, nanoseconds),
    ensures
        seconds * 1_000_000_000 + nanoseconds == ns,
        -1_000_000_000 < nanoseconds < 1_000_000_000,
        splits(ns, other_seconds, other_nanoseconds) ==> other_seconds == seconds && other_nanoseconds == nanoseconds,
{
}

} // verus!
