//! Lengths of time.

use vstd::prelude::*;

verus! {

/// A length of time: seconds, and nanoseconds on top.
#[derive(Debug, Clone, Copy, PartialEq, Eq, Structural)]
pub struct Duration {
    pub secs: u64,
    pub nanos: u32,
}

impl Duration {
    /// The whole of it in nanoseconds.
    pub open spec fn total(self) -> int {
        self.secs * 1_000_000_000 + self.nanos
    }

    /// No time at all.
    pub open spec fn nothing() -> Duration {
        Duration { secs: 0, nanos: 0 }
    }

    pub fn zero() -> (d: Duration)
        ensures
            d == Duration::nothing(),
    {
        Duration { secs: 0, nanos: 0 }
    }

    pub fn from_secs(secs: u64) -> (d: Duration)
        ensures
            d == (Duration { secs, nanos: 0 }),
    {
        Duration { secs, nanos: 0 }
    }

    pub fn from_millis(millis: u64) -> (d: Duration)
        ensures
            d.secs == millis / 1000,
            d.nanos == (millis % 1000) * 1_000_000,
    {
        Duration { secs: millis / 1000, nanos: (millis % 1000) as u32 * 1_000_000 }
    }

    /// Whole seconds.
    pub fn as_secs(self) -> (secs: u64)
        ensures
            secs == self.secs,
    {
        self.secs
    }

    /// The whole of it in nanoseconds.
    pub fn as_nanos(self) -> (n: u128)
        ensures
            n == self.total(),
    {
        self.secs as u128 * 1_000_000_000 + self.nanos as u128
    }

    /// The whole of it in milliseconds, what is left over dropped.
    pub fn as_millis(self) -> (n: u128)
        ensures
            n == self.total() / 1_000_000,
    {
        self.as_nanos() / 1_000_000
    }

    /// As many nanoseconds, as seconds and what is left over.
    pub open spec fn of_nanos(n: int) -> Duration {
        Duration { secs: (n / 1_000_000_000) as u64, nanos: (n % 1_000_000_000) as u32 }
    }

    /// Moved by `delta` seconds, to no earlier than the start and no later than `end`.
    pub open spec fn nudged(self, delta: int, end: Duration) -> Duration {
        let to = self.total() + delta * 1_000_000_000;
        Duration::of_nanos(
            if to < 0 {
                0
            } else if to > end.total() {
                end.total()
            } else {
                to
            },
        )
    }

    /// Moved by `delta` seconds, to no earlier than the start and no later than `end`.
    pub fn nudge(self, delta: i64, end: Duration) -> (d: Duration)
        ensures
            d == self.nudged(delta as int, end),
    {
        let to: i128 = self.as_nanos() as i128 + delta as i128 * 1_000_000_000;
        let last: i128 = end.as_nanos() as i128;
        let n: u128 = if to < 0 {
            0
        } else if to > last {
            last as u128
        } else {
            to as u128
        };
        Duration {
            secs: #[verifier::truncate] ((n / 1_000_000_000) as u64),
            nanos: (n % 1_000_000_000) as u32,
        }
    }

    /// Strictly shorter than `other`.
    pub fn is_less(self, other: Duration) -> (b: bool)
        ensures
            b == (self.total() < other.total()),
    {
        self.as_nanos() < other.as_nanos()
    }

    /// How far apart the two are, in nanoseconds.
    pub fn apart(self, other: Duration) -> (n: u128)
        ensures
            n == (if self.total() >= other.total() {
                self.total() - other.total()
            } else {
                other.total() - self.total()
            }),
    {
        let a: u128 = self.as_nanos();
        let b: u128 = other.as_nanos();
        if a >= b {
            a - b
        } else {
            b - a
        }
    }

    /// How long after `earlier` this is, in nanoseconds; nothing when it is not.
    pub fn since(self, earlier: Duration) -> (n: u128)
        ensures
            n == (if self.total() >= earlier.total() {
                self.total() - earlier.total()
            } else {
                0
            }),
    {
        let a: u128 = self.as_nanos();
        let b: u128 = earlier.as_nanos();
        if a >= b {
            a - b
        } else {
            0
        }
    }
}

/// A nudge never leads out of what it is nudged along.
pub proof fn law_nudges_stay_in_the_track(at: Duration, delta: int, end: Duration)
    requires
        end.nanos < 1_000_000_000,
    ensures
        at.nudged(delta, end).total() <= end.total(),
        at.nudged(delta, end).nanos < 1_000_000_000,
{
}

/// A nudge moves by exactly as many seconds as it says, back or on, for as long as that
/// stays in the track; past either end it leads to that end.
pub proof fn law_a_nudge_is_exact(at: Duration, delta: int, end: Duration)
    requires
        end.nanos < 1_000_000_000,
    ensures
        ({
            let to = at.total() + delta * 1_000_000_000;
            at.nudged(delta, end).total() == (if to < 0 {
                0
            } else if to > end.total() {
                end.total()
            } else {
                to
            })
        }),
        at.nudged(delta, end).nanos < 1_000_000_000,
{
}

/// A nudge and the same nudge the other way lead back, when neither end was met.
pub proof fn law_nudges_undo_each_other(at: Duration, delta: int, end: Duration)
    requires
        end.nanos < 1_000_000_000,
        at.nanos < 1_000_000_000,
        at.total() <= end.total(),
        0 <= at.total() + delta * 1_000_000_000 <= end.total(),
    ensures
        at.nudged(delta, end).nudged(-delta, end) == at,
{
    law_a_nudge_is_exact(at, delta, end);
    law_a_nudge_is_exact(at.nudged(delta, end), -delta, end);
}

} // verus!
