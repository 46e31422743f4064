//! A pausable countdown timer over an explicit monotonic clock.
//!
//! Every operation takes the current time as an argument: the caller
//! supplies the clock, and the countdown arithmetic itself is verified.

use vstd::prelude::*;

verus! {

/// Saturating difference: elapsed time from `start` to `now` on a clock
/// that may be handed in out of order.
pub open spec fn spec_elapsed(start: u64, now: u64) -> u64 {
    if now <= start {
        0u64
    } else {
        (now - start) as u64
    }
}

/// A countdown that can be started, paused, and queried for the time that
/// remains out of its original duration.
#[derive(Debug, Clone, Copy, PartialEq, Eq, Structural)]
pub struct Timer {
    duration: u64,
    start_time: u64,
    started: bool,
}

impl Timer {
    /// The stored duration: what remains of the countdown, not counting
    /// time elapsed since the last (re)start.
    pub closed spec fn spec_duration(self) -> u64 {
        self.duration
    }

    /// Time units left on the countdown at time `now`.
    pub closed spec fn spec_remaining(self, now: u64) -> u64 {
        if self.started {
            if spec_elapsed(self.start_time, now) >= self.duration {
                0u64
            } else {
                (self.duration - spec_elapsed(self.start_time, now)) as u64
            }
        } else {
            self.duration
        }
    }

    /// A running timer with `duration` units left as of time `now`.
    pub fn new(duration: u64, now: u64) -> (r: Timer)
        ensures
            r.spec_remaining(now) == duration,
            r.spec_duration() == duration,
            forall|t: u64| #[trigger] r.spec_remaining(t) == (if spec_elapsed(now, t) >= duration {
                0u64
            } else {
                (duration - spec_elapsed(now, t)) as u64
            }),
    {
        Timer { duration, start_time: now, started: true }
    }

    /// (Re)starts the countdown from whatever duration is left.
    pub fn start(&mut self, now: u64)
        ensures
            final(self).spec_remaining(now) == old(self).spec_duration(),
            final(self).spec_duration() == old(self).spec_duration(),
            forall|t: u64| #[trigger] final(self).spec_remaining(t) == (if spec_elapsed(now, t)
                >= old(self).spec_duration() {
                0u64
            } else {
                (old(self).spec_duration() - spec_elapsed(now, t)) as u64
            }),
    {
        self.start_time = now;
        self.started = true;
    }

    /// Stops the clock, banking the time that remains at `now`.
    pub fn pause(&mut self, now: u64)
        ensures
            forall|t: u64| final(self).spec_remaining(t) == old(self).spec_remaining(now),
    {
        if self.started {
            let elapsed = if now <= self.start_time {
                0
            } else {
                now - self.start_time
            };
            self.duration = if elapsed >= self.duration {
                0
            } else {
                self.duration - elapsed
            };
        }
        self.started = false;
    }

    /// Time units left at `now`; zero once the countdown has expired.
    pub fn remaining(&self, now: u64) -> (r: u64)
        ensures
            r == self.spec_remaining(now),
    {
        if self.started {
            let elapsed = if now <= self.start_time {
                0
            } else {
                now - self.start_time
            };
            if elapsed >= self.duration {
                0
            } else {
                self.duration - elapsed
            }
        } else {
            self.duration
        }
    }
}


/// The view of one decimal digit.
pub open spec fn digit_seq(d: nat) -> Seq<char> {
    if d == 0 {
        "0"@
    } else if d == 1 {
        "1"@
    } else if d == 2 {
        "2"@
    } else if d == 3 {
        "3"@
    } else if d == 4 {
        "4"@
    } else if d == 5 {
        "5"@
    } else if d == 6 {
        "6"@
    } else if d == 7 {
        "7"@
    } else if d == 8 {
        "8"@
    } else {
        "9"@
    }
}

/// The decimal rendering of `n`, most significant digit first.
pub open spec fn spec_decimal(n: nat) -> Seq<char>
    decreases n,
{
    if n < 10 {
        digit_seq(n)
    } else {
        spec_decimal(n / 10) + digit_seq(n % 10)
    }
}

/// Appends the decimal rendering of `n` to `s`.
pub fn push_decimal(s: &mut String, n: u64)
    ensures
        final(s)@ == old(s)@ + spec_decimal(n as nat),
    decreases n,
{
    let ghost pre = s@;
    if n >= 10 {
        push_decimal(s, n / 10);
    }
    let ghost mid = s@;
    let d = n % 10;
    if d == 0 {
        s.append("0");
    } else if d == 1 {
        s.append("1");
    } else if d == 2 {
        s.append("2");
    } else if d == 3 {
        s.append("3");
    } else if d == 4 {
        s.append("4");
    } else if d == 5 {
        s.append("5");
    } else if d == 6 {
        s.append("6");
    } else if d == 7 {
        s.append("7");
    } else if d == 8 {
        s.append("8");
    } else {
        s.append("9");
    }
    proof {
        if n >= 10 {
            assert(s@ =~= pre + spec_decimal(n as nat));
        } else {
            assert(s@ =~= pre + spec_decimal(n as nat));
        }
    }
}

} // verus!
