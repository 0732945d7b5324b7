//! Frame timing: a [`Timer`] measuring per-frame deltas and a [`Ticker`]
//! firing at a configured cadence.
//!
//! Both are driven by the caller handing in the current reading of a
//! monotonic millisecond clock (readings must not decrease between calls);
//! the core itself never reads a clock. Tickers run off that wall clock, not
//! off simulation deltas, so their cadence does not drift with frame rate.

use vstd::prelude::*;

verus! {

/// A sum of clock readings, saturating at the top of the counter.
pub open spec fn sat_add_u64(a: u64, b: u64) -> int {
    if a + b <= u64::MAX {
        a + b
    } else {
        u64::MAX as int
    }
}

/// Marks frames and reports the time that passed since the previous mark.
pub struct Timer {
    /// The clock reading at the last mark, milliseconds.
    pub since_start: u64,
    /// Frames marked so far; stops counting at the top of the counter.
    pub frame_cnt: u64,
    /// The delta returned by the last mark, milliseconds.
    pub prev_delta: u64,
}

impl Timer {
    /// A fresh timer, at the clock's origin with no frames marked.
    pub fn new() -> (t: Timer)
        ensures
            t.since_start == 0,
            t.frame_cnt == 0,
            t.prev_delta == 0,
    {
        Timer { since_start: 0, frame_cnt: 0, prev_delta: 0 }
    }

    /// Mark a frame at clock reading `now` and return the milliseconds since
    /// the previous mark; the first call returns the time since the clock's
    /// origin.
    pub fn mark_frame(&mut self, now: u64) -> (dt: u64)
        requires
            old(self).since_start <= now,
        ensures
            dt == now - old(self).since_start,
            final(self).since_start == now,
            final(self).prev_delta == dt,
            final(self).frame_cnt == if old(self).frame_cnt < u64::MAX {
                old(self).frame_cnt + 1
            } else {
                old(self).frame_cnt as int
            },
    {
        let dt: u64 = now - self.since_start;
        self.since_start = now;
        self.prev_delta = dt;
        if self.frame_cnt < u64::MAX {
            self.frame_cnt = self.frame_cnt + 1;
        }
        dt
    }

    /// The delta returned by the most recent mark.
    pub fn delta(&self) -> (d: u64)
        ensures
            d == self.prev_delta,
    {
        self.prev_delta
    }

    /// How many frames have been marked.
    pub fn frame_cnt(&self) -> (c: u64)
        ensures
            c == self.frame_cnt,
    {
        self.frame_cnt
    }
}

/// Fires once enough wall-clock time has accumulated since its last firing.
pub struct Ticker {
    /// Milliseconds between firings: the whole part of `1000 / frequency`.
    pub period: u64,
    /// The clock reading at the last poll, milliseconds.
    pub since_start: u64,
    /// Milliseconds accumulated since the last firing.
    pub accum: u64,
}

impl Ticker {
    /// A ticker firing `freq` times a second. A zero frequency has no period
    /// and is a construction-time fault, so it is ruled out here.
    pub fn new(freq: u64) -> (t: Ticker)
        requires
            freq >= 1,
        ensures
            t.period == 1000 as int / freq as int,
            t.since_start == 0,
            t.accum == 0,
    {
        Ticker { period: 1000 / freq, since_start: 0, accum: 0 }
    }

    /// Poll at clock reading `now`: accumulate the time since the previous
    /// poll and, once a full period has built up, fire, handing back the
    /// accumulated time and starting over from zero.
    pub fn ticker(&mut self, now: u64) -> (r: Option<u64>)
        requires
            old(self).since_start <= now,
        ensures
            final(self).period == old(self).period,
            final(self).since_start == now,
            ({
                let acc = sat_add_u64(old(self).accum, (now - old(self).since_start) as u64);
                if acc >= old(self).period {
                    r == Some(acc as u64) && final(self).accum == 0
                } else {
                    r is None && final(self).accum == acc
                }
            }),
    {
        let delta: u64 = now - self.since_start;
        self.since_start = now;
        let acc: u64 = if u64::MAX - self.accum >= delta {
            self.accum + delta
        } else {
            u64::MAX
        };
        if acc >= self.period {
            self.accum = 0;
            Some(acc)
        } else {
            self.accum = acc;
            None
        }
    }
}

} // verus!
