//! TDMA time of the air interface: hyperframe, multiframe (1..=60), frame (1..=18) and
//! timeslot (1..=4). Four timeslots make a frame, 18 frames a multiframe, 60 multiframes a
//! hyperframe; there are 72 timeslots per second.
use vstd::prelude::*;

verus! {

pub const TIMESLOTS_PER_FRAME: u64 = 4;

pub const FRAMES_PER_MULTIFRAME: u64 = 18;

pub const MULTIFRAMES_PER_HYPERFRAME: u64 = 60;

/// Timeslots in one full hyperframe cycle (65536 hyperframes).
pub const TIMESLOT_PERIOD: u64 = 65536 * 60 * 18 * 4;

#[derive(Debug, Clone, Copy, PartialEq, Eq, Structural)]
pub struct TdmaTime {
    pub h: u16,
    pub m: u8,
    pub f: u8,
    pub t: u8,
}

impl Default for TdmaTime {
    fn default() -> (r: TdmaTime)
        ensures
            r == (TdmaTime { h: 0, m: 1, f: 1, t: 1 }),
    {
        TdmaTime::start()
    }
}

impl TdmaTime {
    pub open spec fn wf(self) -> bool {
        1 <= self.m <= 60 && 1 <= self.f <= 18 && 1 <= self.t <= 4
    }

    /// Number of multiframes since the start of the hyperframe cycle.
    pub open spec fn multiframe_index(self) -> int {
        self.h * 60 + (self.m - 1)
    }

    /// Number of timeslots since the start of the hyperframe cycle.
    pub open spec fn index(self) -> int {
        (self.multiframe_index() * 18 + (self.f - 1)) * 4 + (self.t - 1)
    }

    /// The first timeslot of the cycle.
    pub fn start() -> (r: TdmaTime)
        ensures
            r == (TdmaTime { h: 0, m: 1, f: 1, t: 1 }),
            r.wf(),
            r.index() == 0,
    {
        TdmaTime { h: 0, m: 1, f: 1, t: 1 }
    }

    /// The time `n` timeslots later, wrapping at the end of the hyperframe cycle.
    pub fn add_timeslots(self, n: u32) -> (r: TdmaTime)
        requires
            self.wf(),
        ensures
            r.wf(),
            r.index() == (self.index() + n) % (TIMESLOT_PERIOD as int),
    {
        let idx: u64 = ((((self.h as u64) * 60 + (self.m as u64 - 1)) * 18 + (self.f as u64 - 1)) * 4) + (
        self.t as u64 - 1);
        let total: u64 = (idx + n as u64) % TIMESLOT_PERIOD;
        let t: u64 = total % 4;
        let rest: u64 = total / 4;
        let f: u64 = rest % 18;
        let rest2: u64 = rest / 18;
        let m: u64 = rest2 % 60;
        let h: u64 = rest2 / 60;
        proof {
            assert(idx == self.index()) by (nonlinear_arith)
                requires
                    idx == ((((self.h as u64) * 60 + (self.m as u64 - 1)) * 18 + (self.f as u64 - 1)) * 4) + (
                    self.t as u64 - 1),
                    self.wf(),
            ;
            assert(total == t + 4 * rest) by (nonlinear_arith)
                requires
                    t == total % 4,
                    rest == total / 4,
            ;
            assert(rest == f + 18 * rest2) by (nonlinear_arith)
                requires
                    f == rest % 18,
                    rest2 == rest / 18,
            ;
            assert(rest2 == m + 60 * h) by (nonlinear_arith)
                requires
                    m == rest2 % 60,
                    h == rest2 / 60,
            ;
            assert(h < 65536) by (nonlinear_arith)
                requires
                    total < TIMESLOT_PERIOD,
                    total == t + 4 * rest,
                    rest == f + 18 * rest2,
                    rest2 == m + 60 * h,
                    t >= 0,
                    f >= 0,
                    m >= 0,
            ;
        }
        TdmaTime { h: h as u16, m: (m + 1) as u8, f: (f + 1) as u8, t: (t + 1) as u8 }
    }

    /// Timeslots from `other` to `self` (negative when `other` is later).
    pub fn diff(self, other: TdmaTime) -> (r: i64)
        requires
            self.wf(),
            other.wf(),
        ensures
            r == self.index() - other.index(),
    {
        let a: i64 = ((((self.h as i64) * 60 + (self.m as i64 - 1)) * 18 + (self.f as i64 - 1)) * 4) + (
        self.t as i64 - 1);
        let b: i64 = ((((other.h as i64) * 60 + (other.m as i64 - 1)) * 18 + (other.f as i64 - 1)) * 4) + (
        other.t as i64 - 1);
        proof {
            assert(a == self.index()) by (nonlinear_arith)
                requires
                    a == ((((self.h as i64) * 60 + (self.m as i64 - 1)) * 18 + (self.f as i64 - 1)) * 4) + (
                    self.t as i64 - 1),
            ;
            assert(b == other.index()) by (nonlinear_arith)
                requires
                    b == ((((other.h as i64) * 60 + (other.m as i64 - 1)) * 18 + (other.f as i64 - 1)) * 4) + (
                    other.t as i64 - 1),
            ;
        }
        a - b
    }

    /// Timeslots elapsed from `self` until `now`.
    pub fn age(self, now: TdmaTime) -> (r: i64)
        requires
            self.wf(),
            now.wf(),
        ensures
            r == now.index() - self.index(),
    {
        now.diff(self)
    }

    /// Whether this timeslot lies in the downlink monitoring window of a station in energy
    /// economy: the window's frame, in the multiframes whose index is `mframe` modulo
    /// `cycle_len`.
    pub fn in_ee_monitoring_window(self, frame: u8, mframe: u8, cycle_len: u8) -> (r: bool)
        requires
            self.wf(),
        ensures
            r == (cycle_len > 0 && self.f == frame && self.multiframe_index() % (cycle_len as int) == mframe),
    {
        if cycle_len == 0 {
            return false;
        }
        let mf: u32 = (self.h as u32) * 60 + (self.m as u32 - 1);
        self.f == frame && mf % (cycle_len as u32) == mframe as u32
    }
}

} // verus!
