//! Counting frames against a clock that the caller reads.
//!
//! Times are microseconds on any clock that does not run backwards.

use vstd::prelude::*;

verus! {

/// A rate is reported once more than this many microseconds have passed.
pub const REPORT_EVERY: u64 = 1_000_000;

/// The two times that a running counter remembers.
#[derive(Clone, Copy, Debug, PartialEq, Eq, Structural)]
pub struct Clock {
    /// When the current count began.
    pub last_fps_update: u64,
    /// When the last frame was counted.
    pub last_frame: u64,
}

/// What a frame counter knows.
#[derive(Clone, Copy, Debug, PartialEq, Eq, Structural)]
pub struct FrameCounter {
    /// Nothing before the first frame.
    pub clock: Option<Clock>,
    /// The time between the last two frames.
    pub time_last_frame: u64,
    /// All frames counted so far.
    pub total_frame: usize,
    /// The frames of the last report.
    pub fps_frames: usize,
    /// The time that the frames of the last report took.
    pub fps_micros: u64,
    /// The frames counted since the last report.
    pub cur_fps_count: usize,
}

/// `a - b`, or 0 where the clock ran backwards.
pub open spec fn since(a: u64, b: u64) -> u64 {
    if a >= b {
        (a - b) as u64
    } else {
        0
    }
}

/// One more, unless that is more than the type holds.
pub open spec fn bump(n: usize) -> usize {
    if n < usize::MAX {
        (n + 1) as usize
    } else {
        n
    }
}

fn elapsed(now: u64, then: u64) -> (micros: u64)
    ensures
        micros == since(now, then),
{
    if now >= then {
        now - then
    } else {
        0
    }
}

fn one_more(n: usize) -> (m: usize)
    ensures
        m == bump(n),
{
    if n < usize::MAX {
        n + 1
    } else {
        n
    }
}

impl FrameCounter {
    /// The counter before any frame.
    pub open spec fn fresh() -> FrameCounter {
        FrameCounter {
            clock: None,
            time_last_frame: 0,
            total_frame: 0,
            fps_frames: 0,
            fps_micros: 0,
            cur_fps_count: 0,
        }
    }

    /// Whether a frame at time `now` completes a report: more than a second
    /// has passed since the count began.
    pub open spec fn reports(self, now: u64) -> bool {
        self.clock matches Some(clock) && since(now, clock.last_fps_update) > REPORT_EVERY
    }

    /// The counter after a frame at time `now`.  The first frame starts the
    /// clock.  A frame that completes a report stores the count and the time
    /// it took, and starts a new count at `now`.
    pub open spec fn after_frame(self, now: u64) -> FrameCounter {
        let clock = match self.clock {
            Some(clock) => clock,
            None => Clock { last_fps_update: now, last_frame: now },
        };
        let counted = FrameCounter {
            clock: Some(Clock { last_fps_update: clock.last_fps_update, last_frame: now }),
            time_last_frame: since(now, clock.last_frame),
            total_frame: bump(self.total_frame),
            cur_fps_count: bump(self.cur_fps_count),
            ..self
        };
        if self.reports(now) {
            FrameCounter {
                clock: Some(Clock { last_fps_update: now, last_frame: now }),
                fps_frames: counted.cur_fps_count,
                fps_micros: since(now, clock.last_fps_update),
                cur_fps_count: 0,
                ..counted
            }
        } else {
            counted
        }
    }

    pub fn new() -> (c: FrameCounter)
        ensures
            c == FrameCounter::fresh(),
    {
        FrameCounter {
            clock: None,
            time_last_frame: 0,
            total_frame: 0,
            fps_frames: 0,
            fps_micros: 0,
            cur_fps_count: 0,
        }
    }

    /// Counts a frame at time `now`.  Once more than a second has passed
    /// since the last report, returns the number of frames in that time and
    /// the time itself, and starts counting anew.
    pub fn next_frame(&mut self, now: u64) -> (report: Option<(usize, u64)>)
        ensures
            *final(self) == old(self).after_frame(now),
            report is Some <==> old(self).reports(now),
            report matches Some(r) ==> r == (final(self).fps_frames, final(self).fps_micros),
    {
        let clock = match self.clock {
            Some(clock) => clock,
            None => Clock { last_fps_update: now, last_frame: now },
        };
        self.time_last_frame = elapsed(now, clock.last_frame);
        self.total_frame = one_more(self.total_frame);
        self.cur_fps_count = one_more(self.cur_fps_count);
        let passed = elapsed(now, clock.last_fps_update);
        if passed > REPORT_EVERY {
            self.fps_frames = self.cur_fps_count;
            self.fps_micros = passed;
            self.clock = Some(Clock { last_fps_update: now, last_frame: now });
            self.cur_fps_count = 0;
            Some((self.fps_frames, self.fps_micros))
        } else {
            self.clock = Some(Clock { last_fps_update: clock.last_fps_update, last_frame: now });
            None
        }
    }

    /// The last report: a number of frames and the microseconds they took.
    pub fn fps(&self) -> (r: (usize, u64))
        ensures
            r == (self.fps_frames, self.fps_micros),
    {
        (self.fps_frames, self.fps_micros)
    }

    /// How many frames were counted in all.
    pub fn total_frame(&self) -> (n: usize)
        ensures
            n == self.total_frame,
    {
        self.total_frame
    }

    /// The microseconds between the last two frames.
    pub fn time_last_frame(&self) -> (t: u64)
        ensures
            t == self.time_last_frame,
    {
        self.time_last_frame
    }
}

} // verus!
