//! The fixed-timestep frame driver. The host reports irregular ticks of
//! its animation callback; the driver clamps the raw delta, accumulates
//! it, and decides whether one frame is due — coalescing several elapsed
//! fixed intervals into a single paint decision — while keeping a rolling
//! frames-per-second figure over a one-second window.
//!
//! All times are in microseconds; rates are in millihertz, so a steady
//! sixty frames per second reads as `60_000`.

use vstd::arithmetic::div_mod::lemma_mod_sub_multiples_vanish;
use vstd::arithmetic::div_mod::lemma_multiply_divide_le;
use vstd::arithmetic::div_mod::lemma_small_mod;
use vstd::arithmetic::mul::lemma_mul_inequality;
use vstd::prelude::*;

verus! {

/// Target simulation/render rate, in steps per second.
pub const TARGET_FPS: u64 = 60;

/// The fixed interval: one step's worth of time.
pub const FRAME_TIME_US: u64 = 1_000_000 / TARGET_FPS;

/// Upper bound on one tick's raw delta, so a stall (a backgrounded tab)
/// cannot flood the accumulator and trigger a runaway catch-up.
pub const MAX_DELTA_US: u64 = 100_000;

/// Length of the rolling FPS window.
pub const FPS_WINDOW_US: u64 = 1_000_000;

/// The raw tick delta after clamping to the worst-case bound.
pub open spec fn clamp_delta(raw: int) -> int {
    if raw > MAX_DELTA_US { MAX_DELTA_US as int } else { raw }
}

/// Per-session timing state of the frame driver.
pub struct FrameLoop {
    last_tick_us: u64,
    accumulated_us: u64,
    frame_count: u64,
    fps_window_start_us: u64,
    fps_millis: u64,
}

impl FrameLoop {
    /// Timestamp of the most recent tick.
    pub closed spec fn last_tick(&self) -> u64 {
        self.last_tick_us
    }

    /// Residual time not yet covered by a fixed step.
    pub closed spec fn accumulated(&self) -> u64 {
        self.accumulated_us
    }

    /// Frames rendered since the current FPS window opened.
    pub closed spec fn frames(&self) -> u64 {
        self.frame_count
    }

    /// When the current FPS window opened.
    pub closed spec fn window_start(&self) -> u64 {
        self.fps_window_start_us
    }

    /// The most recently reported rate, in millihertz.
    pub closed spec fn fps_millis(&self) -> u64 {
        self.fps_millis
    }

    /// Internal invariant: the residual never reaches a full interval,
    /// the window opened no later than the last tick, and the window
    /// cannot have seen more frames than elapsed microseconds.
    pub closed spec fn wf(&self) -> bool {
        &&& self.accumulated_us < FRAME_TIME_US
        &&& self.fps_window_start_us <= self.last_tick_us
        &&& self.frame_count <= self.last_tick_us - self.fps_window_start_us
    }

    /// A driver started at time `now_us`: nothing accumulated, nothing
    /// rendered, the FPS window opening now.
    pub fn new(now_us: u64) -> (l: FrameLoop)
        ensures
            l.wf(),
            l.last_tick() == now_us,
            l.accumulated() == 0,
            l.frames() == 0,
            l.window_start() == now_us,
            l.fps_millis() == 0,
    {
        FrameLoop {
            last_tick_us: now_us,
            accumulated_us: 0,
            frame_count: 0,
            fps_window_start_us: now_us,
            fps_millis: 0,
        }
    }

    /// Timestamp of the most recent tick, so the host can confirm its
    /// clock has not stepped backwards before reporting the next one.
    pub fn last_tick_us(&self) -> (r: u64)
        ensures
            r == self.last_tick(),
    {
        self.last_tick_us
    }

    /// The most recently reported rate, in millihertz.
    pub fn fps(&self) -> (r: u64)
        ensures
            r == self.fps_millis(),
    {
        self.fps_millis
    }

    /// Frames rendered since the current FPS window opened.
    pub fn frames_this_window(&self) -> (r: u64)
        ensures
            r == self.frames(),
    {
        self.frame_count
    }

    /// One host tick at time `now_us`. Returns `(due, dt_us)`: whether
    /// the scene should paint exactly once now, and the clamped raw delta
    /// to hand every paint entry. However many fixed intervals elapsed,
    /// they coalesce into a single due decision; the residual keeps only
    /// the time left over beyond whole intervals. The frame counter and
    /// the rolling FPS window advance as part of the same tick; a full
    /// window — one second or more since it opened — reports its rate
    /// and rolls over.
    pub fn update_func(&mut self, now_us: u64) -> (r: (bool, u64))
        requires
            old(self).wf(),
            old(self).last_tick() <= now_us,
        ensures
            final(self).wf(),
            r.1 == clamp_delta(now_us - old(self).last_tick()),
            r.0 == (old(self).accumulated() + r.1 >= FRAME_TIME_US),
            final(self).last_tick() == now_us,
            final(self).accumulated() == (old(self).accumulated() + r.1) % (FRAME_TIME_US as int),
            ({
                let frames_after = old(self).frames() + (if r.0 { 1int } else { 0int });
                let elapsed = now_us - old(self).window_start();
                if elapsed >= FPS_WINDOW_US {
                    &&& final(self).frames() == 0
                    &&& final(self).window_start() == now_us
                    &&& final(self).fps_millis() == frames_after * 1_000_000_000 / elapsed
                } else {
                    &&& final(self).frames() == frames_after
                    &&& final(self).window_start() == old(self).window_start()
                    &&& final(self).fps_millis() == old(self).fps_millis()
                }
            }),
    {
        let raw: u64 = now_us - self.last_tick_us;
        let dt: u64 = if raw > MAX_DELTA_US { MAX_DELTA_US } else { raw };
        self.last_tick_us = now_us;
        self.accumulated_us = self.accumulated_us + dt;

        let ghost total: u64 = self.accumulated_us;
        let ghost frames0: u64 = self.frame_count;
        let ghost ws0: u64 = self.fps_window_start_us;
        let ghost fps0: u64 = self.fps_millis;
        let mut updated: bool = false;
        while self.accumulated_us >= FRAME_TIME_US
            invariant
                self.accumulated_us <= total,
                updated <==> self.accumulated_us < total,
                (self.accumulated_us as int) % (FRAME_TIME_US as int) == (total as int) % (FRAME_TIME_US as int),
                self.last_tick_us == now_us,
                self.frame_count == frames0,
                self.fps_window_start_us == ws0,
                self.fps_millis == fps0,
            decreases self.accumulated_us,
        {
            proof {
                lemma_mod_sub_multiples_vanish(self.accumulated_us as int, FRAME_TIME_US as int);
            }
            self.accumulated_us = self.accumulated_us - FRAME_TIME_US;
            updated = true;
        }
        proof {
            lemma_small_mod(self.accumulated_us as nat, FRAME_TIME_US as nat);
            if total < FRAME_TIME_US {
                lemma_small_mod(total as nat, FRAME_TIME_US as nat);
            }
        }

        if updated {
            self.frame_count = self.frame_count + 1;
        }

        let elapsed: u64 = now_us - self.fps_window_start_us;
        if elapsed >= FPS_WINDOW_US {
            self.fps_millis = fps_from_window(self.frame_count, elapsed);
            self.frame_count = 0;
            self.fps_window_start_us = now_us;
        }
        (updated, dt)
    }
}

/// The rate that `frames` paints over a window of `elapsed_us`
/// microseconds amount to, in millihertz: sixty frames over one second
/// report as `60_000`.
pub fn fps_from_window(frames: u64, elapsed_us: u64) -> (r: u64)
    requires
        0 < elapsed_us,
        frames <= elapsed_us,
    ensures
        r == (frames as int) * 1_000_000_000 / (elapsed_us as int),
{
    let num: u128 = (frames as u128) * 1_000_000_000;
    let q: u128 = num / (elapsed_us as u128);
    proof {
        lemma_mul_inequality(frames as int, elapsed_us as int, 1_000_000_000);
        lemma_multiply_divide_le(num as int, elapsed_us as int, 1_000_000_000);
    }
    q as u64
}

/// Wall-clock bookkeeping a demo page keeps alongside its frame driver;
/// the host fills the fields from its own clock.
pub struct Time {
    /// Last raw tick delta.
    pub delta_us: u64,
    /// Total time this page has been running.
    pub elapsed_us: u64,
    /// Most recently reported rate, in millihertz.
    pub fps_millis: u64,
    /// Frames rendered over the whole run.
    pub frame_count: u32,
    /// Timestamp of the most recent frame.
    pub last_frame_time_us: u64,
}

impl Time {
    /// Fresh bookkeeping: no time elapsed, no frames rendered.
    pub fn new() -> (t: Time)
        ensures
            t.delta_us == 0,
            t.elapsed_us == 0,
            t.fps_millis == 0,
            t.frame_count == 0,
            t.last_frame_time_us == 0,
    {
        Time {
            delta_us: 0,
            elapsed_us: 0,
            fps_millis: 0,
            frame_count: 0,
            last_frame_time_us: 0,
        }
    }

    /// The average rate over the whole run, in millihertz — unless the
    /// run is too young to average (under a second, or under ten frames),
    /// in which case the last reported rate stands.
    pub fn smooth_fps(&self) -> (r: u64)
        ensures
            r == if self.elapsed_us < 1_000_000 || self.frame_count < 10 {
                self.fps_millis as int
            } else {
                (self.frame_count as int) * 1_000_000_000 / (self.elapsed_us as int)
            },
    {
        if self.elapsed_us < 1_000_000 || self.frame_count < 10 {
            return self.fps_millis;
        }
        ((self.frame_count as u64) * 1_000_000_000) / self.elapsed_us
    }
}

} // verus!
