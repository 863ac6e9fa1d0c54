//! The fixed-timestep scheduler: decides, from the clock alone, when a
//! simulation tick is due, bounds catch-up work per outer pass, and how long
//! to sleep after rendering. Times are microseconds on a monotonic clock.

use vstd::prelude::*;

verus! {

/// Simulation ticks per second.
pub const TICKS_PER_SECOND: u64 = 30;

/// Most catch-up ticks run in one outer pass before rendering.
pub const MAX_FRAMESKIP: u64 = 5;

/// Render-frame budget in microseconds (a 1/60 s frame).
pub const FRAME_BUDGET_MICROS: u64 = 16_667;

/// Microseconds per second.
pub const MICROS_PER_SECOND: u64 = 1_000_000;

/// How long to sleep after a frame that took `elapsed`: what is left of
/// `budget`, or nothing when the frame ran over.
pub fn frame_sleep(budget: u64, elapsed: u64) -> (r: u64)
    ensures
        r == if elapsed < budget {
            budget - elapsed
        } else {
            0
        },
{
    if elapsed < budget {
        budget - elapsed
    } else {
        0
    }
}

/// Loop bookkeeping: ticks and renders run so far, when the game started,
/// whether it is still running, and the time of the last frame.
pub struct Game {
    pub ticks: u64,
    pub render_ticks: u64,
    pub start_system_time: u64,
    pub running: bool,
    pub time: u64,
}

impl Game {
    /// A running game started at `now`, nothing run yet.
    pub fn new(now: u64) -> (r: Self)
        ensures
            r.ticks == 0,
            r.render_ticks == 0,
            r.start_system_time == now,
            r.running,
            r.time == now,
    {
        Game { ticks: 0, render_ticks: 0, start_system_time: now, running: true, time: now }
    }

    /// Counts one simulation tick.
    pub fn count_tick(&mut self)
        requires
            old(self).ticks < u64::MAX,
        ensures
            *final(self) == (Game { ticks: (old(self).ticks + 1) as u64, ..*old(self) }),
    {
        self.ticks = self.ticks + 1;
    }

    /// Counts one render pass at time `now`.
    pub fn count_render(&mut self, now: u64)
        requires
            old(self).render_ticks < u64::MAX,
        ensures
            *final(self) == (Game {
                render_ticks: (old(self).render_ticks + 1) as u64,
                time: now,
                ..*old(self)
            }),
    {
        self.render_ticks = self.render_ticks + 1;
        self.time = now;
    }
}

/// What the loop does next in an outer pass.
#[derive(Clone, Copy, Debug, PartialEq, Eq, Structural)]
pub enum Step {
    /// Run one simulation tick.
    Tick,
    /// Stop catching up and render.
    Render,
}

/// How many ticks a pass at time `now` runs when the next tick is due at
/// `next` and at most `cap` may run: ticks are due while `now` is past the
/// tick's time, each one pushing the next tick back by `interval`.
pub open spec fn ticks_due(now: int, next: int, interval: int, cap: int) -> int
    decreases cap,
{
    if cap > 0 && now > next {
        1 + ticks_due(now, next + interval, interval, cap - 1)
    } else {
        0
    }
}

/// Fixed-timestep state: when the next tick is due, the tick length and the
/// frame-skip ceiling.
pub struct Scheduler {
    pub next_tick: u64,
    pub tick_interval: u64,
    pub max_frameskip: u64,
}

impl Scheduler {
    /// A scheduler whose first tick is due at `start`, running
    /// `ticks_per_second` ticks per second and at most `max_frameskip`
    /// catch-up ticks per pass.
    pub fn new(start: u64, ticks_per_second: u64, max_frameskip: u64) -> (r: Self)
        requires
            0 < ticks_per_second <= MICROS_PER_SECOND,
        ensures
            r.next_tick == start,
            r.tick_interval == MICROS_PER_SECOND / ticks_per_second,
            r.tick_interval > 0,
            r.max_frameskip == max_frameskip,
    {
        assert(MICROS_PER_SECOND / ticks_per_second >= 1) by (nonlinear_arith)
            requires
                0 < ticks_per_second <= 1_000_000,
                MICROS_PER_SECOND == 1_000_000,
        ;
        Scheduler {
            next_tick: start,
            tick_interval: MICROS_PER_SECOND / ticks_per_second,
            max_frameskip,
        }
    }

    /// One decision of a pass that has run `loops` ticks so far: a tick when
    /// `now` is past the next tick's time and the ceiling is not reached,
    /// which pushes the next tick back by one interval; else render.
    pub fn step(&mut self, now: u64, loops: u64) -> (r: Step)
        requires
            (now > old(self).next_tick && loops < old(self).max_frameskip) ==> old(self).next_tick
                + old(self).tick_interval <= u64::MAX,
        ensures
            final(self).tick_interval == old(self).tick_interval,
            final(self).max_frameskip == old(self).max_frameskip,
            (now > old(self).next_tick && loops < old(self).max_frameskip) ==> {
                &&& r == Step::Tick
                &&& final(self).next_tick == old(self).next_tick + old(self).tick_interval
            },
            !(now > old(self).next_tick && loops < old(self).max_frameskip) ==> {
                &&& r == Step::Render
                &&& final(self).next_tick == old(self).next_tick
            },
    {
        if now > self.next_tick && loops < self.max_frameskip {
            self.next_tick = self.next_tick + self.tick_interval;
            Step::Tick
        } else {
            Step::Render
        }
    }

    /// The ticks of one outer pass with the clock read once at `now`: as
    /// many as are due, at most the frame-skip ceiling. The next tick moves
    /// back by one interval per tick run; a backlog beyond the ceiling stays
    /// for the next pass.
    pub fn plan_pass(&mut self, now: u64) -> (r: u64)
        requires
            old(self).tick_interval > 0,
            old(self).next_tick + old(self).max_frameskip * old(self).tick_interval <= u64::MAX,
        ensures
            r as int == ticks_due(
                now as int,
                old(self).next_tick as int,
                old(self).tick_interval as int,
                old(self).max_frameskip as int,
            ),
            r <= old(self).max_frameskip,
            final(self).next_tick == old(self).next_tick + r * old(self).tick_interval,
            final(self).tick_interval == old(self).tick_interval,
            final(self).max_frameskip == old(self).max_frameskip,
    {
        let ghost start = self.next_tick;
        let mut loops: u64 = 0;
        while loops < self.max_frameskip && now > self.next_tick
            invariant
                self.tick_interval == old(self).tick_interval,
                self.max_frameskip == old(self).max_frameskip,
                self.tick_interval > 0,
                loops <= self.max_frameskip,
                self.next_tick == start + loops * self.tick_interval,
                start + self.max_frameskip * self.tick_interval <= u64::MAX,
                ticks_due(now as int, start as int, self.tick_interval as int, self.max_frameskip as int)
                    == loops + ticks_due(
                    now as int,
                    self.next_tick as int,
                    self.tick_interval as int,
                    self.max_frameskip - loops,
                ),
            decreases self.max_frameskip - loops,
        {
            proof {
                let l = loops as int;
                let iv = self.tick_interval as int;
                let m = self.max_frameskip as int;
                assert(start + (l + 1) * iv <= start + m * iv) by (nonlinear_arith)
                    requires
                        l + 1 <= m,
                        iv > 0,
                ;
                assert(start + (l + 1) * iv == start + l * iv + iv) by (nonlinear_arith);
            }
            self.next_tick = self.next_tick + self.tick_interval;
            loops = loops + 1;
        }
        loops
    }
}

} // verus!
