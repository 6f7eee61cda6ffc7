//! The solve timer: a state machine driven by the action key and by clock
//! samples from a monotonic clock, in milliseconds.
use vstd::prelude::*;

verus! {

/// Poll interval asked for while a solve is being timed.
pub const FAST_TICK_MS: u64 = 100;

/// Poll interval asked for otherwise.
pub const SLOW_TICK_MS: u64 = 1000;

#[derive(Clone, Copy, Debug, PartialEq, Eq, Structural)]
pub enum TimerState {
    Idle,
    Running,
    Stopped,
}

/// The timer. `start` is the clock sample at which the running solve began,
/// `shown` the elapsed time on display and `last_result` the last finished
/// solve.
#[derive(Clone, Copy, Debug, PartialEq, Eq, Structural)]
pub struct Timer {
    pub state: TimerState,
    pub start: u64,
    pub shown: u64,
    pub last_result: Option<u64>,
}

/// Time from `start` to `now`; a sample earlier than the start counts as no
/// time at all.
pub open spec fn elapsed_between(start: u64, now: u64) -> u64 {
    if now >= start {
        (now - start) as u64
    } else {
        0
    }
}

/// The effect of the action key at clock sample `now`: the next timer and
/// the finished solve time, if the press ended a solve.
pub open spec fn primary_step(t: Timer, now: u64) -> (Timer, Option<u64>) {
    match t.state {
        TimerState::Idle => (Timer { state: TimerState::Running, start: now, shown: 0, ..t }, None),
        TimerState::Running => {
            let e = elapsed_between(t.start, now);
            (
                Timer { state: TimerState::Stopped, shown: e, last_result: Some(e), ..t },
                Some(e),
            )
        },
        TimerState::Stopped => (Timer { state: TimerState::Idle, ..t }, None),
    }
}

/// The effect of a clock sample: only the displayed time of a running solve
/// moves.
pub open spec fn tick_step(t: Timer, now: u64) -> Timer {
    match t.state {
        TimerState::Running => Timer { shown: elapsed_between(t.start, now), ..t },
        _ => t,
    }
}

impl Timer {
    pub open spec fn new_spec() -> Timer {
        Timer { state: TimerState::Idle, start: 0, shown: 0, last_result: None }
    }

    /// An idle timer with no result yet.
    pub fn new() -> (t: Timer)
        ensures
            t == Timer::new_spec(),
    {
        Timer { state: TimerState::Idle, start: 0, shown: 0, last_result: None }
    }

    /// Handles the action key at clock sample `now`; returns the solve time
    /// when the press stops a running solve.
    pub fn on_primary_key_event(&mut self, now: u64) -> (r: Option<u64>)
        ensures
            (*final(self), r) == primary_step(*old(self), now),
    {
        match self.state {
            TimerState::Idle => {
                self.state = TimerState::Running;
                self.start = now;
                self.shown = 0;
                None
            },
            TimerState::Running => {
                let e = if now >= self.start {
                    now - self.start
                } else {
                    0
                };
                self.state = TimerState::Stopped;
                self.shown = e;
                self.last_result = Some(e);
                Some(e)
            },
            TimerState::Stopped => {
                self.state = TimerState::Idle;
                None
            },
        }
    }

    /// Handles a clock sample.
    pub fn on_tick(&mut self, now: u64)
        ensures
            *final(self) == tick_step(*old(self), now),
    {
        if self.state == TimerState::Running {
            self.shown = if now >= self.start {
                now - self.start
            } else {
                0
            };
        }
    }

    /// The poll interval the caller should use in the current state.
    pub fn tick_rate_ms(&self) -> (r: u64)
        ensures
            r == (if self.state == TimerState::Running {
                FAST_TICK_MS
            } else {
                SLOW_TICK_MS
            }),
    {
        if self.state == TimerState::Running {
            FAST_TICK_MS
        } else {
            SLOW_TICK_MS
        }
    }
}

/// Starting at `t0`, stopping `d` milliseconds later and pressing once more
/// yields a solve of exactly `d` and leaves the timer idle with that solve as
/// its last result.
pub proof fn lemma_full_cycle(t: Timer, t0: u64, d: u64)
    requires
        t.state == TimerState::Idle,
        t0 + d <= u64::MAX,
    ensures
        ({
            let (a, r1) = primary_step(t, t0);
            let (b, r2) = primary_step(a, (t0 + d) as u64);
            let (c, r3) = primary_step(b, (t0 + d) as u64);
            &&& r1.is_none()
            &&& a.state == TimerState::Running
            &&& r2 == Some(d)
            &&& b.state == TimerState::Stopped
            &&& b.last_result == Some(d)
            &&& r3.is_none()
            &&& c.state == TimerState::Idle
            &&& c.last_result == Some(d)
        }),
{
}

} // verus!
