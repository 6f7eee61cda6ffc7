//! One timing session: the timer, the history, the navigation state and the
//! current scramble, driven by abstract input actions.
use vstd::prelude::*;
use crate::router::{
    clamped_cursor, enter_step, escape_step, help_step, move_step, Block, Dir, Router,
};
use crate::scramble::{generated, valid_scramble, Move, Scrambler, SCRAMBLE_LEN};
use crate::stats::History;
use crate::timer::{primary_step, tick_step, Timer};

verus! {

/// What a key means once the keyboard layout has been applied.
#[derive(Clone, Copy, Debug, PartialEq, Eq, Structural)]
pub enum Action {
    Primary,
    Move(Dir),
    Enter,
    Escape,
    Delete,
    Help,
    Tick,
}

/// Everything one sitting at the timer owns, with a single writer.
pub struct Session {
    pub timer: Timer,
    pub history: History,
    pub router: Router,
    pub scrambler: Scrambler,
    pub scramble: Vec<Move>,
}

impl Session {
    /// The history is consistent and the current scramble is a valid one of
    /// full length.
    pub open spec fn wf(&self) -> bool {
        &&& self.history.wf()
        &&& valid_scramble(self.scramble@)
        &&& self.scramble@.len() == SCRAMBLE_LEN
    }

    /// A fresh session over `history`, with its first scramble drawn from
    /// `seed`.
    pub fn new(history: History, seed: u64) -> (s: Session)
        requires
            history.wf(),
        ensures
            s.wf(),
            s.history == history,
            s.timer == Timer::new_spec(),
            s.router == Router::new_spec(),
            (s.scramble@, s.scrambler.state) == generated(seed, SCRAMBLE_LEN as nat),
    {
        let mut scrambler = Scrambler::new(seed);
        let scramble = scrambler.generate();
        Session { timer: Timer::new(), history, router: Router::new(), scrambler, scramble }
    }

    /// Applies one action at clock sample `now`. A press that finishes a
    /// solve records it and draws the next scramble; no other action touches
    /// the scramble or its generator. The delete key removes the highlighted
    /// row of the times table whenever that table is entered, on either
    /// screen.
    pub fn handle(&mut self, action: Action, now: u64)
        requires
            old(self).wf(),
        ensures
            final(self).wf(),
            match action {
                Action::Primary => {
                    let (t, r) = primary_step(old(self).timer, now);
                    &&& final(self).timer == t
                    &&& final(self).router == old(self).router
                    &&& match r {
                        Some(e) => {
                            &&& final(self).history.times() == old(self).history.times().push(e)
                            &&& (final(self).scramble@, final(self).scrambler.state) == generated(
                                old(self).scrambler.state,
                                SCRAMBLE_LEN as nat,
                            )
                        },
                        None => {
                            &&& final(self).history == old(self).history
                            &&& final(self).scramble@ == old(self).scramble@
                            &&& final(self).scrambler == old(self).scrambler
                        },
                    }
                },
                Action::Tick => {
                    &&& final(self).timer == tick_step(old(self).timer, now)
                    &&& final(self).history == old(self).history
                    &&& final(self).router == old(self).router
                    &&& final(self).scramble@ == old(self).scramble@
                    &&& final(self).scrambler == old(self).scrambler
                },
                Action::Delete => {
                    let n = old(self).history.times().len();
                    let c = old(self).router.times_cursor;
                    &&& final(self).timer == old(self).timer
                    &&& final(self).scramble@ == old(self).scramble@
                    &&& final(self).scrambler == old(self).scrambler
                    &&& if old(self).router.selected_block == Some(Block::Times) {
                        &&& final(self).router == (Router {
                            times_cursor: clamped_cursor(c, final(self).history.times().len() as usize),
                            ..old(self).router
                        })
                        &&& if c < n {
                            let idx = n - 1 - c;
                            &&& final(self).history.times() == old(self).history.times().remove(idx)
                            &&& forall|k: int|
                                0 <= k < idx ==> #[trigger] final(self).history.records_view()[k]
                                    == old(self).history.records_view()[k]
                        } else {
                            final(self).history.times() == old(self).history.times()
                        }
                    } else {
                        &&& final(self).router == old(self).router
                        &&& final(self).history == old(self).history
                    }
                },
                _ => {
                    &&& final(self).timer == old(self).timer
                    &&& final(self).history == old(self).history
                    &&& final(self).scramble@ == old(self).scramble@
                    &&& final(self).scrambler == old(self).scrambler
                    &&& final(self).router == match action {
                        Action::Move(d) => move_step(
                            old(self).router,
                            d,
                            old(self).history.times().len() as usize,
                        ),
                        Action::Enter => enter_step(old(self).router),
                        Action::Escape => escape_step(old(self).router),
                        _ => help_step(old(self).router),
                    }
                },
            },
    {
        match action {
            Action::Primary => {
                if let Some(e) = self.timer.on_primary_key_event(now) {
                    let _ = self.history.insert(e);
                    self.scramble = self.scrambler.generate();
                }
            },
            Action::Tick => self.timer.on_tick(now),
            Action::Move(d) => {
                let rows = self.history.len();
                self.router.move_dir(d, rows);
            },
            Action::Enter => self.router.enter(),
            Action::Escape => self.router.escape(),
            Action::Help => self.router.help(),
            Action::Delete => {
                if let Some(row) = self.router.delete_target() {
                    let _ = self.history.delete(row);
                    let rows = self.history.len();
                    self.router.clamp_times_cursor(rows);
                }
            },
        }
    }

    /// The poll interval to use now: short while a solve is being timed.
    pub fn tick_rate_ms(&self) -> (r: u64)
        ensures
            r == (if self.timer.state == crate::timer::TimerState::Running {
                crate::timer::FAST_TICK_MS
            } else {
                crate::timer::SLOW_TICK_MS
            }),
    {
        self.timer.tick_rate_ms()
    }
}

} // verus!
