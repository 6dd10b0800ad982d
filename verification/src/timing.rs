use vstd::prelude::*;

use crate::global::{GRAVITY_DELAY, LOCK_DELAY, X_MOVE_DELAY, Y_MOVE_DELAY};

verus! {

/// What the player asks for in one tick. The `held` signals are true while the
/// action is active; the `pressed` signals are true only in the tick in which
/// the action began.
#[derive(Clone, Copy, Debug, PartialEq, Eq)]
pub struct Input {
    pub left_held: bool,
    pub right_held: bool,
    pub soft_drop_held: bool,
    pub hard_drop_pressed: bool,
    pub hold_pressed: bool,
    pub rotate_cw_pressed: bool,
    pub rotate_ccw_pressed: bool,
    pub pause_pressed: bool,
}

impl Input {
    /// The input of a tick in which the player asks for nothing.
    pub fn none() -> (input: Input)
        ensures
            input == (Input {
                left_held: false,
                right_held: false,
                soft_drop_held: false,
                hard_drop_pressed: false,
                hold_pressed: false,
                rotate_cw_pressed: false,
                rotate_ccw_pressed: false,
                pause_pressed: false,
            }),
    {
        Input {
            left_held: false,
            right_held: false,
            soft_drop_held: false,
            hard_drop_pressed: false,
            hold_pressed: false,
            rotate_cw_pressed: false,
            rotate_ccw_pressed: false,
            pause_pressed: false,
        }
    }
}

/// The timing controller: the configured delays and the time, in
/// milliseconds, at which each repeated action last took place. `lock_start`
/// is the time at which the lock timer was started, while it runs.
#[derive(Clone, Copy, Debug, PartialEq, Eq)]
pub struct Timing {
    pub x_move_delay: u64,
    pub y_move_delay: u64,
    pub gravity_delay: u64,
    pub lock_delay: u64,
    pub last_x_move: u64,
    pub last_y_move: u64,
    pub last_gravity: u64,
    pub lock_start: Option<u64>,
}

/// The gravity delay of a level, in milliseconds: it falls towards 200 as the
/// level grows and never reaches it.
pub open spec fn gravity_for(level: nat) -> nat {
    1000nat / (level + 1) + 200
}

impl Timing {
    /// The timing at the start of a run.
    pub open spec fn initial() -> Timing {
        Timing {
            x_move_delay: X_MOVE_DELAY,
            y_move_delay: Y_MOVE_DELAY,
            gravity_delay: GRAVITY_DELAY,
            lock_delay: LOCK_DELAY,
            last_x_move: 0,
            last_y_move: 0,
            last_gravity: 0,
            lock_start: None,
        }
    }

    /// No recorded time lies after `now`: time has not gone backwards.
    pub open spec fn not_after(&self, now: u64) -> bool {
        &&& self.last_x_move <= now
        &&& self.last_y_move <= now
        &&& self.last_gravity <= now
        &&& self.lock_start matches Some(start) ==> start <= now
    }

    /// Whether `after` records no time later than `self` does: whenever no
    /// time recorded in `self` lies after a moment, none recorded in `after`
    /// does.
    pub open spec fn keeps_time(&self, after: Timing) -> bool {
        forall|now: u64| #[trigger] self.not_after(now) ==> after.not_after(now)
    }

    /// Whether a horizontal move is honoured at `now`: a direction is held and
    /// the repeat delay has passed.
    pub open spec fn shift_due(&self, now: u64, input: Input) -> bool {
        (input.left_held || input.right_held) && now - self.last_x_move >= self.x_move_delay
    }

    /// The horizontal intent at `now`: -1 for left, 1 for right, 0 for none.
    /// Right wins where both directions are held.
    pub open spec fn shift(&self, now: u64, input: Input) -> int {
        if !self.shift_due(now, input) {
            0
        } else if input.right_held {
            1
        } else {
            -1
        }
    }

    /// Whether a soft-drop step is honoured at `now`.
    pub open spec fn soft_drop_due(&self, now: u64, input: Input) -> bool {
        input.soft_drop_held && now - self.last_y_move >= self.y_move_delay
    }

    /// Whether gravity pulls at `now`: its delay has passed and no soft-drop
    /// step takes its place in this tick.
    pub open spec fn gravity_due(&self, now: u64, input: Input) -> bool {
        !self.soft_drop_due(now, input) && now - self.last_gravity >= self.gravity_delay
    }

    /// Whether the piece is asked to move down by one row at `now`.
    pub open spec fn falls(&self, now: u64, input: Input) -> bool {
        self.soft_drop_due(now, input) || self.gravity_due(now, input)
    }

    /// The timing after the intents of a tick were taken: each honoured
    /// action restarts its own delay.
    pub open spec fn sampled(&self, now: u64, input: Input) -> Timing {
        Timing {
            last_x_move: if self.shift_due(now, input) {
                now
            } else {
                self.last_x_move
            },
            last_y_move: if self.soft_drop_due(now, input) {
                now
            } else {
                self.last_y_move
            },
            last_gravity: if self.gravity_due(now, input) {
                now
            } else {
                self.last_gravity
            },
            ..*self
        }
    }

    /// The timing with the lock timer stopped.
    pub open spec fn unlocked(&self) -> Timing {
        Timing { lock_start: None, ..*self }
    }

    /// The timing with the lock timer started, or started again, at `now`.
    pub open spec fn lock_started(&self, now: u64) -> Timing {
        Timing { lock_start: Some(now), ..*self }
    }

    /// Whether the lock timer runs and the lock delay has passed at `now`.
    pub open spec fn lock_due(&self, now: u64) -> bool {
        self.lock_start matches Some(start) && now - start >= self.lock_delay
    }

    /// The timing with the gravity delay of `level`.
    pub open spec fn leveled(&self, level: nat) -> Timing {
        Timing { gravity_delay: gravity_for(level) as u64, ..*self }
    }

    /// The timing at the start of a run.
    pub fn new() -> (timing: Timing)
        ensures
            timing == Timing::initial(),
    {
        Timing {
            x_move_delay: X_MOVE_DELAY,
            y_move_delay: Y_MOVE_DELAY,
            gravity_delay: GRAVITY_DELAY,
            lock_delay: LOCK_DELAY,
            last_x_move: 0,
            last_y_move: 0,
            last_gravity: 0,
            lock_start: None,
        }
    }

    /// Takes the intents of a tick: decides from the held keys and the delays
    /// whether the piece is asked to move sideways and whether it is asked to
    /// move down, and restarts the delay of each action that is honoured.
    /// Returns the horizontal intent and whether the piece is to fall.
    pub fn sample(&mut self, now: u64, input: &Input) -> (intent: (i32, bool))
        requires
            old(self).not_after(now),
        ensures
            intent.0 == old(self).shift(now, *input),
            intent.1 == old(self).falls(now, *input),
            *final(self) == old(self).sampled(now, *input),
            final(self).not_after(now),
    {
        let mut dx: i32 = 0;
        if now - self.last_x_move >= self.x_move_delay {
            if input.left_held {
                dx = -1;
                self.last_x_move = now;
            }
            if input.right_held {
                dx = 1;
                self.last_x_move = now;
            }
        }
        let mut fall = false;
        if input.soft_drop_held && now - self.last_y_move >= self.y_move_delay {
            fall = true;
            self.last_y_move = now;
        } else if now - self.last_gravity >= self.gravity_delay {
            fall = true;
            self.last_gravity = now;
        }
        (dx, fall)
    }

    /// Sets the gravity delay to that of `level`.
    pub fn set_level(&mut self, level: u32)
        ensures
            *final(self) == old(self).leveled(level as nat),
            final(self).gravity_delay == gravity_for(level as nat),
    {
        self.gravity_delay = 1000 / (level as u64 + 1) + 200;
    }
}

} // verus!
