use crate::world::{GameState, World, SCORE_EASING_STEP, STRIKE_LIMIT};
use vstd::prelude::*;

verus! {

/// The displayed score one tick later: it moves up by a fixed step, or
/// lands on the score when less than a step remains.
pub open spec fn eased(g: GameState) -> u64 {
    if g.score - g.interpolated_score >= SCORE_EASING_STEP {
        (g.interpolated_score + SCORE_EASING_STEP) as u64
    } else {
        g.score
    }
}

impl World {
    /// Ends the round once the strikes reach the limit. Returns whether the
    /// round ended on this call: true exactly once per round.
    pub fn check_game_state(&mut self) -> (ended: bool)
        ensures
            ended == (!old(self).game.over && old(self).game.strikes >= STRIKE_LIMIT),
            final(self).game.over == (old(self).game.over || old(self).game.strikes >= STRIKE_LIMIT),
            final(self).game.score == old(self).game.score,
            final(self).game.interpolated_score == old(self).game.interpolated_score,
            final(self).game.strikes == old(self).game.strikes,
            final(self).balls == old(self).balls,
            final(self).barriers == old(self).barriers,
            final(self).contacts == old(self).contacts,
            final(self).next_ball == old(self).next_ball,
            final(self).rng == old(self).rng,
            final(self).next_handle == old(self).next_handle,
    {
        if self.game.strikes >= STRIKE_LIMIT && !self.game.over {
            self.game.over = true;
            true
        } else {
            false
        }
    }

    /// Moves the displayed score one step towards the score.
    pub fn update_score(&mut self)
        requires
            old(self).wf(),
        ensures
            final(self).wf(),
            final(self).game == (GameState { interpolated_score: eased(old(self).game), ..old(self).game }),
            final(self).balls == old(self).balls,
            final(self).barriers == old(self).barriers,
            final(self).contacts == old(self).contacts,
            final(self).next_ball == old(self).next_ball,
            final(self).rng == old(self).rng,
            final(self).next_handle == old(self).next_handle,
    {
        if self.game.score - self.game.interpolated_score >= SCORE_EASING_STEP {
            self.game.interpolated_score = self.game.interpolated_score + SCORE_EASING_STEP;
        } else {
            self.game.interpolated_score = self.game.score;
        }
    }

    /// Starts a new round: no balls, no contacts, all counters at zero.
    pub fn restart(&mut self)
        requires
            old(self).wf(),
        ensures
            final(self).wf(),
            final(self).balls@ == Seq::<crate::ball::Ball>::empty(),
            final(self).contacts@ == Seq::<crate::world::Contact>::empty(),
            final(self).game == (GameState { score: 0, interpolated_score: 0, strikes: 0, over: false }),
            final(self).barriers == old(self).barriers,
            final(self).next_ball == old(self).next_ball,
            final(self).rng == old(self).rng,
            final(self).next_handle == old(self).next_handle,
    {
        self.balls = Vec::new();
        self.contacts = Vec::new();
        self.game = GameState { score: 0, interpolated_score: 0, strikes: 0, over: false };
    }

    /// Strikes left before the round ends (negative past the limit).
    pub fn strikes_left(&self) -> (r: i128)
        ensures
            r == STRIKE_LIMIT - self.game.strikes,
    {
        (STRIKE_LIMIT as i128) - (self.game.strikes as i128)
    }
}

} // verus!
