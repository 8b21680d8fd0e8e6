use crate::ball::{Ball, BallType};
use crate::rng::roll_in_range;
use crate::world::{has_ball, unique_handles, Contact, GameState, World};
use bevy_turborand::prelude::RngComponent;
use vstd::prelude::*;

verus! {

/// Ranks are rolled from one to this value.
pub const DROPPABLE_RANGE: i32 = 4;

/// Leftmost drop position: half the bucket width plus half the padding,
/// left of the centre line.
pub const DROP_MIN_X: i64 = -200_000;

/// Rightmost drop position.
pub const DROP_MAX_X: i64 = 200_000;

/// Height at which dropped balls appear.
pub const DROP_Y: i64 = 190_000;

/// Balls at or above this height can block a drop.
pub const DROP_SPAM_Y_BLOCK_OFFSET: i64 = 100_000;

/// A drop is blocked when it lies less than this far right of a high ball.
pub const DROP_SPAM_X_BLOCK_DISTANCE: i64 = 35_000;

/// What a drop request did.
#[derive(Clone, Copy, Debug, PartialEq, Eq, Structural)]
pub enum DropOutcome {
    /// The round was over, so the request started a new one.
    Restarted,
    /// A high ball blocked the drop; nothing changed.
    Blocked,
    /// A ball of `ball_type` appeared at `x` with the given handle.
    Dropped { handle: u64, ball_type: BallType, x: i64 },
}

pub open spec fn clamp_spec(x: i64) -> i64 {
    if x < DROP_MIN_X {
        DROP_MIN_X
    } else if x > DROP_MAX_X {
        DROP_MAX_X
    } else {
        x
    }
}

/// Whether ball `b` blocks a drop at `x`. The difference is signed on
/// purpose: a high ball anywhere right of `x` blocks it.
pub open spec fn blocks(b: Ball, x: i64) -> bool {
    b.y >= DROP_SPAM_Y_BLOCK_OFFSET && x - b.x < DROP_SPAM_X_BLOCK_DISTANCE
}

pub open spec fn drop_blocked(balls: Seq<Ball>, x: i64) -> bool {
    exists|i: int| 0 <= i < balls.len() && blocks(#[trigger] balls[i], x)
}

/// The rank the dropper queues next: a simple level from one to the range.
pub open spec fn rolled_rank(t: BallType) -> bool {
    match t {
        BallType::Simple(level) => 1 <= level <= DROPPABLE_RANGE,
        BallType::Special => false,
    }
}

/// Clamps a requested drop position into the container's span.
pub fn clamp_drop_x(x: i64) -> (r: i64)
    ensures
        r == clamp_spec(x),
{
    if x < DROP_MIN_X {
        DROP_MIN_X
    } else if x > DROP_MAX_X {
        DROP_MAX_X
    } else {
        x
    }
}

impl World {
    /// A new world with no balls, barriers or contacts, whose dropper has
    /// rolled its first rank from `rng`.
    pub fn new(rng: RngComponent) -> (w: World)
        ensures
            w.wf(),
            w.balls@.len() == 0,
            w.barriers@.len() == 0,
            w.contacts@.len() == 0,
            w.game == (GameState { score: 0, interpolated_score: 0, strikes: 0, over: false }),
            w.next_handle == 0,
            rolled_rank(w.next_ball),
    {
        let mut rng = rng;
        let r = roll_in_range(&mut rng, 1, DROPPABLE_RANGE);
        World {
            balls: Vec::new(),
            barriers: Vec::new(),
            contacts: Vec::new(),
            game: GameState { score: 0, interpolated_score: 0, strikes: 0, over: false },
            next_ball: BallType::from_i32(r),
            rng,
            next_handle: 0,
        }
    }

    /// Registers a barrier and returns its handle.
    pub fn add_barrier(&mut self) -> (h: u64)
        requires
            old(self).wf(),
            old(self).next_handle < u64::MAX,
        ensures
            final(self).wf(),
            h == old(self).next_handle,
            final(self).next_handle == h + 1,
            final(self).barriers@ == old(self).barriers@.push(h),
            final(self).balls == old(self).balls,
            final(self).contacts == old(self).contacts,
            final(self).game == old(self).game,
            final(self).next_ball == old(self).next_ball,
            final(self).rng == old(self).rng,
    {
        let h = self.next_handle;
        proof {
            assert(!has_ball(self.balls@, h));
        }
        self.barriers.push(h);
        self.next_handle = h + 1;
        h
    }

    /// Whether a drop at `x` is blocked by a high ball.
    pub fn is_drop_blocked(&self, x: i64) -> (r: bool)
        ensures
            r == drop_blocked(self.balls@, x),
    {
        let mut i: usize = 0;
        while i < self.balls.len()
            invariant
                0 <= i <= self.balls@.len(),
                forall|k: int| 0 <= k < i ==> !blocks(#[trigger] self.balls@[k], x),
            decreases self.balls@.len() - i,
        {
            let b = self.balls[i];
            if b.y >= DROP_SPAM_Y_BLOCK_OFFSET && (x as i128) - (b.x as i128) < DROP_SPAM_X_BLOCK_DISTANCE as i128 {
                assert(blocks(self.balls@[i as int], x));
                return true;
            }
            i = i + 1;
        }
        false
    }

    /// Places a settled ball of the queued rank at `(x, DROP_Y)` and queues
    /// the rank given by `rolled`. Returns the new ball's handle.
    pub fn place_ball(&mut self, x: i64, rolled: i32) -> (h: u64)
        requires
            old(self).wf(),
            old(self).next_handle < u64::MAX,
            rolled >= 0,
        ensures
            final(self).wf(),
            h == old(self).next_handle,
            final(self).next_handle == h + 1,
            final(self).balls@ == old(self).balls@.push(
                Ball { handle: h, ball_type: old(self).next_ball, x, y: DROP_Y, growth: None },
            ),
            final(self).next_ball == BallType::from_i32_spec(rolled),
            final(self).barriers == old(self).barriers,
            final(self).contacts == old(self).contacts,
            final(self).game == old(self).game,
            final(self).rng == old(self).rng,
    {
        let h = self.next_handle;
        let ghost b0 = self.balls@;
        let ball = Ball { handle: h, ball_type: self.next_ball, x, y: DROP_Y, growth: None };
        self.balls.push(ball);
        self.next_ball = BallType::from_i32(rolled);
        self.next_handle = h + 1;
        proof {
            let nb = self.balls@;
            assert forall|j: int, k: int| 0 <= j < nb.len() && 0 <= k < nb.len() && j != k
                implies nb[j].handle != nb[k].handle by {
                if j < b0.len() && k < b0.len() {
                    assert(nb[j] == b0[j] && nb[k] == b0[k]);
                }
            }
            assert(unique_handles(nb));
            assert forall|k: int| 0 <= k < self.barriers@.len()
                implies !has_ball(nb, #[trigger] self.barriers@[k]) by {
                let g = self.barriers@[k];
                assert(!has_ball(b0, g));
                if has_ball(nb, g) {
                    let j = choose|j: int| 0 <= j < nb.len() && nb[j].handle == g;
                    if j < b0.len() {
                        assert(nb[j] == b0[j]);
                    }
                }
            }
        }
        h
    }

    /// A drop request at `x`. When the round is over it restarts the round.
    /// Otherwise `x` is clamped into the container; if a high ball blocks
    /// the clamped position nothing changes, else a ball of the queued rank
    /// is dropped there and the next rank is rolled.
    pub fn click(&mut self, x: i64) -> (r: DropOutcome)
        requires
            old(self).wf(),
            old(self).next_handle < u64::MAX,
        ensures
            final(self).wf(),
            final(self).barriers == old(self).barriers,
            old(self).game.over ==> {
                &&& r == DropOutcome::Restarted
                &&& final(self).balls@.len() == 0
                &&& final(self).contacts@ == Seq::<Contact>::empty()
                &&& final(self).game == (GameState { score: 0, interpolated_score: 0, strikes: 0, over: false })
                &&& final(self).next_ball == old(self).next_ball
                &&& final(self).next_handle == old(self).next_handle
            },
            !old(self).game.over && drop_blocked(old(self).balls@, clamp_spec(x)) ==> {
                &&& r == DropOutcome::Blocked
                &&& final(self).balls == old(self).balls
                &&& final(self).contacts == old(self).contacts
                &&& final(self).game == old(self).game
                &&& final(self).next_ball == old(self).next_ball
                &&& final(self).next_handle == old(self).next_handle
            },
            !old(self).game.over && !drop_blocked(old(self).balls@, clamp_spec(x)) ==> {
                &&& r == DropOutcome::Dropped {
                    handle: old(self).next_handle,
                    ball_type: old(self).next_ball,
                    x: clamp_spec(x),
                }
                &&& final(self).balls@ == old(self).balls@.push(
                    Ball {
                        handle: old(self).next_handle,
                        ball_type: old(self).next_ball,
                        x: clamp_spec(x),
                        y: DROP_Y,
                        growth: None,
                    },
                )
                &&& final(self).contacts == old(self).contacts
                &&& final(self).game == old(self).game
                &&& final(self).next_handle == old(self).next_handle + 1
                &&& rolled_rank(final(self).next_ball)
            },
    {
        if self.game.over {
            self.restart();
            DropOutcome::Restarted
        } else {
            let pos = clamp_drop_x(x);
            if self.is_drop_blocked(pos) {
                DropOutcome::Blocked
            } else {
                let ball_type = self.next_ball;
                let rolled = roll_in_range(&mut self.rng, 1, DROPPABLE_RANGE);
                let handle = self.place_ball(pos, rolled);
                DropOutcome::Dropped { handle, ball_type, x: pos }
            }
        }
    }

    /// Records the position the physics engine reports for ball `h`.
    /// Returns false, changing nothing, when `h` is not a live ball.
    pub fn move_ball(&mut self, h: u64, x: i64, y: i64) -> (found: bool)
        requires
            old(self).wf(),
        ensures
            final(self).wf(),
            found == has_ball(old(self).balls@, h),
            found ==> final(self).balls@ == old(self).balls@.update(
                crate::world::ball_index(old(self).balls@, h),
                Ball { x, y, ..crate::world::ball_of(old(self).balls@, h) },
            ),
            !found ==> final(self).balls == old(self).balls,
            final(self).barriers == old(self).barriers,
            final(self).contacts == old(self).contacts,
            final(self).game == old(self).game,
            final(self).next_ball == old(self).next_ball,
            final(self).rng == old(self).rng,
            final(self).next_handle == old(self).next_handle,
    {
        match crate::world::find_ball(&self.balls, h) {
            None => false,
            Some(i) => {
                let ghost b0 = self.balls@;
                let moved = Ball { x, y, ..self.balls[i] };
                self.balls.set(i, moved);
                proof {
                    let nb = self.balls@;
                    assert forall|k: int| 0 <= k < nb.len() implies nb[k].handle == b0[k].handle by {}
                    assert forall|j: int, k: int| 0 <= j < nb.len() && 0 <= k < nb.len() && j != k
                        implies nb[j].handle != nb[k].handle by {
                        assert(nb[j].handle == b0[j].handle);
                        assert(nb[k].handle == b0[k].handle);
                    }
                    assert forall|k: int| 0 <= k < nb.len() implies (#[trigger] nb[k]).wf() && nb[k].handle < self.next_handle by {
                        assert(b0[k].wf() && b0[k].handle < self.next_handle);
                    }
                    assert forall|k: int| 0 <= k < self.barriers@.len()
                        implies !has_ball(nb, #[trigger] self.barriers@[k]) by {
                        let g = self.barriers@[k];
                        assert(!has_ball(b0, g));
                        if has_ball(nb, g) {
                            let j = choose|j: int| 0 <= j < nb.len() && nb[j].handle == g;
                            assert(b0[j].handle == g);
                        }
                    }
                }
                true
            },
        }
    }
}

} // verus!
