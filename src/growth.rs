use crate::ball::{Ball, GROW_DURATION_MICROS};
use crate::world::{has_ball, unique_handles, RadiusUpdate, World};
use vstd::prelude::*;

verus! {

/// The balls after every growth advanced by `dt` microseconds.
pub open spec fn advance_all(balls: Seq<Ball>, dt: nat) -> Seq<Ball> {
    Seq::new(balls.len(), |i: int| balls[i].advanced(dt))
}

/// One radius update per growing ball, in order, for a step of `dt`.
pub open spec fn growth_updates(balls: Seq<Ball>, dt: nat) -> Seq<RadiusUpdate>
    decreases balls.len(),
{
    if balls.len() == 0 {
        Seq::empty()
    } else {
        let prev = growth_updates(balls.drop_last(), dt);
        let b = balls.last();
        if b.growth is Some {
            prev.push(RadiusUpdate { handle: b.handle, radius: b.growth_radius(dt) as u64 })
        } else {
            prev
        }
    }
}

/// While a ball grows its progress never goes back; it settles at its
/// target exactly on the step where its progress reaches one, and a
/// settled ball stays as it is.
pub proof fn lemma_growth_monotone(b: Ball, dt: nat)
    requires
        b.wf(),
    ensures
        b.growth is None ==> b.advanced(dt) == b,
        b.growth is Some ==> match b.advanced(dt).growth {
            Some(g) => {
                &&& g.target_level == b.growth->0.target_level
                &&& g.elapsed >= b.growth->0.elapsed
                &&& b.growth->0.elapsed + dt < GROW_DURATION_MICROS
            },
            None => {
                &&& b.growth->0.elapsed + dt >= GROW_DURATION_MICROS
                &&& b.advanced(dt).ball_type == crate::ball::BallType::Simple(b.growth->0.target_level)
            },
        },
{
}

impl World {
    /// Advances every growth by `dt` microseconds: a growth whose progress
    /// reaches one settles at its target level, the others keep growing.
    /// Returns the new collider radius of each ball that was growing.
    pub fn advance_growth(&mut self, dt: u32) -> (updates: Vec<RadiusUpdate>)
        requires
            old(self).wf(),
        ensures
            final(self).wf(),
            final(self).balls@ == advance_all(old(self).balls@, dt as nat),
            updates@ == growth_updates(old(self).balls@, dt as nat),
            final(self).barriers == old(self).barriers,
            final(self).contacts == old(self).contacts,
            final(self).game == old(self).game,
            final(self).next_ball == old(self).next_ball,
            final(self).rng == old(self).rng,
            final(self).next_handle == old(self).next_handle,
    {
        let ghost b0 = self.balls@;
        let mut updates: Vec<RadiusUpdate> = Vec::new();
        let mut i: usize = 0;
        while i < self.balls.len()
            invariant
                0 <= i <= self.balls@.len(),
                self.balls@.len() == b0.len(),
                forall|k: int| 0 <= k < i ==> #[trigger] self.balls@[k] == b0[k].advanced(dt as nat),
                forall|k: int| i <= k < b0.len() ==> #[trigger] self.balls@[k] == b0[k],
                forall|k: int| 0 <= k < b0.len() ==> (#[trigger] b0[k]).wf(),
                updates@ == growth_updates(b0.subrange(0, i as int), dt as nat),
                self.barriers == old(self).barriers,
                self.contacts == old(self).contacts,
                self.game == old(self).game,
                self.next_ball == old(self).next_ball,
                self.rng == old(self).rng,
                self.next_handle == old(self).next_handle,
            decreases b0.len() - i,
        {
            let b = self.balls[i];
            assert(b == b0[i as int]);
            if b.growth.is_some() {
                let r = b.radius_after(dt);
                updates.push(RadiusUpdate { handle: b.handle, radius: r });
            }
            let nb = b.advance(dt);
            self.balls.set(i, nb);
            proof {
                let s = b0.subrange(0, i as int + 1);
                assert(s.drop_last() =~= b0.subrange(0, i as int));
                assert(s.last() == b);
            }
            i = i + 1;
        }
        proof {
            let nb = self.balls@;
            assert(b0.subrange(0, b0.len() as int) =~= b0);
            assert(nb =~= advance_all(b0, dt as nat));
            assert forall|k: int| 0 <= k < nb.len() implies nb[k].handle == b0[k].handle by {}
            assert forall|j: int, k: int| 0 <= j < nb.len() && 0 <= k < nb.len() && j != k
                implies nb[j].handle != nb[k].handle by {
                assert(nb[j].handle == b0[j].handle);
                assert(nb[k].handle == b0[k].handle);
            }
            assert(unique_handles(nb));
            assert forall|h: u64| has_ball(nb, h) implies has_ball(b0, h) by {
                let k = choose|k: int| 0 <= k < nb.len() && nb[k].handle == h;
                assert(b0[k].handle == h);
            }
            assert forall|k: int| 0 <= k < nb.len() implies (#[trigger] nb[k]).wf() && nb[k].handle < self.next_handle by {
                assert(b0[k].wf() && b0[k].handle < self.next_handle);
            }
            assert forall|k: int| 0 <= k < self.barriers@.len()
                implies !has_ball(nb, #[trigger] self.barriers@[k]) by {
                assert(!has_ball(b0, self.barriers@[k]));
            }
        }
        updates
    }
}

} // verus!
