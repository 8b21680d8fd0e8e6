use crate::ball::{Ball, BallType, GROW_DURATION_MICROS};
use bevy_turborand::prelude::RngComponent;
use vstd::prelude::*;

verus! {

/// Strikes at which the round is over.
pub const STRIKE_LIMIT: u64 = 4;

/// Step by which the displayed score catches up with the score each tick.
pub const SCORE_EASING_STEP: u64 = 10;

/// Largest number of points a single merge can give.
pub const MAX_MERGE_POINTS: u64 = 22 * 0xffff_ffff;

/// Score, displayed score, strikes and whether the round is over.
#[derive(Clone, Copy, Debug, PartialEq, Eq, Structural)]
pub struct GameState {
    pub score: u64,
    pub interpolated_score: u64,
    pub strikes: u64,
    pub over: bool,
}

/// An unordered pair of touching entities, stored with the smaller handle first.
#[derive(Clone, Copy, Debug, PartialEq, Eq, Structural)]
pub struct Contact {
    pub a: u64,
    pub b: u64,
}

/// What a resolution pass did to one contact.
#[derive(Clone, Copy, Debug, PartialEq, Eq, Structural)]
pub enum Action {
    /// `removed` was despawned and `kept` now grows towards `target_level`.
    Merge { kept: u64, removed: u64, target_level: u32 },
    /// `despawned` touched a barrier and was despawned, costing a strike.
    Strike { despawned: u64 },
}

/// New collider radius of a ball whose growth advanced.
#[derive(Clone, Copy, Debug, PartialEq, Eq, Structural)]
pub struct RadiusUpdate {
    pub handle: u64,
    pub radius: u64,
}

/// The whole simulation state: live balls, barriers, active contacts, the
/// game counters and the dropper (its queued rank and random source).
pub struct World {
    pub balls: Vec<Ball>,
    pub barriers: Vec<u64>,
    pub contacts: Vec<Contact>,
    pub game: GameState,
    pub next_ball: BallType,
    pub rng: RngComponent,
    pub next_handle: u64,
}

/// No two balls share a handle.
pub open spec fn unique_handles(balls: Seq<Ball>) -> bool {
    forall|i: int, j: int|
        0 <= i < balls.len() && 0 <= j < balls.len() && i != j ==> balls[i].handle != balls[j].handle
}

pub open spec fn has_ball(balls: Seq<Ball>, h: u64) -> bool {
    exists|i: int| 0 <= i < balls.len() && balls[i].handle == h
}

/// Position of the ball with handle `h` (meaningful when `has_ball`).
pub open spec fn ball_index(balls: Seq<Ball>, h: u64) -> int {
    choose|i: int| 0 <= i < balls.len() && balls[i].handle == h
}

pub open spec fn ball_of(balls: Seq<Ball>, h: u64) -> Ball {
    balls[ball_index(balls, h)]
}

/// The ball with handle `h`, if it is live.
pub fn find_ball(balls: &Vec<Ball>, h: u64) -> (r: Option<usize>)
    requires
        unique_handles(balls@),
    ensures
        match r {
            Some(i) => {
                &&& has_ball(balls@, h)
                &&& i == ball_index(balls@, h)
                &&& 0 <= i < balls@.len()
                &&& balls@[i as int].handle == h
            },
            None => !has_ball(balls@, h),
        },
{
    let mut i: usize = 0;
    while i < balls.len()
        invariant
            0 <= i <= balls@.len(),
            unique_handles(balls@),
            forall|j: int| 0 <= j < i ==> balls@[j].handle != h,
        decreases balls@.len() - i,
    {
        if balls[i].handle == h {
            assert(has_ball(balls@, h));
            let ghost k = ball_index(balls@, h);
            assert(0 <= k < balls@.len() && balls@[k].handle == h);
            assert(k == i as int);
            return Some(i);
        }
        i = i + 1;
    }
    None
}

/// Whether `v` holds `h`.
pub fn holds_handle(v: &Vec<u64>, h: u64) -> (r: bool)
    ensures
        r == v@.contains(h),
{
    let mut i: usize = 0;
    while i < v.len()
        invariant
            0 <= i <= v@.len(),
            forall|j: int| 0 <= j < i ==> v@[j] != h,
        decreases v@.len() - i,
    {
        if v[i] == h {
            assert(v@[i as int] == h);
            return true;
        }
        i = i + 1;
    }
    false
}

/// A contact pair in the order it is stored: the smaller handle first.
pub open spec fn ordered_pair(a: u64, b: u64) -> Contact {
    if a <= b {
        Contact { a, b }
    } else {
        Contact { a: b, b: a }
    }
}


/// The state a resolution pass threads through the contacts: the live balls,
/// the counters, the balls grown so far in this pass and what was done.
pub struct Pass {
    pub balls: Seq<Ball>,
    pub score: int,
    pub strikes: int,
    pub visited: Seq<u64>,
    pub actions: Seq<Action>,
}

/// The pass after `removed` merged into `kept` at level `level`.
pub open spec fn merge_pass(p: Pass, kept: u64, removed: u64, level: u32) -> Pass {
    let rest = p.balls.remove(ball_index(p.balls, removed));
    let k = ball_index(rest, kept);
    Pass {
        balls: rest.update(k, rest[k].grown((level + 1) as u32)),
        score: p.score + 22 * level,
        strikes: p.strikes,
        visited: p.visited.push(kept),
        actions: p.actions.push(Action::Merge { kept, removed, target_level: (level + 1) as u32 }),
    }
}

/// The pass after ball `h` touched a barrier.
pub open spec fn strike_pass(p: Pass, h: u64) -> Pass {
    Pass {
        balls: p.balls.remove(ball_index(p.balls, h)),
        score: p.score,
        strikes: p.strikes + 1,
        visited: p.visited,
        actions: p.actions.push(Action::Strike { despawned: h }),
    }
}

/// One contact of a pass. Two live simple balls of equal effective level
/// merge into the lower one (the first member on a tie) unless it already
/// grew in this pass; a live ball touching a barrier is despawned with a
/// strike; anything else, stale handles included, is left alone.
pub open spec fn resolve_step(p: Pass, barriers: Seq<u64>, c: Contact) -> Pass {
    if c.a == c.b {
        p
    } else if has_ball(p.balls, c.a) && has_ball(p.balls, c.b) {
        let ba = ball_of(p.balls, c.a);
        let bb = ball_of(p.balls, c.b);
        match (ba.effective_spec(), bb.effective_spec()) {
            (BallType::Simple(la), BallType::Simple(lb)) => {
                let kept = if ba.y <= bb.y { c.a } else { c.b };
                let removed = if ba.y <= bb.y { c.b } else { c.a };
                if la != lb || p.visited.contains(kept) {
                    p
                } else {
                    merge_pass(p, kept, removed, la)
                }
            },
            _ => p,
        }
    } else if barriers.contains(c.a) && has_ball(p.balls, c.b) {
        strike_pass(p, c.b)
    } else if barriers.contains(c.b) && has_ball(p.balls, c.a) {
        strike_pass(p, c.a)
    } else {
        p
    }
}

/// The pass after its first `n` contacts.
pub open spec fn resolve_prefix(p0: Pass, barriers: Seq<u64>, cs: Seq<Contact>, n: nat) -> Pass
    decreases n,
{
    if n == 0 || n > cs.len() {
        p0
    } else {
        resolve_step(resolve_prefix(p0, barriers, cs, (n - 1) as nat), barriers, cs[n - 1])
    }
}

pub open spec fn resolve_all(p0: Pass, barriers: Seq<u64>, cs: Seq<Contact>) -> Pass {
    resolve_prefix(p0, barriers, cs, cs.len())
}

/// A handle of a live ball or of a barrier.
pub open spec fn is_live(balls: Seq<Ball>, barriers: Seq<u64>, h: u64) -> bool {
    has_ball(balls, h) || barriers.contains(h)
}

/// The contacts whose two members are both still live.
pub open spec fn retain_live(cs: Seq<Contact>, balls: Seq<Ball>, barriers: Seq<u64>) -> Seq<Contact> {
    cs.filter(|c: Contact| is_live(balls, barriers, c.a) && is_live(balls, barriers, c.b))
}

/// A merge into this ball can still name its next level.
pub open spec fn level_room(b: Ball) -> bool {
    match b.effective_spec() {
        BallType::Simple(level) => level < 0xffff_ffffu32,
        BallType::Special => true,
    }
}

/// Every ball is well formed with a handle below `next_handle`.
pub open spec fn balls_ok(balls: Seq<Ball>, next_handle: u64) -> bool {
    forall|i: int| 0 <= i < balls.len() ==> (#[trigger] balls[i]).wf() && balls[i].handle < next_handle
}

pub proof fn lemma_remove_ball(balls: Seq<Ball>, i: int, next_handle: u64)
    requires
        unique_handles(balls),
        0 <= i < balls.len(),
    ensures
        unique_handles(balls.remove(i)),
        balls_ok(balls, next_handle) ==> balls_ok(balls.remove(i), next_handle),
        forall|h: u64| has_ball(balls.remove(i), h) <==> (has_ball(balls, h) && h != balls[i].handle),
        forall|k: int| 0 <= k < balls.remove(i).len() ==> #[trigger] balls.remove(i)[k] == balls[if k < i { k } else { k + 1 }],
{
    let rest = balls.remove(i);
    assert forall|k: int| 0 <= k < rest.len() implies #[trigger] rest[k] == balls[if k < i { k } else { k + 1 }] by {}
    assert forall|j: int, k: int| 0 <= j < rest.len() && 0 <= k < rest.len() && j != k implies rest[j].handle != rest[k].handle by {
        let jj = if j < i { j } else { j + 1 };
        let kk = if k < i { k } else { k + 1 };
        assert(rest[j] == balls[jj]);
        assert(rest[k] == balls[kk]);
    }
    if balls_ok(balls, next_handle) {
        assert forall|k: int| 0 <= k < rest.len() implies (#[trigger] rest[k]).wf() && rest[k].handle < next_handle by {
            let kk = if k < i { k } else { k + 1 };
            assert(rest[k] == balls[kk]);
        }
    }
    assert forall|h: u64| has_ball(rest, h) <==> (has_ball(balls, h) && h != balls[i].handle) by {
        if has_ball(rest, h) {
            let k = choose|k: int| 0 <= k < rest.len() && rest[k].handle == h;
            let kk = if k < i { k } else { k + 1 };
            assert(rest[k] == balls[kk]);
            assert(kk != i);
        }
        if has_ball(balls, h) && h != balls[i].handle {
            let k = choose|k: int| 0 <= k < balls.len() && balls[k].handle == h;
            let kk = if k < i { k } else { k - 1 };
            assert(rest[kk] == balls[k]);
        }
    }
}

impl World {
    /// Balls are well formed with unique handles, every handle was issued
    /// from the counter, barriers are not balls, and the displayed score
    /// never passes the score.
    pub open spec fn wf(&self) -> bool {
        &&& unique_handles(self.balls@)
        &&& forall|i: int| 0 <= i < self.balls@.len() ==> #[trigger] self.balls@[i].wf()
        &&& forall|i: int| 0 <= i < self.balls@.len() ==> #[trigger] self.balls@[i].handle < self.next_handle
        &&& forall|i: int| 0 <= i < self.barriers@.len() ==> #[trigger] self.barriers@[i] < self.next_handle
        &&& forall|i: int| 0 <= i < self.barriers@.len() ==> !has_ball(self.balls@, #[trigger] self.barriers@[i])
        &&& self.game.interpolated_score <= self.game.score
    }

    /// Records that the physics engine reports `a` and `b` touching. A pair
    /// already active, or an entity touching itself, changes nothing.
    pub fn contact_begin(&mut self, a: u64, b: u64)
        ensures
            final(self).balls == old(self).balls,
            final(self).barriers == old(self).barriers,
            final(self).game == old(self).game,
            final(self).next_ball == old(self).next_ball,
            final(self).rng == old(self).rng,
            final(self).next_handle == old(self).next_handle,
            final(self).contacts@ == if a == b || old(self).contacts@.contains(ordered_pair(a, b)) {
                old(self).contacts@
            } else {
                old(self).contacts@.push(ordered_pair(a, b))
            },
    {
        if a != b {
            let pair = if a <= b {
                Contact { a, b }
            } else {
                Contact { a: b, b: a }
            };
            let mut i: usize = 0;
            let mut present = false;
            while i < self.contacts.len()
                invariant
                    0 <= i <= self.contacts@.len(),
                    self.contacts@ == old(self).contacts@,
                    present == exists|j: int| 0 <= j < i && self.contacts@[j] == pair,
                decreases self.contacts@.len() - i,
            {
                if self.contacts[i] == pair {
                    present = true;
                }
                i = i + 1;
            }
            if !present {
                self.contacts.push(pair);
            }
        }
    }

    /// Records that the physics engine reports `a` and `b` no longer
    /// touching. An absent pair changes nothing.
    pub fn contact_end(&mut self, a: u64, b: u64)
        ensures
            final(self).balls == old(self).balls,
            final(self).barriers == old(self).barriers,
            final(self).game == old(self).game,
            final(self).next_ball == old(self).next_ball,
            final(self).rng == old(self).rng,
            final(self).next_handle == old(self).next_handle,
            final(self).contacts@ == old(self).contacts@.filter(|p: Contact| p != ordered_pair(a, b)),
    {
        let pair = if a <= b {
            Contact { a, b }
        } else {
            Contact { a: b, b: a }
        };
        let mut kept: Vec<Contact> = Vec::new();
        let mut i: usize = 0;
        while i < self.contacts.len()
            invariant
                0 <= i <= self.contacts@.len(),
                self.contacts@ == old(self).contacts@,
                kept@ == self.contacts@.subrange(0, i as int).filter(|p: Contact| p != pair),
            decreases self.contacts@.len() - i,
        {
            let p = self.contacts[i];
            proof {
                let s = self.contacts@.subrange(0, i as int + 1);
                assert(s.drop_last() =~= self.contacts@.subrange(0, i as int));
                reveal_with_fuel(Seq::filter, 1);
            }
            if p != pair {
                kept.push(p);
            }
            i = i + 1;
        }
        assert(self.contacts@.subrange(0, self.contacts@.len() as int) =~= self.contacts@);
        self.contacts = kept;
    }
}


impl World {
    /// The pass state made of this world's balls and counters.
    pub open spec fn pass_of(&self, visited: Seq<u64>, actions: Seq<Action>) -> Pass {
        Pass {
            balls: self.balls@,
            score: self.game.score as int,
            strikes: self.game.strikes as int,
            visited,
            actions,
        }
    }

    /// Room for a pass over `n` contacts: every merge can name its next
    /// level, and the score and strikes cannot overflow.
    pub open spec fn pass_room(&self, n: nat) -> bool {
        &&& forall|i: int| 0 <= i < self.balls@.len() ==> level_room(#[trigger] self.balls@[i])
        &&& self.game.score + n * MAX_MERGE_POINTS <= u64::MAX
        &&& self.game.strikes + n <= u64::MAX
    }

    /// Same world, up to the balls and the score and strikes.
    pub open spec fn same_rest(&self, other: &World) -> bool {
        &&& self.barriers == other.barriers
        &&& self.contacts == other.contacts
        &&& self.next_ball == other.next_ball
        &&& self.rng == other.rng
        &&& self.next_handle == other.next_handle
        &&& self.game.interpolated_score == other.game.interpolated_score
        &&& self.game.over == other.game.over
    }

    fn remove_struck(&mut self, i: usize, visited: &Vec<u64>, actions: &mut Vec<Action>)
        requires
            unique_handles(old(self).balls@),
            balls_ok(old(self).balls@, old(self).next_handle),
            0 <= i < old(self).balls@.len(),
            old(self).game.strikes < u64::MAX,
            forall|k: int| 0 <= k < old(self).balls@.len() && !visited@.contains(old(self).balls@[k].handle)
                ==> level_room(#[trigger] old(self).balls@[k]),
        ensures
            final(self).pass_of(visited@, final(actions)@) == strike_pass(
                old(self).pass_of(visited@, old(actions)@),
                old(self).balls@[i as int].handle,
            ),
            unique_handles(final(self).balls@),
            balls_ok(final(self).balls@, final(self).next_handle),
            forall|k: int| 0 <= k < final(self).balls@.len() && !visited@.contains(final(self).balls@[k].handle)
                ==> level_room(#[trigger] final(self).balls@[k]),
            forall|h: u64| has_ball(final(self).balls@, h) ==> has_ball(old(self).balls@, h),
            final(self).same_rest(old(self)),
            final(self).game.score == old(self).game.score,
            final(self).game.strikes == old(self).game.strikes + 1,
    {
        let ghost balls0 = self.balls@;
        let h = self.balls[i].handle;
        proof {
            lemma_remove_ball(balls0, i as int, self.next_handle);
            assert(has_ball(balls0, h));
            let k = ball_index(balls0, h);
            assert(balls0[i as int].handle == h);
            assert(k == i as int);
        }
        self.balls.remove(i);
        self.game.strikes = self.game.strikes + 1;
        actions.push(Action::Strike { despawned: h });
        proof {
            assert forall|k: int| 0 <= k < self.balls@.len() && !visited@.contains(self.balls@[k].handle)
                implies level_room(#[trigger] self.balls@[k]) by {
                let kk = if k < i { k } else { k + 1 };
                assert(self.balls@[k] == balls0[kk]);
            }
        }
    }

    fn merge_into(
        &mut self,
        ir: usize,
        kept: u64,
        level: u32,
        visited: &mut Vec<u64>,
        actions: &mut Vec<Action>,
    )
        requires
            unique_handles(old(self).balls@),
            balls_ok(old(self).balls@, old(self).next_handle),
            0 <= ir < old(self).balls@.len(),
            old(self).balls@[ir as int].handle != kept,
            has_ball(old(self).balls@, kept),
            ball_of(old(self).balls@, kept).effective_spec() == BallType::Simple(level),
            !old(visited)@.contains(kept),
            old(self).game.score + MAX_MERGE_POINTS <= u64::MAX,
            forall|k: int| 0 <= k < old(self).balls@.len() && !old(visited)@.contains(old(self).balls@[k].handle)
                ==> level_room(#[trigger] old(self).balls@[k]),
        ensures
            final(self).pass_of(final(visited)@, final(actions)@) == merge_pass(
                old(self).pass_of(old(visited)@, old(actions)@),
                kept,
                old(self).balls@[ir as int].handle,
                level,
            ),
            unique_handles(final(self).balls@),
            balls_ok(final(self).balls@, final(self).next_handle),
            forall|k: int| 0 <= k < final(self).balls@.len() && !final(visited)@.contains(final(self).balls@[k].handle)
                ==> level_room(#[trigger] final(self).balls@[k]),
            forall|h: u64| has_ball(final(self).balls@, h) ==> has_ball(old(self).balls@, h),
            final(self).same_rest(old(self)),
            final(self).game.strikes == old(self).game.strikes,
            final(self).game.score <= old(self).game.score + MAX_MERGE_POINTS,
    {
        let ghost balls0 = self.balls@;
        let ghost p0 = self.pass_of(visited@, actions@);
        let removed = self.balls[ir].handle;
        proof {
            lemma_remove_ball(balls0, ir as int, self.next_handle);
            assert(has_ball(balls0, removed));
            assert(ball_index(balls0, removed) == ir as int);
            let kk = ball_index(balls0, kept);
            assert(level_room(balls0[kk]));
        }
        self.balls.remove(ir);
        let ghost rest = self.balls@;
        assert(rest == balls0.remove(ir as int));
        assert(balls_ok(rest, self.next_handle));
        assert(has_ball(rest, kept));
        let found = find_ball(&self.balls, kept);
        if let Some(ik) = found {
            proof {
                let kk = ball_index(balls0, kept);
                let j = if (ik as int) < ir { ik as int } else { ik as int + 1 };
                assert(rest[ik as int] == balls0[j]);
                assert(balls0[j].handle == kept);
                assert(j == kk);
            }
            let target = level + 1;
            let grown = self.balls[ik].grow_into(target);
            self.balls.set(ik, grown);
            self.game.score = self.game.score + 22 * (level as u64);
            visited.push(kept);
            actions.push(Action::Merge { kept, removed, target_level: target });
            proof {
                let nb = self.balls@;
                assert(nb =~= rest.update(ik as int, rest[ik as int].grown(target)));
                assert(visited@[visited@.len() - 1] == kept);
                assert(visited@.contains(kept));
                assert(nb[ik as int].handle == kept);
                assert forall|x: u64| old(visited)@.contains(x) implies visited@.contains(x) by {
                    let j = choose|j: int| 0 <= j < old(visited)@.len() && old(visited)@[j] == x;
                    assert(visited@[j] == x);
                }
                assert(balls_ok(rest, self.next_handle));
                assert forall|j: int, k: int| 0 <= j < nb.len() && 0 <= k < nb.len() && j != k
                    implies nb[j].handle != nb[k].handle by {
                    assert(nb[j].handle == rest[j].handle);
                    assert(nb[k].handle == rest[k].handle);
                }
                assert forall|k: int| 0 <= k < nb.len() implies (#[trigger] nb[k]).wf() && nb[k].handle < self.next_handle by {
                    assert(rest[k].wf());
                    assert(rest[k].handle < self.next_handle);
                    if k == ik as int {
                        assert(nb[k] == rest[k].grown(target));
                    }
                }
                assert forall|k: int| 0 <= k < nb.len() && !visited@.contains(nb[k].handle)
                    implies level_room(#[trigger] nb[k]) by {
                    assert(k != ik as int);
                    let kk = if k < ir { k } else { k + 1 };
                    assert(nb[k] == balls0[kk]);
                    assert(!old(visited)@.contains(balls0[kk].handle));
                }
                assert forall|h: u64| has_ball(nb, h) implies has_ball(balls0, h) by {
                    let k = choose|k: int| 0 <= k < nb.len() && nb[k].handle == h;
                    assert(rest[k].handle == h);
                    assert(has_ball(rest, h));
                }
                assert(balls_ok(nb, self.next_handle));
                assert(self.pass_of(visited@, actions@) == merge_pass(p0, kept, removed, level));
            }
        }
    }

    fn resolve_one(&mut self, c: Contact, visited: &mut Vec<u64>, actions: &mut Vec<Action>)
        requires
            unique_handles(old(self).balls@),
            balls_ok(old(self).balls@, old(self).next_handle),
            old(self).game.score + MAX_MERGE_POINTS <= u64::MAX,
            old(self).game.strikes < u64::MAX,
            forall|k: int| 0 <= k < old(self).balls@.len() && !old(visited)@.contains(old(self).balls@[k].handle)
                ==> level_room(#[trigger] old(self).balls@[k]),
        ensures
            final(self).pass_of(final(visited)@, final(actions)@) == resolve_step(
                old(self).pass_of(old(visited)@, old(actions)@),
                old(self).barriers@,
                c,
            ),
            unique_handles(final(self).balls@),
            balls_ok(final(self).balls@, final(self).next_handle),
            forall|k: int| 0 <= k < final(self).balls@.len() && !final(visited)@.contains(final(self).balls@[k].handle)
                ==> level_room(#[trigger] final(self).balls@[k]),
            forall|h: u64| has_ball(final(self).balls@, h) ==> has_ball(old(self).balls@, h),
            final(self).same_rest(old(self)),
            old(self).game.strikes <= final(self).game.strikes <= old(self).game.strikes + 1,
            old(self).game.score <= final(self).game.score <= old(self).game.score + MAX_MERGE_POINTS,
    {
        if c.a != c.b {
            let ia = find_ball(&self.balls, c.a);
            let ib = find_ball(&self.balls, c.b);
            match (ia, ib) {
                (Some(ia), Some(ib)) => {
                    let ea = self.balls[ia].effective();
                    let eb = self.balls[ib].effective();
                    match (ea, eb) {
                        (BallType::Simple(la), BallType::Simple(lb)) => {
                            let a_lower = self.balls[ia].y <= self.balls[ib].y;
                            let kept = if a_lower {
                                c.a
                            } else {
                                c.b
                            };
                            let ir = if a_lower {
                                ib
                            } else {
                                ia
                            };
                            if la == lb && !holds_handle(visited, kept) {
                                self.merge_into(ir, kept, la, visited, actions);
                            }
                        },
                        _ => {},
                    }
                },
                _ => {
                    let a_barrier = holds_handle(&self.barriers, c.a);
                    let b_barrier = holds_handle(&self.barriers, c.b);
                    if a_barrier && ib.is_some() {
                        if let Some(j) = ib {
                            self.remove_struck(j, visited, actions);
                        }
                    } else if b_barrier && ia.is_some() {
                        if let Some(j) = ia {
                            self.remove_struck(j, visited, actions);
                        }
                    }
                },
            }
        }
    }

    /// The pass state a resolution pass starts from.
    pub open spec fn initial_pass(&self) -> Pass {
        self.pass_of(Seq::empty(), Seq::empty())
    }

    /// Runs one resolution pass over the active contacts, in their stored
    /// order. Balls, score and strikes become what the contacts give one
    /// after the other; the contacts that lost a member are dropped; the
    /// returned actions tell what was merged and what was struck.
    pub fn resolve_contacts(&mut self) -> (actions: Vec<Action>)
        requires
            old(self).wf(),
            old(self).pass_room(old(self).contacts@.len()),
        ensures
            final(self).wf(),
            ({
                let p = resolve_all(old(self).initial_pass(), old(self).barriers@, old(self).contacts@);
                &&& final(self).balls@ == p.balls
                &&& final(self).game.score == p.score
                &&& final(self).game.strikes == p.strikes
                &&& actions@ == p.actions
                &&& final(self).contacts@ == retain_live(old(self).contacts@, p.balls, old(self).barriers@)
            }),
            final(self).barriers == old(self).barriers,
            final(self).next_ball == old(self).next_ball,
            final(self).rng == old(self).rng,
            final(self).next_handle == old(self).next_handle,
            final(self).game.interpolated_score == old(self).game.interpolated_score,
            final(self).game.over == old(self).game.over,
            final(self).game.strikes >= old(self).game.strikes,
            final(self).game.score >= old(self).game.score,
    {
        let ghost p0 = self.initial_pass();
        let ghost w0 = *self;
        let mut visited: Vec<u64> = Vec::new();
        let mut actions: Vec<Action> = Vec::new();
        let n = self.contacts.len();
        let mut i: usize = 0;
        while i < n
            invariant
                0 <= i <= n,
                n == w0.contacts@.len(),
                self.same_rest(&w0),
                w0.wf(),
                w0.pass_room(n as nat),
                self.pass_of(visited@, actions@) == resolve_prefix(p0, w0.barriers@, w0.contacts@, i as nat),
                unique_handles(self.balls@),
                balls_ok(self.balls@, self.next_handle),
                forall|k: int| 0 <= k < self.balls@.len() && !visited@.contains(self.balls@[k].handle)
                    ==> level_room(#[trigger] self.balls@[k]),
                forall|h: u64| has_ball(self.balls@, h) ==> has_ball(w0.balls@, h),
                w0.game.score <= self.game.score <= w0.game.score + i * MAX_MERGE_POINTS,
                w0.game.strikes <= self.game.strikes <= w0.game.strikes + i,
            decreases n - i,
        {
            let c = self.contacts[i];
            proof {
                assert(i * MAX_MERGE_POINTS + MAX_MERGE_POINTS == (i + 1) * MAX_MERGE_POINTS) by (nonlinear_arith);
                assert((i + 1) * MAX_MERGE_POINTS <= n * MAX_MERGE_POINTS) by (nonlinear_arith)
                    requires i + 1 <= n;
            }
            self.resolve_one(c, &mut visited, &mut actions);
            i = i + 1;
        }
        let ghost pn = self.pass_of(visited@, actions@);
        let mut live: Vec<Contact> = Vec::new();
        let mut j: usize = 0;
        while j < n
            invariant
                0 <= j <= n,
                n == w0.contacts@.len(),
                self.same_rest(&w0),
                unique_handles(self.balls@),
                self.balls@ == pn.balls,
                live@ == retain_live(self.contacts@.subrange(0, j as int), pn.balls, w0.barriers@),
            decreases n - j,
        {
            let c = self.contacts[j];
            let a_live = find_ball(&self.balls, c.a).is_some() || holds_handle(&self.barriers, c.a);
            let b_live = find_ball(&self.balls, c.b).is_some() || holds_handle(&self.barriers, c.b);
            proof {
                let s = self.contacts@.subrange(0, j as int + 1);
                assert(s.drop_last() =~= self.contacts@.subrange(0, j as int));
                reveal_with_fuel(Seq::filter, 1);
            }
            if a_live && b_live {
                live.push(c);
            }
            j = j + 1;
        }
        assert(self.contacts@.subrange(0, n as int) =~= self.contacts@);
        self.contacts = live;
        proof {
            assert forall|k: int| 0 <= k < self.barriers@.len()
                implies !has_ball(self.balls@, #[trigger] self.barriers@[k]) by {
                assert(!has_ball(w0.balls@, w0.barriers@[k]));
            }
        }
        actions
    }

    /// Whether a resolution pass over the active contacts has room.
    pub fn has_pass_room(&self) -> (r: bool)
        ensures
            r == self.pass_room(self.contacts@.len()),
    {
        let mut i: usize = 0;
        while i < self.balls.len()
            invariant
                0 <= i <= self.balls@.len(),
                forall|k: int| 0 <= k < i ==> level_room(#[trigger] self.balls@[k]),
            decreases self.balls@.len() - i,
        {
            match self.balls[i].effective() {
                BallType::Simple(level) => {
                    if level == 0xffff_ffffu32 {
                        return false;
                    }
                },
                BallType::Special => {},
            }
            i = i + 1;
        }
        let n = self.contacts.len() as u128;
        assert(n * (MAX_MERGE_POINTS as u128) <= 0xffff_ffff_ffff_ffff * (MAX_MERGE_POINTS as u128))
            by (nonlinear_arith)
            requires n <= 0xffff_ffff_ffff_ffffu128;
        (self.game.score as u128) + n * (MAX_MERGE_POINTS as u128) <= u64::MAX as u128
            && (self.game.strikes as u128) + n <= u64::MAX as u128
    }
}

} // verus!
