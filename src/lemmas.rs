use crate::ball::{Ball, BallType};
use crate::world::{
    ball_index, ball_of, has_ball, lemma_remove_ball, merge_pass, resolve_prefix, resolve_step,
    strike_pass, unique_handles, Contact, Pass,
};
use vstd::prelude::*;

verus! {

/// The member of a contact that a merge keeps: the lower ball, the first
/// member on a tie.
pub open spec fn kept_member(balls: Seq<Ball>, c: Contact) -> u64 {
    if ball_of(balls, c.a).y <= ball_of(balls, c.b).y {
        c.a
    } else {
        c.b
    }
}

proof fn lemma_update_keeps_handles(balls: Seq<Ball>, k: int, b: Ball)
    requires
        unique_handles(balls),
        0 <= k < balls.len(),
        b.handle == balls[k].handle,
    ensures
        unique_handles(balls.update(k, b)),
        forall|h: u64| has_ball(balls.update(k, b), h) <==> has_ball(balls, h),
        ball_index(balls.update(k, b), b.handle) == k,
{
    let nb = balls.update(k, b);
    assert forall|j: int| 0 <= j < nb.len() implies nb[j].handle == balls[j].handle by {}
    assert forall|i: int, j: int| 0 <= i < nb.len() && 0 <= j < nb.len() && i != j
        implies nb[i].handle != nb[j].handle by {
        assert(nb[i].handle == balls[i].handle);
        assert(nb[j].handle == balls[j].handle);
    }
    assert forall|h: u64| has_ball(nb, h) <==> has_ball(balls, h) by {
        if has_ball(nb, h) {
            let j = choose|j: int| 0 <= j < nb.len() && nb[j].handle == h;
            assert(balls[j].handle == h);
        }
        if has_ball(balls, h) {
            let j = choose|j: int| 0 <= j < balls.len() && balls[j].handle == h;
            assert(nb[j].handle == h);
        }
    }
    assert(nb[k].handle == b.handle);
    assert(has_ball(nb, b.handle));
    let j = ball_index(nb, b.handle);
    assert(nb[j].handle == b.handle);
}

/// A merge of two distinct live simple balls of equal effective level
/// `level`, reached while the lower one has not grown yet in this pass,
/// destroys exactly one of the two; the survivor grows towards
/// `level + 1`, and the score rises by exactly `22 * level`.
pub proof fn lemma_merge_invariant(p: Pass, barriers: Seq<u64>, c: Contact, level: u32)
    requires
        unique_handles(p.balls),
        c.a != c.b,
        has_ball(p.balls, c.a),
        has_ball(p.balls, c.b),
        ball_of(p.balls, c.a).effective_spec() == BallType::Simple(level),
        ball_of(p.balls, c.b).effective_spec() == BallType::Simple(level),
        !p.visited.contains(kept_member(p.balls, c)),
        level < 0xffff_ffffu32,
    ensures
        ({
            let q = resolve_step(p, barriers, c);
            let kept = kept_member(p.balls, c);
            &&& has_ball(q.balls, c.a) != has_ball(q.balls, c.b)
            &&& has_ball(q.balls, kept)
            &&& q.balls.len() == p.balls.len() - 1
            &&& ball_of(q.balls, kept).growth is Some
            &&& ball_of(q.balls, kept).growth->0.target_level == level + 1
            &&& q.score == p.score + 22 * level
            &&& q.strikes == p.strikes
        }),
{
    let kept = kept_member(p.balls, c);
    let removed = if kept == c.a { c.b } else { c.a };
    assert(resolve_step(p, barriers, c) == merge_pass(p, kept, removed, level));
    let ir = ball_index(p.balls, removed);
    lemma_remove_ball(p.balls, ir, 0);
    let rest = p.balls.remove(ir);
    assert(p.balls[ir].handle == removed);
    assert(has_ball(rest, kept));
    let k = ball_index(rest, kept);
    assert(rest[k].handle == kept);
    let g = rest[k].grown((level + 1) as u32);
    lemma_update_keeps_handles(rest, k, g);
    assert(!has_ball(rest, removed));
}

/// Records of a pass that started empty: every merge's kept ball is in the
/// visited list, and no two merges keep the same ball.
proof fn lemma_kept_visited(p0: Pass, barriers: Seq<u64>, cs: Seq<Contact>, n: nat)
    requires
        p0.visited.len() == 0,
        p0.actions.len() == 0,
    ensures
        ({
            let q = resolve_prefix(p0, barriers, cs, n);
            &&& forall|i: int| 0 <= i < q.actions.len() && (#[trigger] q.actions[i]) is Merge
                ==> q.visited.contains(q.actions[i]->kept)
            &&& forall|i: int, j: int| 0 <= i < j < q.actions.len() && (#[trigger] q.actions[i]) is Merge
                && (#[trigger] q.actions[j]) is Merge ==> q.actions[i]->kept != q.actions[j]->kept
        }),
    decreases n,
{
    if n == 0 || n > cs.len() {
    } else {
        let n1 = (n - 1) as nat;
        lemma_kept_visited(p0, barriers, cs, n1);
        let p = resolve_prefix(p0, barriers, cs, n1);
        let q = resolve_prefix(p0, barriers, cs, n);
        assert(q == resolve_step(p, barriers, cs[n - 1]));
        let c = cs[n - 1];
        if q.actions.len() == p.actions.len() + 1 && q.actions[p.actions.len() as int] is Merge {
            let kept = q.actions[p.actions.len() as int]->kept;
            assert(!p.visited.contains(kept) && q.visited == p.visited.push(kept)
                && q.actions == p.actions.push(q.actions[p.actions.len() as int])) by {
                if c.a == c.b {
                } else if has_ball(p.balls, c.a) && has_ball(p.balls, c.b) {
                } else if barriers.contains(c.a) && has_ball(p.balls, c.b) {
                    assert(q == strike_pass(p, c.b));
                } else if barriers.contains(c.b) && has_ball(p.balls, c.a) {
                    assert(q == strike_pass(p, c.a));
                }
            }
            assert forall|x: u64| p.visited.contains(x) implies q.visited.contains(x) by {
                let j = choose|j: int| 0 <= j < p.visited.len() && p.visited[j] == x;
                assert(q.visited[j] == x);
            }
            assert(q.visited[q.visited.len() - 1] == kept);
            assert forall|i: int| 0 <= i < q.actions.len() && (#[trigger] q.actions[i]) is Merge
                implies q.visited.contains(q.actions[i]->kept) by {
                if i < p.actions.len() {
                    assert(q.actions[i] == p.actions[i]);
                }
            }
            assert forall|i: int, j: int| 0 <= i < j < q.actions.len() && (#[trigger] q.actions[i]) is Merge
                && (#[trigger] q.actions[j]) is Merge implies q.actions[i]->kept != q.actions[j]->kept by {
                assert(q.actions[i] == p.actions[i]);
                if j < p.actions.len() {
                    assert(q.actions[j] == p.actions[j]);
                } else {
                    assert(p.visited.contains(p.actions[i]->kept));
                }
            }
        } else {
            assert(q.visited == p.visited && (q.actions == p.actions || (q.actions.len() == p.actions.len() + 1
                && q.actions == p.actions.push(q.actions[p.actions.len() as int])))) by {
                if c.a == c.b {
                } else if has_ball(p.balls, c.a) && has_ball(p.balls, c.b) {
                } else if barriers.contains(c.a) && has_ball(p.balls, c.b) {
                    assert(q == strike_pass(p, c.b));
                } else if barriers.contains(c.b) && has_ball(p.balls, c.a) {
                    assert(q == strike_pass(p, c.a));
                }
            }
            assert forall|i: int| 0 <= i < q.actions.len() && (#[trigger] q.actions[i]) is Merge
                implies q.visited.contains(q.actions[i]->kept) by {
                assert(q.actions[i] == p.actions[i]);
            }
            assert forall|i: int, j: int| 0 <= i < j < q.actions.len() && (#[trigger] q.actions[i]) is Merge
                && (#[trigger] q.actions[j]) is Merge implies q.actions[i]->kept != q.actions[j]->kept by {
                assert(q.actions[i] == p.actions[i]);
                assert(q.actions[j] == p.actions[j]);
            }
        }
    }
}

/// In one pass a ball is the kept side of at most one merge, however many
/// equal neighbours it touches.
pub proof fn lemma_kept_once(p0: Pass, barriers: Seq<u64>, cs: Seq<Contact>)
    requires
        p0.visited.len() == 0,
        p0.actions.len() == 0,
    ensures
        ({
            let q = resolve_prefix(p0, barriers, cs, cs.len());
            forall|i: int, j: int| 0 <= i < j < q.actions.len() && (#[trigger] q.actions[i]) is Merge
                && (#[trigger] q.actions[j]) is Merge ==> q.actions[i]->kept != q.actions[j]->kept
        }),
{
    lemma_kept_visited(p0, barriers, cs, cs.len());
}

/// A pass never lowers the strikes or the score.
pub proof fn lemma_pass_monotone(p0: Pass, barriers: Seq<u64>, cs: Seq<Contact>, n: nat)
    ensures
        resolve_prefix(p0, barriers, cs, n).strikes >= p0.strikes,
        resolve_prefix(p0, barriers, cs, n).score >= p0.score,
    decreases n,
{
    if n == 0 || n > cs.len() {
    } else {
        lemma_pass_monotone(p0, barriers, cs, (n - 1) as nat);
    }
}

} // verus!
