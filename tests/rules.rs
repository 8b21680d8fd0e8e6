use bevy_turborand::prelude::RngComponent;
use bingle::ball::{Ball, BallColor, BallType, Growth};
use bingle::dropper::{clamp_drop_x, DropOutcome, DROP_Y};
use bingle::layout::{barrier_walls, bucket_walls, Wall};
use bingle::world::{Action, Contact, RadiusUpdate, World};

fn world() -> World {
    World::new(RngComponent::with_seed(7))
}

/// Drops a ball of `level` and moves it to `(x, y)`.
fn drop_at(w: &mut World, level: u32, x: i64, y: i64) -> u64 {
    w.next_ball = BallType::Simple(level);
    match w.click(x) {
        DropOutcome::Dropped { handle, .. } => {
            assert!(w.move_ball(handle, x, y));
            handle
        }
        other => panic!("drop refused: {:?}", other),
    }
}

fn ball(w: &World, h: u64) -> Ball {
    *w.balls.iter().find(|b| b.handle == h).expect("live ball")
}

fn is_live(w: &World, h: u64) -> bool {
    w.balls.iter().any(|b| b.handle == h)
}

#[test]
fn merge_keeps_lower_ball_and_scores() {
    let mut w = world();
    let low = drop_at(&mut w, 2, 0, -100_000);
    let high = drop_at(&mut w, 2, 5_000, -80_000);
    w.contact_begin(high, low);
    assert!(w.has_pass_room());
    let actions = w.resolve_contacts();
    assert_eq!(actions, vec![Action::Merge { kept: low, removed: high, target_level: 3 }]);
    assert!(!is_live(&w, high));
    assert_eq!(ball(&w, low).growth, Some(Growth { target_level: 3, elapsed: 0 }));
    assert_eq!(ball(&w, low).ball_type, BallType::Simple(2));
    assert_eq!(w.game.score, 44);
    assert!(w.contacts.is_empty());
}

#[test]
fn merge_tie_keeps_first_member() {
    let mut w = world();
    let a = drop_at(&mut w, 1, 0, 0);
    let b = drop_at(&mut w, 1, 10_000, 0);
    w.contact_begin(b, a);
    let actions = w.resolve_contacts();
    assert_eq!(actions, vec![Action::Merge { kept: a, removed: b, target_level: 2 }]);
    assert_eq!(w.game.score, 22);
}

#[test]
fn unequal_levels_stay_in_contact() {
    let mut w = world();
    let a = drop_at(&mut w, 1, 0, 0);
    let b = drop_at(&mut w, 3, 10_000, 0);
    w.contact_begin(a, b);
    let actions = w.resolve_contacts();
    assert!(actions.is_empty());
    assert_eq!(w.contacts, vec![Contact { a, b }]);
    assert_eq!(w.game.score, 0);
    assert_eq!(w.balls.len(), 2);
}

#[test]
fn kept_ball_grows_once_per_pass() {
    let mut w = world();
    let k = drop_at(&mut w, 1, 0, 0);
    let a = drop_at(&mut w, 1, 10_000, 10_000);
    let c = drop_at(&mut w, 2, -10_000, 10_000);
    w.contact_begin(k, a);
    w.contact_begin(k, c);
    let actions = w.resolve_contacts();
    assert_eq!(actions, vec![Action::Merge { kept: k, removed: a, target_level: 2 }]);
    assert!(is_live(&w, c));
    assert_eq!(ball(&w, k).growth, Some(Growth { target_level: 2, elapsed: 0 }));
    assert_eq!(w.contacts, vec![Contact { a: k, b: c }]);
    assert_eq!(w.game.score, 22);
    let next = w.resolve_contacts();
    assert_eq!(next, vec![Action::Merge { kept: k, removed: c, target_level: 3 }]);
    assert_eq!(w.game.score, 22 + 44);
}

#[test]
fn growth_interpolates_then_settles() {
    let mut w = world();
    let low = drop_at(&mut w, 2, 0, -100_000);
    let high = drop_at(&mut w, 2, 0, -80_000);
    w.contact_begin(low, high);
    w.resolve_contacts();
    let ups = w.advance_growth(500_000);
    assert_eq!(ups, vec![RadiusUpdate { handle: low, radius: 22_750 }]);
    assert_eq!(ball(&w, low).growth, Some(Growth { target_level: 3, elapsed: 500_000 }));
    let ups = w.advance_growth(1_000_000);
    assert_eq!(ups, vec![RadiusUpdate { handle: low, radius: 26_250 }]);
    let ups = w.advance_growth(500_000);
    assert_eq!(ups, vec![RadiusUpdate { handle: low, radius: 28_000 }]);
    assert_eq!(ball(&w, low).growth, None);
    assert_eq!(ball(&w, low).ball_type, BallType::Simple(3));
    assert!(w.advance_growth(500_000).is_empty());
    assert_eq!(ball(&w, low).ball_type, BallType::Simple(3));
}

#[test]
fn strikes_end_round_once() {
    let mut w = world();
    let barrier = w.add_barrier();
    for i in 0..4u64 {
        let b = drop_at(&mut w, 1, 0, -100_000);
        w.contact_begin(b, barrier);
        let actions = w.resolve_contacts();
        assert_eq!(actions, vec![Action::Strike { despawned: b }]);
        assert_eq!(w.game.strikes, i + 1);
        assert!(!is_live(&w, b));
        assert!(w.contacts.is_empty());
        let ended = w.check_game_state();
        assert_eq!(ended, i == 3);
        assert_eq!(w.game.over, i == 3);
    }
    assert_eq!(w.strikes_left(), 0);
    assert!(!w.check_game_state());
    assert!(w.game.over);
}

#[test]
fn ball_touching_two_barriers_strikes_once() {
    let mut w = world();
    let left = w.add_barrier();
    let floor = w.add_barrier();
    let b = drop_at(&mut w, 1, 0, -100_000);
    w.contact_begin(b, left);
    w.contact_begin(floor, b);
    let actions = w.resolve_contacts();
    assert_eq!(actions, vec![Action::Strike { despawned: b }]);
    assert_eq!(w.game.strikes, 1);
    assert!(w.contacts.is_empty());
}

#[test]
fn stale_contact_is_skipped() {
    let mut w = world();
    let k = drop_at(&mut w, 1, 0, 0);
    let r = drop_at(&mut w, 1, 0, 10_000);
    let other = drop_at(&mut w, 1, 0, 20_000);
    w.contact_begin(k, r);
    w.contact_begin(r, other);
    let actions = w.resolve_contacts();
    assert_eq!(actions, vec![Action::Merge { kept: k, removed: r, target_level: 2 }]);
    assert!(is_live(&w, other));
    assert!(w.contacts.is_empty());
}

#[test]
fn spam_block_is_one_sided() {
    let mut w = world();
    let high = drop_at(&mut w, 1, 50_000, 150_000);
    let before = w.balls.clone();
    assert_eq!(w.click(10_000), DropOutcome::Blocked);
    assert_eq!(w.balls, before);
    assert_eq!(w.click(-190_000), DropOutcome::Blocked);
    w.next_ball = BallType::Simple(2);
    let next = w.next_handle;
    assert_eq!(
        w.click(100_000),
        DropOutcome::Dropped { handle: next, ball_type: BallType::Simple(2), x: 100_000 }
    );
    assert!(is_live(&w, high));
    assert_eq!(ball(&w, next).y, DROP_Y);
}

#[test]
fn drop_is_clamped_and_rolls_next_rank() {
    let mut w = world();
    w.next_ball = BallType::Simple(4);
    let h = w.next_handle;
    assert_eq!(
        w.click(900_000),
        DropOutcome::Dropped { handle: h, ball_type: BallType::Simple(4), x: 200_000 }
    );
    assert_eq!(ball(&w, h).x, 200_000);
    match w.next_ball {
        BallType::Simple(l) => assert!((1..=4).contains(&l)),
        BallType::Special => panic!("special rank rolled"),
    }
    assert_eq!(clamp_drop_x(-900_000), -200_000);
    assert_eq!(clamp_drop_x(1_234), 1_234);
}

#[test]
fn rolled_ranks_cover_the_range() {
    let mut w = world();
    let mut seen = [false; 5];
    for _ in 0..200 {
        match w.click(0) {
            DropOutcome::Dropped { .. } => {}
            other => panic!("unexpected {:?}", other),
        }
        match w.next_ball {
            BallType::Simple(l) => {
                assert!((1..=4).contains(&l));
                seen[l as usize] = true;
            }
            BallType::Special => panic!("special rank rolled"),
        }
        let last = w.balls.last().unwrap().handle;
        assert!(w.move_ball(last, 0, -100_000));
    }
    assert!(seen[1] && seen[2] && seen[3] && seen[4]);
}

#[test]
fn chained_growth_halves_progress() {
    let mut w = world();
    let k = drop_at(&mut w, 1, 0, 0);
    let a = drop_at(&mut w, 1, 0, 10_000);
    w.contact_begin(k, a);
    w.resolve_contacts();
    w.advance_growth(1_000_000);
    assert_eq!(ball(&w, k).growth, Some(Growth { target_level: 2, elapsed: 1_000_000 }));
    let b = drop_at(&mut w, 2, 0, 10_000);
    w.contact_begin(k, b);
    let actions = w.resolve_contacts();
    assert_eq!(actions, vec![Action::Merge { kept: k, removed: b, target_level: 3 }]);
    assert_eq!(ball(&w, k).growth, Some(Growth { target_level: 3, elapsed: 500_000 }));
    assert_eq!(ball(&w, k).ball_type, BallType::Simple(1));
    assert_eq!(w.game.score, 22 + 44);
}

#[test]
fn score_eases_in_steps_of_ten() {
    let mut w = world();
    w.game.score = 37;
    w.game.interpolated_score = 0;
    let mut shown = Vec::new();
    for _ in 0..5 {
        w.update_score();
        shown.push(w.game.interpolated_score);
    }
    assert_eq!(shown, vec![10, 20, 30, 37, 37]);
}

#[test]
fn click_after_game_over_restarts() {
    let mut w = world();
    drop_at(&mut w, 1, 0, -100_000);
    drop_at(&mut w, 2, 20_000, -100_000);
    w.game.score = 99;
    w.game.interpolated_score = 90;
    w.game.strikes = 4;
    assert!(w.check_game_state());
    assert!(w.game.over);
    assert_eq!(w.click(0), DropOutcome::Restarted);
    assert_eq!(w.game.score, 0);
    assert_eq!(w.game.strikes, 0);
    assert_eq!(w.game.interpolated_score, 0);
    assert!(!w.game.over);
    assert!(w.balls.is_empty());
    assert!(w.contacts.is_empty());
}

#[test]
fn contacts_are_unordered_pairs() {
    let mut w = world();
    w.contact_begin(5, 3);
    w.contact_begin(3, 5);
    w.contact_begin(4, 4);
    assert_eq!(w.contacts, vec![Contact { a: 3, b: 5 }]);
    w.contact_end(1, 2);
    assert_eq!(w.contacts, vec![Contact { a: 3, b: 5 }]);
    w.contact_end(5, 3);
    assert!(w.contacts.is_empty());
}

#[test]
fn ranks_have_sizes_and_colors() {
    assert_eq!(BallType::Simple(0).size(), 7_000);
    assert_eq!(BallType::Simple(3).size(), 28_000);
    assert_eq!(BallType::Special.size(), 10_000);
    assert_eq!(BallType::Simple(0).color(), BallColor::Orange);
    assert_eq!(BallType::Simple(4).color(), BallColor::Yellow);
    assert_eq!(BallType::Simple(5).color(), BallColor::Gold);
    assert_eq!(BallType::Simple(7).color(), BallColor::Gray);
    assert_eq!(BallType::Special.color(), BallColor::Black);
    assert_eq!(BallType::from_i32(5), BallType::Simple(5));
    assert_eq!(BallType::from_i32(6), BallType::Special);
}

#[test]
fn walls_enclose_the_bucket() {
    let bucket = bucket_walls();
    assert_eq!(bucket[0], Wall { width: 320_000, height: 20_000, x: 0, y: -175_000, barrier: false });
    assert_eq!(bucket[1], Wall { width: 20_000, height: 170_000, x: -150_000, y: -100_000, barrier: false });
    assert_eq!(bucket[2], Wall { width: 20_000, height: 170_000, x: 150_000, y: -100_000, barrier: false });
    let barriers = barrier_walls();
    assert_eq!(barriers.len(), 4);
    assert_eq!(barriers[0], Wall { width: 20_000, height: 520_000, x: 250_000, y: 0, barrier: true });
    assert_eq!(barriers[3], Wall { width: 520_000, height: 20_000, x: 0, y: -250_000, barrier: true });
}

#[test]
fn pass_room_refuses_top_level() {
    let mut w = world();
    let a = drop_at(&mut w, 1, 0, 0);
    assert!(w.has_pass_room());
    w.balls[0].ball_type = BallType::Simple(u32::MAX);
    assert!(!w.has_pass_room());
    w.balls[0].ball_type = BallType::Simple(1);
    w.game.score = u64::MAX;
    w.contact_begin(a, 99);
    assert!(!w.has_pass_room());
}
