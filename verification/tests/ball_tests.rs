//! The ball state machine, the wall bounce, the pair types and the
//! collision tests.

use spaceballs::ball::{Ball, BallPair, BallPairIds, BallState, BallType, Color};
use spaceballs::constants::{FULL, GROWS, HEIGHT, TINY, WIDTH};
use spaceballs::geometry::Point;

fn test_ball(id: usize, x: i64, y: i64, r: i64) -> Ball {
    Ball {
        id,
        ball_type: "TEST_BALL",
        pos: Point { x, y },
        radius: r,
        velocity: Point { x: 0, y: 0 },
        color: Color { r: 0, g: 0, b: 0 },
        ball_state: BallState::Normal,
        radius_growth: GROWS,
        max_radius: FULL,
        next_position: Point { x, y },
        next_radius: r,
        next_velocity: Point { x: 0, y: 0 },
        next_ball_state: BallState::Normal,
        is_captured: false,
    }
}

#[test]
fn color_renders_as_css_rgb() {
    assert_eq!(Color { r: 255, g: 165, b: 0 }.to_string(), "rgb(255,165,0)");
    assert_eq!(Color { r: 0, g: 0, b: 0 }.to_string(), "rgb(0,0,0)");
    assert_eq!(Color { r: 128, g: 7, b: 99 }.to_string(), "rgb(128,7,99)");
}

#[test]
fn catalog_archetypes_are_consistent() {
    for pick in 0..17 {
        let t = BallType::random_ball_type(pick);
        assert!(t.radius >= TINY);
        assert!(t.radius <= t.growth_size);
        assert!(t.growth_speed >= 1);
        assert!(t.velocity >= 1);
    }
    let active = BallType::active_ball_type();
    assert_eq!(active.name, "ACTIVE_BALL");
    assert_eq!(active.radius, TINY);
    assert_eq!(active.growth_size, FULL);
}

#[test]
fn expanding_grows_linearly_and_turns_to_shrinking_at_the_cap() {
    let mut b = test_ball(1, 40000, 30000, 600);
    b.change_ball_state(BallState::Expanding);
    b.next_ball_state = BallState::Expanding;
    b.tick();
    // strictly increasing while below the cap
    assert_eq!(b.next_radius, 700);
    assert_eq!(b.next_ball_state, BallState::Expanding);
    assert_eq!(b.next_velocity, Point { x: 0, y: 0 });

    // at the cap the ball stays exactly at the cap and turns to shrinking
    let mut c = test_ball(2, 40000, 30000, 4950);
    c.change_ball_state(BallState::Expanding);
    c.next_ball_state = BallState::Expanding;
    c.tick();
    assert_eq!(c.next_radius, FULL);
    assert_eq!(c.next_ball_state, BallState::Shrinking);
}

#[test]
fn shrinking_decays_harmonically_and_vanishes_below_the_threshold() {
    let mut b = test_ball(1, 40000, 30000, 5000);
    b.change_ball_state(BallState::Shrinking);
    b.next_ball_state = BallState::Shrinking;
    b.tick();
    // loses 70000 / 5000 = 14 hundredths of a pixel
    assert_eq!(b.next_radius, 4986);
    assert_eq!(b.next_ball_state, BallState::Shrinking);

    // the decay slows down as the ball gets smaller, but stays strict
    let mut c = test_ball(2, 40000, 30000, 700);
    c.change_ball_state(BallState::Shrinking);
    c.next_ball_state = BallState::Shrinking;
    c.tick();
    assert_eq!(c.next_radius, 600);

    // below the threshold the ball vanishes
    let mut d = test_ball(3, 40000, 30000, 501);
    d.change_ball_state(BallState::Shrinking);
    d.next_ball_state = BallState::Shrinking;
    d.tick();
    assert_eq!(d.next_radius, 362);
    assert_eq!(d.next_ball_state, BallState::Vanish);
}

#[test]
fn wall_bounce_flips_the_staged_velocity_one_tick_late() {
    let mut b = test_ball(1, WIDTH - 600, 30000, 500);
    b.velocity = Point { x: 200, y: 0 };
    b.next_velocity = Point { x: 200, y: 0 };
    b.tick();
    // the staged position still moves with the pre-flip velocity
    assert_eq!(b.next_position, Point { x: WIDTH - 400, y: 30000 });
    // but the staged velocity is flipped for the following tick
    assert_eq!(b.next_velocity, Point { x: -200, y: 0 });
    b.apply_tick_changes();
    assert_eq!(b.pos, Point { x: WIDTH - 400, y: 30000 });
    assert_eq!(b.velocity, Point { x: -200, y: 0 });
}

#[test]
fn bottom_wall_bounce_flips_y() {
    let mut b = test_ball(1, 40000, HEIGHT - 550, 500);
    b.velocity = Point { x: 0, y: 100 };
    b.next_velocity = Point { x: 0, y: 100 };
    b.tick();
    assert_eq!(b.next_velocity, Point { x: 0, y: -100 });
}

#[test]
fn commit_copies_staged_into_live() {
    let mut b = test_ball(1, 100, 200, 500);
    b.next_position = Point { x: 111, y: 222 };
    b.next_velocity = Point { x: -5, y: 6 };
    b.next_radius = 777;
    b.next_ball_state = BallState::Expanding;
    b.apply_tick_changes();
    assert_eq!(b.pos, Point { x: 111, y: 222 });
    assert_eq!(b.velocity, Point { x: -5, y: 6 });
    assert_eq!(b.radius, 777);
    assert_eq!(b.ball_state, BallState::Expanding);
}

#[test]
fn set_captured_is_idempotent() {
    let mut b = test_ball(1, 0, 0, 500);
    assert!(!b.is_captured);
    b.set_captured();
    assert!(b.is_captured);
    b.set_captured();
    assert!(b.is_captured);
}

#[test]
fn pair_ids_are_unordered() {
    let ab = BallPairIds { first: 3, second: 9 };
    let ba = BallPairIds { first: 9, second: 3 };
    assert_eq!(ab, ba);
    assert_eq!(ba, ab);
    assert_eq!(ab, ab);
    let other = BallPairIds { first: 3, second: 10 };
    assert!(ab != other);
    assert_eq!(ab.into_array(), [3, 9]);
    assert_eq!(ba.into_array(), [9, 3]);
}

#[test]
fn circle_collision_uses_sum_of_squared_radii() {
    let a = test_ball(1, 0, 0, 300);
    let b = test_ball(2, 400, 0, 300);
    // distance squared 160000 <= 90000 + 90000
    assert!(BallPair { first: a, second: b }.is_collision());
    let c = test_ball(3, 500, 0, 300);
    // distance squared 250000 > 180000
    assert!(!BallPair { first: a, second: c }.is_collision());
    assert_eq!(spaceballs::ball::balls_distance_squared(a, c), 250000);
}

#[test]
fn bounding_box_collision_uses_the_staged_radius_around_the_live_position() {
    let mut a = test_ball(1, 1000, 1000, 500);
    let b = test_ball(2, 2100, 1000, 500);
    // boxes [500, 1500] and [1600, 2600] do not touch
    assert!(!BallPair { first: a, second: b }.is_collision_bb());
    // growing the staged radius closes the gap even before a commit; the
    // corner heuristic sees it from the smaller box's side only
    a.next_radius = 700;
    assert!(BallPair { first: b, second: a }.is_collision_bb());
    assert!(!BallPair { first: a, second: b }.is_collision_bb());
    let r = a.bounding_rect_current();
    assert_eq!(r.x, 300);
    assert_eq!(r.y, 300);
    assert_eq!(r.w, 1400);
    let n = a.bounding_rect_next();
    assert_eq!(n.x, 300);
    assert_eq!(n.w, 1400);
}

#[test]
fn resolve_collision_active_fires_only_towards_the_second_ball() {
    let mut chain = test_ball(1, 0, 0, 500);
    chain.change_ball_state(BallState::Expanding);
    let mut normal = test_ball(2, 100, 0, 500);
    spaceballs::ball::resolve_collision_active(&mut chain, &mut normal);
    assert_eq!(normal.ball_state, BallState::Expanding);
    assert_eq!(chain.ball_state, BallState::Expanding);

    // the mirrored branch tests the second ball against itself: a normal
    // first ball is never promoted
    let mut normal1 = test_ball(3, 0, 0, 500);
    let mut chain2 = test_ball(4, 100, 0, 500);
    chain2.change_ball_state(BallState::Shrinking);
    spaceballs::ball::resolve_collision_active(&mut normal1, &mut chain2);
    assert_eq!(normal1.ball_state, BallState::Normal);
    assert_eq!(chain2.ball_state, BallState::Shrinking);
}

#[test]
fn resolve_collision_leaves_the_pair_unchanged() {
    let a = test_ball(1, 10, 20, 500);
    let b = test_ball(2, 30, 40, 600);
    let out = spaceballs::ball::resolve_collision(BallPair { first: a, second: b });
    assert_eq!(out.first.id, 1);
    assert_eq!(out.second.id, 2);
    assert_eq!(out.first.pos, a.pos);
    assert_eq!(out.second.radius, b.radius);
}

#[test]
fn edge_and_corner_cell_probes() {
    let b = test_ball(1, 1000, 1000, 500);
    // the left edge midpoint (500, 1000) lies in this cell
    assert!(spaceballs::ball::is_ball_in_cell(0, 900, 600, 200, &b));
    // but no corner of the bounding square does
    assert!(!spaceballs::ball::is_ball_in_cell_diag(0, 900, 400, 200, &b));
    // the top-left corner (500, 500) lies in this one
    assert!(spaceballs::ball::is_ball_in_cell_diag(400, 400, 200, 200, &b));
    assert!(spaceballs::ball::is_point_in_rect(0, 0, 1000, 1000, 500, 500));
    assert!(!spaceballs::ball::is_point_in_rect(0, 0, 1000, 1000, 1001, 500));
}

#[test]
fn random_ball_uses_the_injected_draws() {
    let t = BallType::random_ball_type(1);
    let b = Ball::random_ball(7, WIDTH, HEIGHT, t, 20000, 30000, 180, 220, true, false);
    assert_eq!(b.id, 7);
    assert_eq!(b.pos, Point { x: 20000, y: 30000 });
    assert_eq!(b.velocity, Point { x: -180, y: 220 });
    assert_eq!(b.ball_state, BallState::Normal);
    assert_eq!(b.radius, t.radius);
    assert_eq!(b.next_radius, t.radius);
    assert_eq!(b.next_position, b.pos);
    assert!(!b.is_captured);
}
