//! The orchestrator: game creation, the win/lose rule, the capture-ball
//! spawn, chain propagation and whole ticks.

use spaceballs::ball::{Ball, BallState};
use spaceballs::constants::{HEIGHT, TINY, WIDTH};
use spaceballs::logic::win_lose_outcome;
use spaceballs::logic::{GameResult, GameState, Level, SpawnSeed};

fn seed(x: i64, y: i64) -> SpawnSeed {
    SpawnSeed { pick: 1, pos_x: x, pos_y: y, speed_x: 200, speed_y: 200, neg_x: false, neg_y: false }
}

fn base_seeds() -> Vec<SpawnSeed> {
    let mut v = Vec::new();
    v.push(seed(10000, 10000));
    v.push(seed(10600, 10000));
    v.push(seed(50000, 40000));
    v.push(seed(60000, 45000));
    v.push(seed(70000, 50000));
    v
}

fn new_game() -> GameState {
    GameState::new(WIDTH, HEIGHT, &base_seeds())
}

fn same_ball(a: &Ball, b: &Ball) -> bool {
    a.id == b.id && a.pos == b.pos && a.radius == b.radius && a.velocity == b.velocity
        && a.ball_state == b.ball_state && a.next_position == b.next_position
        && a.next_radius == b.next_radius && a.next_velocity == b.next_velocity
        && a.next_ball_state == b.next_ball_state && a.is_captured == b.is_captured
        && a.color == b.color
}

#[test]
fn a_fresh_game_loads_the_second_level() {
    let game = new_game();
    assert_eq!(game.level_id(), 1);
    assert_eq!(game.shots(), 1);
    assert_eq!(game.captured(), 0);
    assert_eq!(game.captured_required(), 2);
    assert_eq!(game.result(), GameResult::Playing);
    assert!(!game.is_paused());
    let balls = game.balls();
    assert_eq!(balls.len(), 5);
    assert_eq!(balls[0].id, 2);
    assert_eq!(balls[4].id, 6);
    assert_eq!(balls[0].pos.x, 10000);
    assert_eq!(balls[0].radius, TINY);
    assert_eq!(balls[0].ball_state, BallState::Normal);
    assert_eq!(balls[0].velocity.x, 200);
}

#[test]
fn hud_lines_render_the_counters() {
    let game = new_game();
    assert_eq!(game.get_stats(), "CAPTURED: 0 / 2, SHOTS LEFT: 1");
    assert_eq!(game.get_goal(), "LEVEL 1 - CAPTURE 2 SPACEBALLS");
}

#[test]
fn level_new_builds_the_given_level() {
    let l = Level::new(3, 40, 31);
    assert_eq!(l.max_shots, 3);
    assert_eq!(l.num_of_balls, 40);
    assert_eq!(l.num_captured, 31);
}

#[test]
fn win_lose_rule_on_explicit_counters() {
    // out of shots, chain settled: the quota decides
    assert_eq!(win_lose_outcome(0, 0, 5, 5), GameResult::Won);
    assert_eq!(win_lose_outcome(0, 0, 4, 5), GameResult::Lost);
    assert_eq!(win_lose_outcome(0, 0, 6, 5), GameResult::Won);
    // a shot in hand keeps play going regardless of the tally
    assert_eq!(win_lose_outcome(1, 0, 4, 5), GameResult::Playing);
    assert_eq!(win_lose_outcome(1, 0, 5, 5), GameResult::Playing);
    // a chain still in motion keeps play going
    assert_eq!(win_lose_outcome(0, 3, 9, 5), GameResult::Playing);
}

#[test]
fn capture_ball_outside_the_arena_is_a_no_op() {
    let mut game = new_game();
    game.create_capture_ball(-100, 1000);
    assert_eq!(game.shots(), 1);
    assert_eq!(game.balls().len(), 5);
    game.create_capture_ball(WIDTH + 1, 1000);
    assert_eq!(game.shots(), 1);
    assert_eq!(game.balls().len(), 5);
    game.create_capture_ball(1000, HEIGHT + 1);
    assert_eq!(game.shots(), 1);
    assert_eq!(game.balls().len(), 5);
}

#[test]
fn capture_ball_at_a_valid_point_spends_a_shot() {
    let mut game = new_game();
    game.create_capture_ball(70000, 30000);
    assert_eq!(game.shots(), 0);
    let balls = game.balls();
    assert_eq!(balls.len(), 6);
    let shot = &balls[5];
    assert_eq!(shot.pos.x, 70000);
    assert_eq!(shot.pos.y, 30000);
    assert_eq!(shot.ball_state, BallState::Expanding);
    assert_eq!(shot.radius, TINY);
    assert!(shot.is_captured);
    assert_eq!(shot.velocity.x, 0);
    assert_eq!(shot.velocity.y, 0);
    // the id counter moves twice per shot
    assert_eq!(shot.id, 8);

    // with no shots left, another click changes nothing
    game.create_capture_ball(40000, 30000);
    assert_eq!(game.shots(), 0);
    assert_eq!(game.balls().len(), 6);
}

#[test]
fn propagation_captures_the_overlapping_normal_side_once() {
    let mut game = new_game();
    // fired between the two adjacent balls: it overlaps both boxes
    game.create_capture_ball(10300, 9100);
    game.update_quadtree();
    game.handle_collisions();
    {
        let balls = game.balls();
        // both neighbors staged towards the chain, live state untouched
        assert_eq!(balls[0].ball_state, BallState::Normal);
        assert_eq!(balls[0].next_ball_state, BallState::Expanding);
        assert!(balls[0].is_captured);
        assert_eq!(balls[1].next_ball_state, BallState::Expanding);
        assert!(balls[1].is_captured);
        // the distant balls are untouched
        assert_eq!(balls[2].next_ball_state, BallState::Normal);
        assert!(!balls[2].is_captured);
        assert!(!balls[3].is_captured);
        assert!(!balls[4].is_captured);
    }

    // applying the rule again over the same candidate set changes nothing
    let before: Vec<Ball> = game.balls().clone();
    game.update_quadtree();
    game.handle_collisions();
    let after = game.balls();
    assert_eq!(before.len(), after.len());
    for i in 0..before.len() {
        assert!(same_ball(&before[i], &after[i]));
    }
}

#[test]
fn one_tick_moves_stages_and_commits() {
    let mut game = new_game();
    game.create_capture_ball(10300, 9100);
    game.tick();
    let balls = game.balls();
    assert_eq!(balls.len(), 6);
    // the normal neighbor moved one velocity step and joined the chain
    assert_eq!(balls[0].pos.x, 10200);
    assert_eq!(balls[0].pos.y, 10200);
    assert_eq!(balls[0].ball_state, BallState::Expanding);
    assert!(balls[0].is_captured);
    // the fired ball grew by its growth speed and stayed put
    assert_eq!(balls[5].pos.x, 10300);
    assert_eq!(balls[5].radius, TINY + 100);
    assert_eq!(balls[5].ball_state, BallState::Expanding);
    // play continues while the chain is in motion
    assert_eq!(game.result(), GameResult::Playing);
}

#[test]
fn a_chain_through_two_balls_wins_the_level() {
    let mut game = new_game();
    game.create_capture_ball(10300, 9100);
    let mut ticks = 0;
    while game.result() == GameResult::Playing && ticks < 2000 {
        game.tick();
        ticks += 1;
    }
    assert_eq!(game.result(), GameResult::Won);
    // the fired ball and both captured neighbors vanished
    assert_eq!(game.balls().len(), 3);
    assert!(game.captured() >= 2);
}

#[test]
fn a_shot_into_empty_space_loses_the_level() {
    let mut game = new_game();
    game.create_capture_ball(79000, 1000);
    let mut ticks = 0;
    while game.result() == GameResult::Playing && ticks < 2000 {
        game.tick();
        ticks += 1;
    }
    assert_eq!(game.result(), GameResult::Lost);
    // only the fired ball itself vanished
    assert_eq!(game.balls().len(), 5);
    assert_eq!(game.captured(), 1);
}

#[test]
fn next_level_tops_up_and_keeps_survivors() {
    let mut game = new_game();
    let mut more = Vec::new();
    more.push(seed(20000, 20000));
    more.push(seed(30000, 20000));
    more.push(seed(40000, 20000));
    game.next_level(&more);
    assert_eq!(game.level_id(), 2);
    assert_eq!(game.captured_required(), 3);
    assert_eq!(game.shots(), 1);
    assert_eq!(game.captured(), 0);
    assert_eq!(game.result(), GameResult::Playing);
    let balls = game.balls();
    assert_eq!(balls.len(), 8);
    // the survivors stay, the newcomers take fresh ids
    assert_eq!(balls[0].id, 2);
    assert_eq!(balls[4].id, 6);
    assert_eq!(balls[5].id, 7);
    assert_eq!(balls[7].id, 9);
    assert_eq!(balls[5].pos.x, 20000);
}

#[test]
fn restart_resets_counters_without_clearing_survivors() {
    let mut game = new_game();
    game.create_capture_ball(79000, 1000);
    assert_eq!(game.shots(), 0);
    let empty: Vec<SpawnSeed> = Vec::new();
    game.restart(&empty);
    assert_eq!(game.level_id(), 1);
    assert_eq!(game.shots(), 1);
    assert_eq!(game.captured(), 0);
    assert_eq!(game.result(), GameResult::Playing);
    // the fired ball survives the reset; the population was already full
    assert_eq!(game.balls().len(), 6);
}

#[test]
fn pause_toggles_and_switches_debug_rendering_on() {
    let mut game = new_game();
    assert!(!game.is_paused());
    game.pause_play();
    assert!(game.is_paused());
    game.pause_play();
    assert!(!game.is_paused());
    game.quit();
}

#[test]
fn fresh_game_reports_playing() {
    let game = new_game();
    assert_eq!(game.check_win_lose(), GameResult::Playing);
    // empty-tree rectangles come from the initial index
    let rects = game.get_rectangles();
    assert!(!rects.is_empty());
    assert!(!rects.last().unwrap().many);
}
