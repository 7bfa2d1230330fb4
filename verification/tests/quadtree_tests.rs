//! The loose quadtree: insertion, search, and the round trip against
//! brute-force pairwise testing.

use spaceballs::ball::{Ball, BallPair, BallPairIds, BallState, Color};
use spaceballs::constants::{FULL, GROWS, HEIGHT, WIDTH};
use spaceballs::geometry::Point;
use spaceballs::geometry::Rect;
use spaceballs::quadtree::QuadTreeNode;

fn test_ball(id: usize, x: i64, y: i64, r: i64) -> Ball {
    Ball {
        id,
        ball_type: "TEST_BALL",
        pos: Point { x, y },
        radius: r,
        velocity: Point { x: 0, y: 0 },
        color: Color { r: 0, g: 0, b: 0 },
        ball_state: BallState::Normal,
        radius_growth: GROWS,
        max_radius: FULL,
        next_position: Point { x, y },
        next_radius: r,
        next_velocity: Point { x: 0, y: 0 },
        next_ball_state: BallState::Normal,
        is_captured: false,
    }
}

fn arena() -> Rect {
    Rect { x: 0, y: 0, w: WIDTH, h: HEIGHT }
}

fn build_tree(balls: &[Ball]) -> Box<QuadTreeNode> {
    let mut root = QuadTreeNode::new(arena(), 0, 0).unwrap();
    for b in balls {
        root.insert_ball(b);
    }
    root
}

fn overlap(a: &Ball, b: &Ball) -> bool {
    let ab = BallPair { first: *a, second: *b };
    let ba = BallPair { first: *b, second: *a };
    ab.is_collision_bb() || ba.is_collision_bb()
}

fn brute_force_pairs(balls: &[Ball]) -> Vec<BallPairIds> {
    let mut out: Vec<BallPairIds> = Vec::new();
    for i in 0..balls.len() {
        for j in (i + 1)..balls.len() {
            if overlap(&balls[i], &balls[j]) {
                out.push(BallPairIds { first: balls[i].id, second: balls[j].id });
            }
        }
    }
    out
}

fn contains_pair(v: &[BallPairIds], p: &BallPairIds) -> bool {
    v.iter().any(|q| q == p)
}

fn gathered_candidates(tree: &QuadTreeNode, balls: &[Ball]) -> Vec<BallPairIds> {
    let mut out: Vec<BallPairIds> = Vec::new();
    for b in balls {
        for p in tree.search(b.id) {
            if !contains_pair(&out, &p) {
                out.push(p);
            }
        }
    }
    out
}

/// The round trip: searching every id, unioned and deduplicated, then
/// filtered by the bounding-box overlap test, reproduces exactly the
/// overlapping pairs that brute-force pairwise testing finds.
fn assert_round_trip(balls: &[Ball]) {
    let tree = build_tree(balls);
    let candidates = gathered_candidates(&tree, balls);
    let brute = brute_force_pairs(balls);
    for p in &brute {
        assert!(contains_pair(&candidates, p), "overlapping pair missed by the index");
    }
    for p in &candidates {
        let a = balls.iter().find(|b| b.id == p.first).unwrap();
        let b = balls.iter().find(|b| b.id == p.second).unwrap();
        if overlap(a, b) {
            assert!(contains_pair(&brute, p));
        }
    }
}

#[test]
fn empty_tree_finds_nothing() {
    let tree = build_tree(&[]);
    assert!(!tree.contains(1));
    assert!(!tree.contains_in_children(1));
    assert!(tree.search(1).is_empty());
}

#[test]
fn a_lone_ball_has_no_candidates() {
    let balls = [test_ball(1, 10000, 10000, 500)];
    let tree = build_tree(&balls);
    assert!(tree.contains(1));
    assert!(tree.search(1).is_empty());
}

#[test]
fn two_overlapping_balls_surface_from_either_search() {
    let balls = [test_ball(1, 10000, 10000, 500), test_ball(2, 10600, 10000, 500)];
    let tree = build_tree(&balls);
    let pair = BallPairIds { first: 1, second: 2 };
    let from_first = tree.search(1);
    let from_second = tree.search(2);
    assert!(contains_pair(&from_first, &pair) || contains_pair(&from_second, &pair));
    assert_round_trip(&balls);
}

#[test]
fn distant_small_balls_are_separated() {
    let balls = [
        test_ball(1, 10000, 10000, 500),
        test_ball(2, 70000, 10000, 500),
        test_ball(3, 10000, 50000, 500),
        test_ball(4, 70000, 50000, 500),
    ];
    let tree = build_tree(&balls);
    for b in &balls {
        assert!(tree.search(b.id).is_empty());
    }
    assert_round_trip(&balls);
}

#[test]
fn round_trip_over_clusters_and_stragglers() {
    let balls = [
        test_ball(1, 10000, 10000, 500),
        test_ball(2, 10400, 10300, 500),
        test_ball(3, 11000, 9800, 700),
        test_ball(4, 70000, 50000, 2500),
        test_ball(5, 70800, 52000, 800),
        test_ball(6, 40000, 30000, 5000),
        test_ball(7, 35500, 30000, 500),
        test_ball(8, 60000, 8000, 500),
    ];
    assert_round_trip(&balls);
}

#[test]
fn round_trip_with_boundary_straddlers() {
    // balls sitting right on quadrant boundaries never descend, so they
    // stay candidates of everything sharing their node
    let balls = [
        test_ball(1, 40000, 30000, 2000),
        test_ball(2, 40000, 10000, 1000),
        test_ball(3, 20000, 30000, 1000),
        test_ball(4, 41000, 29000, 500),
        test_ball(5, 5000, 5000, 500),
    ];
    assert_round_trip(&balls);
}

#[test]
fn candidates_can_exceed_the_overlapping_pairs() {
    // two big balls straddling the center rest together at the root and
    // become candidates although their boxes never touch: the candidate
    // set is a superset, and the overlap filter does the final cut
    let balls = [test_ball(1, 39000, 29000, 6000), test_ball(2, 41000, 31000, 6000)];
    assert_round_trip(&balls);
    let wide = [test_ball(1, 20000, 29500, 4000), test_ball(2, 60000, 30500, 4000)];
    let tree = build_tree(&wide);
    let pair = BallPairIds { first: 1, second: 2 };
    let candidates = gathered_candidates(&tree, &wide);
    assert!(contains_pair(&candidates, &pair));
    assert!(!overlap(&wide[0], &wide[1]));
    assert_round_trip(&wide);
}

#[test]
fn rectangles_flag_crowded_leaves() {
    let balls = [test_ball(1, 10000, 10000, 500), test_ball(2, 10600, 10000, 500)];
    let tree = build_tree(&balls);
    let rects = tree.get_rectangles();
    // the root region is always reported, last; both balls descended, so
    // the root has children and is not a crowded leaf
    let root_rect = rects.last().unwrap();
    assert_eq!(root_rect.rect, arena());
    assert!(!root_rect.many);

    // two balls straddling the center rest at the root, which then is a
    // childless node holding more than one ball: a crowded leaf
    let straddlers = [test_ball(1, 39800, 29800, 500), test_ball(2, 40200, 30200, 500)];
    let rtree = build_tree(&straddlers);
    let rrects = rtree.get_rectangles();
    assert_eq!(rrects.len(), 1);
    assert_eq!(rrects[0].rect, arena());
    assert!(rrects[0].many);
}

#[test]
fn info_collisions_collects_nothing() {
    let balls = [test_ball(1, 10000, 10000, 500), test_ball(2, 10600, 10000, 500)];
    let tree = build_tree(&balls);
    assert!(tree.info_collisions().is_empty());
}
