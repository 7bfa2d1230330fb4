//! Rectangle algebra: containment, the corner heuristic, quadrant
//! splitting and centroid-relative classification.

use spaceballs::geometry::{Cells, Point, Rect};

#[test]
fn point_containment_is_closed() {
    let r = Rect { x: 0, y: 0, w: 100, h: 50 };
    assert!(Point { x: 0, y: 0 }.is_in_rect(&r));
    assert!(Point { x: 100, y: 50 }.is_in_rect(&r));
    assert!(Point { x: 50, y: 25 }.is_in_rect(&r));
    assert!(!Point { x: 101, y: 25 }.is_in_rect(&r));
    assert!(!Point { x: 50, y: -1 }.is_in_rect(&r));
}

#[test]
fn intersects_is_corner_based_and_asymmetric() {
    let big = Rect { x: 0, y: 0, w: 1000, h: 1000 };
    let small = Rect { x: 400, y: 400, w: 100, h: 100 };
    // no corner of the big box lies in the small one
    assert!(!big.intersects(small));
    // but every corner of the small box lies in the big one
    assert!(small.intersects(big));
    // disjoint boxes intersect in neither direction
    let far = Rect { x: 2000, y: 2000, w: 10, h: 10 };
    assert!(!big.intersects(far));
    assert!(!far.intersects(big));
}

#[test]
fn fits_is_strict_interior_containment() {
    let outer = Rect { x: 0, y: 0, w: 100, h: 100 };
    assert!(Rect { x: 1, y: 1, w: 98, h: 98 }.fits(outer));
    // touching an edge is not fitting
    assert!(!Rect { x: 0, y: 1, w: 98, h: 98 }.fits(outer));
    assert!(!Rect { x: 1, y: 1, w: 99, h: 98 }.fits(outer));
    // equal boxes do not fit
    assert!(!outer.fits(outer));
}

#[test]
fn split_halves_both_dimensions() {
    let r = Rect { x: 10, y: 20, w: 100, h: 60 };
    let (tl, tr, bl, br) = r.split_to_four_cells();
    assert_eq!(tl, Rect { x: 10, y: 20, w: 50, h: 30 });
    assert_eq!(tr, Rect { x: 60, y: 20, w: 50, h: 30 });
    assert_eq!(bl, Rect { x: 10, y: 50, w: 50, h: 30 });
    assert_eq!(br, Rect { x: 60, y: 50, w: 50, h: 30 });
    assert_eq!(tl, r.top_left());
    assert_eq!(tr, r.top_right());
    assert_eq!(bl, r.bottom_left());
    assert_eq!(br, r.bottom_right());
}

#[test]
fn split_rounds_odd_sizes_down() {
    let r = Rect { x: 0, y: 0, w: 101, h: 61 };
    let (tl, _, _, br) = r.split_to_four_cells();
    assert_eq!(tl.w, 50);
    assert_eq!(tl.h, 30);
    assert_eq!(br, Rect { x: 50, y: 30, w: 50, h: 30 });
}

#[test]
fn center_rounds_down() {
    let r = Rect { x: 0, y: 0, w: 101, h: 61 };
    let c = r.center();
    assert_eq!(c, Point { x: 50, y: 30 });
}

#[test]
fn random_point_and_velocity_carry_the_injected_draws() {
    let p = Point::random_point(80000, 60000, 20000, 30000);
    assert_eq!(p, Point { x: 20000, y: 30000 });
    let v = Point::random_velocity(160, 240, 200, 170, true, false);
    assert_eq!(v, Point { x: -200, y: 170 });
    let w = Point::random_velocity(160, 240, 160, 240, false, true);
    assert_eq!(w, Point { x: 160, y: -240 });
}

#[test]
fn quadrant_classification_ties_favor_top_left() {
    let r = Rect { x: 0, y: 0, w: 100, h: 100 };
    // the center itself counts as top-left
    assert_eq!(r.where_is_point_relative_to_center(Point { x: 50, y: 50 }), Cells::TopLeft);
    assert_eq!(r.where_is_point_relative_to_center(Point { x: 51, y: 50 }), Cells::TopRight);
    assert_eq!(r.where_is_point_relative_to_center(Point { x: 50, y: 51 }), Cells::BottomLeft);
    assert_eq!(r.where_is_point_relative_to_center(Point { x: 51, y: 51 }), Cells::BottomRight);
    assert_eq!(r.where_is_point_relative_to_center(Point { x: 10, y: 90 }), Cells::BottomLeft);
}
