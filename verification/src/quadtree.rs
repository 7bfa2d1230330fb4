//! The loose quadtree spatial index.
//!
//! Every node on a ball's insertion path retains the ball, so ancestors see
//! all descendants; a ball descends into a child quadrant only while its
//! bounding box fits entirely inside it. Large or boundary-straddling balls
//! therefore rest at shallow nodes, which is what guarantees that two balls
//! with overlapping boxes always share the deepest node of one of them.

use vstd::prelude::*;

use crate::ball::{ball_fields_bounded, pair_key, Ball, BallPairIds, spec_bounding_rect_current};
use crate::geometry::{
    cell_of, lemma_separate_cells_no_overlap, rect_bounded, rect_fits, rects_overlap,
    spec_quadrant, Cells, Rect, RenderingRect,
};

verus! {

/// A node of the quadtree: its region, a hierarchical debug id, its depth,
/// the balls held at this node, and four lazily created children.
pub struct QuadTreeNode {
    rect: Rect,
    id: u64,
    depth: usize,
    balls: Vec<Ball>,
    top_left: ChildNode,
    top_right: ChildNode,
    bottom_left: ChildNode,
    bottom_right: ChildNode,
}

pub type ChildNode = Option<Box<QuadTreeNode>>;

/// A ball the index accepts: bounded coordinates and a positive staged
/// radius, so its bounding box is a well-formed rectangle.
pub open spec fn tree_ball_ok(b: Ball) -> bool {
    &&& ball_fields_bounded(b)
    &&& 1 <= b.next_radius
}

/// No two balls of the sequence share an id.
pub open spec fn ids_distinct(s: Seq<Ball>) -> bool {
    forall|i: int, j: int| 0 <= i < j < s.len() ==> s[i].id != s[j].id
}

/// Which quadrant of region `r` the ball's center falls in.
pub open spec fn ball_quadrant(r: Rect, b: Ball) -> Cells {
    spec_quadrant(r, b.pos)
}

/// The ball's bounding box fits entirely inside `cell`.
pub open spec fn ball_fits(b: Ball, cell: Rect) -> bool {
    rect_fits(spec_bounding_rect_current(b), cell)
}

/// The bounding boxes of two balls overlap, by the symmetric closure of the
/// corner heuristic.
pub open spec fn balls_overlap(a: Ball, b: Ball) -> bool {
    rects_overlap(spec_bounding_rect_current(a), spec_bounding_rect_current(b))
}

/// The node id `id` has room for the hierarchical numbering of every child
/// that a region of width `w` can still produce: children get `10 * id + k`
/// with `k` in `1 ..= 4`, and a region narrower than 8 units cannot hold a
/// ball box strictly inside a child, so it never descends.
pub open spec fn id_ok(id: int, w: int) -> bool
    decreases w,
{
    w < 8 || (id * 10 + 4 <= u64::MAX && id_ok(id * 10 + 4, w / 2))
}

/// `id_ok` is monotone: headroom for a larger id covers a smaller one.
pub proof fn lemma_id_ok_mono_id(id1: int, id2: int, w: int)
    requires
        0 <= id1 <= id2,
        id_ok(id2, w),
    ensures
        id_ok(id1, w),
    decreases w,
{
    if w >= 8 {
        lemma_id_ok_mono_id(id1 * 10 + 4, id2 * 10 + 4, w / 2);
    }
}

/// A root node numbered zero has id headroom for any region no wider than
/// the arena.
pub proof fn lemma_root_id_ok(w: i64)
    requires
        0 <= w <= crate::constants::WIDTH,
    ensures
        id_ok(0, w as int),
{
    // The widths halve from the arena width down to below 8, and the worst
    // child id gains a digit 4 at each level; each product and quotient is
    // spelled out because ground multiplication is not evaluated for free.
    lemma_id_ok_base(44444444444444, 4);
    assert(4444444444444int * 10 + 4 == 44444444444444int) by (nonlinear_arith);
    assert(9int / 2 == 4int) by (nonlinear_arith);
    lemma_id_ok_step(4444444444444, 9);
    assert(444444444444int * 10 + 4 == 4444444444444int) by (nonlinear_arith);
    assert(19int / 2 == 9int) by (nonlinear_arith);
    lemma_id_ok_step(444444444444, 19);
    assert(44444444444int * 10 + 4 == 444444444444int) by (nonlinear_arith);
    assert(39int / 2 == 19int) by (nonlinear_arith);
    lemma_id_ok_step(44444444444, 39);
    assert(4444444444int * 10 + 4 == 44444444444int) by (nonlinear_arith);
    assert(78int / 2 == 39int) by (nonlinear_arith);
    lemma_id_ok_step(4444444444, 78);
    assert(444444444int * 10 + 4 == 4444444444int) by (nonlinear_arith);
    assert(156int / 2 == 78int) by (nonlinear_arith);
    lemma_id_ok_step(444444444, 156);
    assert(44444444int * 10 + 4 == 444444444int) by (nonlinear_arith);
    assert(312int / 2 == 156int) by (nonlinear_arith);
    lemma_id_ok_step(44444444, 312);
    assert(4444444int * 10 + 4 == 44444444int) by (nonlinear_arith);
    assert(625int / 2 == 312int) by (nonlinear_arith);
    lemma_id_ok_step(4444444, 625);
    assert(444444int * 10 + 4 == 4444444int) by (nonlinear_arith);
    assert(1250int / 2 == 625int) by (nonlinear_arith);
    lemma_id_ok_step(444444, 1250);
    assert(44444int * 10 + 4 == 444444int) by (nonlinear_arith);
    assert(2500int / 2 == 1250int) by (nonlinear_arith);
    lemma_id_ok_step(44444, 2500);
    assert(4444int * 10 + 4 == 44444int) by (nonlinear_arith);
    assert(5000int / 2 == 2500int) by (nonlinear_arith);
    lemma_id_ok_step(4444, 5000);
    assert(444int * 10 + 4 == 4444int) by (nonlinear_arith);
    assert(10000int / 2 == 5000int) by (nonlinear_arith);
    lemma_id_ok_step(444, 10000);
    assert(44int * 10 + 4 == 444int) by (nonlinear_arith);
    assert(20000int / 2 == 10000int) by (nonlinear_arith);
    lemma_id_ok_step(44, 20000);
    assert(4int * 10 + 4 == 44int) by (nonlinear_arith);
    assert(40000int / 2 == 20000int) by (nonlinear_arith);
    lemma_id_ok_step(4, 40000);
    assert(0int * 10 + 4 == 4int) by (nonlinear_arith);
    assert(80000int / 2 == 40000int) by (nonlinear_arith);
    lemma_id_ok_step(0, 80000);
    lemma_id_ok_mono_w(0, w as int, crate::constants::WIDTH as int);
}

/// The base of the id headroom invariant: a narrow region never descends.
proof fn lemma_id_ok_base(id: int, w: int)
    requires
        w < 8,
    ensures
        id_ok(id, w),
{
}

/// One step of the id headroom invariant: headroom for the largest child
/// number carries the invariant up one level.
proof fn lemma_id_ok_step(id: int, w: int)
    requires
        8 <= w,
        id * 10 + 4 <= u64::MAX,
        id_ok(id * 10 + 4, w / 2),
    ensures
        id_ok(id, w),
{
}

/// `id_ok` is antitone in the width: headroom for a wider region covers a
/// narrower one.
pub proof fn lemma_id_ok_mono_w(id: int, w1: int, w2: int)
    requires
        0 <= id,
        0 <= w1 <= w2,
        id_ok(id, w2),
    ensures
        id_ok(id, w1),
    decreases w2,
{
    if w1 >= 8 {
        assert(w1 / 2 <= w2 / 2);
        lemma_id_ok_mono_w(id * 10 + 4, w1 / 2, w2 / 2);
    }
}

/// A child's ball list contains the exact ball value `b`.
pub closed spec fn child_has_ball(c: ChildNode, b: Ball) -> bool {
    match c {
        None => false,
        Some(n) => n.balls@.contains(b),
    }
}

/// A child's ball list holds some ball with id `id`.
pub closed spec fn child_has_id(c: ChildNode, id: usize) -> bool {
    match c {
        None => false,
        Some(n) => n.has_id(id),
    }
}

impl QuadTreeNode {
    /// The region this node indexes.
    pub closed spec fn spec_rect(self) -> Rect {
        self.rect
    }

    /// The balls held at this node; because every node on an insertion path
    /// retains the ball, this is the ball set of the whole subtree.
    pub closed spec fn spec_balls(self) -> Seq<Ball> {
        self.balls@
    }

    /// The child in quadrant `c`.
    pub closed spec fn child(self, c: Cells) -> ChildNode {
        match c {
            Cells::TopLeft => self.top_left,
            Cells::TopRight => self.top_right,
            Cells::BottomLeft => self.bottom_left,
            Cells::BottomRight => self.bottom_right,
        }
    }

    /// Some ball with id `id` rests at this node.
    pub open spec fn has_id(self, id: usize) -> bool {
        exists|i: int| 0 <= i < self.spec_balls().len() && self.spec_balls()[i].id == id
    }

    /// The ball placement rule: a ball whose box fits entirely inside the
    /// child quadrant of its center also lives in that child.
    pub open spec fn placed(self, b: Ball) -> bool {
        ball_fits(b, cell_of(self.spec_rect(), ball_quadrant(self.spec_rect(), b)))
            ==> child_has_ball(self.child(ball_quadrant(self.spec_rect(), b)), b)
    }

    /// Well-formedness of the child in quadrant `c`: it covers exactly that
    /// quadrant cell, is itself well-formed, and holds only balls of this
    /// node that belong to that quadrant and fit inside it.
    pub closed spec fn wf_child(self, c: Cells) -> bool
        decreases self, 0int,
    {
        match self.child(c) {
            None => true,
            Some(n) => {
                &&& n.rect == cell_of(self.rect, c)
                &&& self.rect.w >= 2
                &&& n.wf()
                &&& forall|i: int|
                    0 <= i < n.balls@.len() ==> {
                        let b = #[trigger] n.balls@[i];
                        &&& self.balls@.contains(b)
                        &&& ball_quadrant(self.rect, b) == c
                        &&& ball_fits(b, n.rect)
                    }
            },
        }
    }

    /// Well-formedness of the whole subtree.
    pub closed spec fn wf(self) -> bool
        decreases self, 1int,
    {
        &&& rect_bounded(self.rect)
        &&& self.depth + self.rect.w <= usize::MAX
        &&& id_ok(self.id as int, self.rect.w as int)
        &&& ids_distinct(self.balls@)
        &&& forall|i: int| 0 <= i < self.balls@.len() ==> tree_ball_ok(#[trigger] self.balls@[i])
        &&& self.wf_child(Cells::TopLeft)
        &&& self.wf_child(Cells::TopRight)
        &&& self.wf_child(Cells::BottomLeft)
        &&& self.wf_child(Cells::BottomRight)
        &&& forall|i: int| 0 <= i < self.balls@.len() ==> self.placed(#[trigger] self.balls@[i])
    }

    /// An empty node over `rect`, boxed the way the children are stored.
    pub fn new(rect: Rect, id: u64, depth: usize) -> (res: ChildNode)
        requires
            rect_bounded(rect),
            depth + rect.w <= usize::MAX,
            id_ok(id as int, rect.w as int),
        ensures
            res is Some,
            res.unwrap().wf(),
            res.unwrap().spec_rect() == rect,
            res.unwrap().spec_balls() =~= Seq::<Ball>::empty(),
    {
        let balls: Vec<Ball> = Vec::new();
        Some(
            Box::new(
                Self {
                    rect,
                    id,
                    depth,
                    balls,
                    top_left: None,
                    top_right: None,
                    bottom_left: None,
                    bottom_right: None,
                },
            ),
        )
    }

    /// An empty node over the top-left quadrant, numbered `10 * id + 1`.
    pub fn new_top_left(&self) -> (res: ChildNode)
        requires
            self.wf(),
            self.spec_rect().w >= 8,
        ensures
            res is Some,
            res.unwrap().wf(),
            res.unwrap().spec_rect() == cell_of(self.spec_rect(), Cells::TopLeft),
            res.unwrap().spec_balls() =~= Seq::<Ball>::empty(),
    {
        proof {
            self.child_creation_facts(Cells::TopLeft);
        }
        QuadTreeNode::new(self.rect.top_left(), self.id * 10 + 1, self.depth + 1)
    }

    /// An empty node over the top-right quadrant, numbered `10 * id + 2`.
    pub fn new_top_right(&self) -> (res: ChildNode)
        requires
            self.wf(),
            self.spec_rect().w >= 8,
        ensures
            res is Some,
            res.unwrap().wf(),
            res.unwrap().spec_rect() == cell_of(self.spec_rect(), Cells::TopRight),
            res.unwrap().spec_balls() =~= Seq::<Ball>::empty(),
    {
        proof {
            self.child_creation_facts(Cells::TopRight);
        }
        QuadTreeNode::new(self.rect.top_right(), self.id * 10 + 2, self.depth + 1)
    }

    /// An empty node over the bottom-left quadrant, numbered `10 * id + 3`.
    pub fn new_bottom_left(&self) -> (res: ChildNode)
        requires
            self.wf(),
            self.spec_rect().w >= 8,
        ensures
            res is Some,
            res.unwrap().wf(),
            res.unwrap().spec_rect() == cell_of(self.spec_rect(), Cells::BottomLeft),
            res.unwrap().spec_balls() =~= Seq::<Ball>::empty(),
    {
        proof {
            self.child_creation_facts(Cells::BottomLeft);
        }
        QuadTreeNode::new(self.rect.bottom_left(), self.id * 10 + 3, self.depth + 1)
    }

    /// An empty node over the bottom-right quadrant, numbered `10 * id + 4`.
    pub fn new_bottom_right(&self) -> (res: ChildNode)
        requires
            self.wf(),
            self.spec_rect().w >= 8,
        ensures
            res is Some,
            res.unwrap().wf(),
            res.unwrap().spec_rect() == cell_of(self.spec_rect(), Cells::BottomRight),
            res.unwrap().spec_balls() =~= Seq::<Ball>::empty(),
    {
        proof {
            self.child_creation_facts(Cells::BottomRight);
        }
        QuadTreeNode::new(self.rect.bottom_right(), self.id * 10 + 4, self.depth + 1)
    }

    /// A wide enough well-formed node can hand each child a bounded cell,
    /// a fresh depth and an id with headroom.
    proof fn child_creation_facts(self, c: Cells)
        requires
            self.wf(),
            self.rect.w >= 8,
        ensures
            rect_bounded(cell_of(self.rect, c)),
            self.depth + 1 + cell_of(self.rect, c).w <= usize::MAX,
            self.id * 10 + 4 <= u64::MAX,
            id_ok(self.id * 10 + 1, cell_of(self.rect, c).w as int),
            id_ok(self.id * 10 + 2, cell_of(self.rect, c).w as int),
            id_ok(self.id * 10 + 3, cell_of(self.rect, c).w as int),
            id_ok(self.id * 10 + 4, cell_of(self.rect, c).w as int),
    {
        assert(id_ok(self.id as int, self.rect.w as int));
        assert(id_ok(self.id * 10 + 4, self.rect.w as int / 2));
        assert(cell_of(self.rect, c).w == self.rect.w as int / 2);
        lemma_id_ok_mono_id(self.id * 10 + 1, self.id * 10 + 4, self.rect.w as int / 2);
        lemma_id_ok_mono_id(self.id * 10 + 2, self.id * 10 + 4, self.rect.w as int / 2);
        lemma_id_ok_mono_id(self.id * 10 + 3, self.id * 10 + 4, self.rect.w as int / 2);
    }

    /// Whether a ball with id `id` rests at this node.
    pub fn contains(&self, id: usize) -> (res: bool)
        ensures
            res == self.has_id(id),
    {
        let mut i: usize = 0;
        while i < self.balls.len()
            invariant
                0 <= i <= self.balls.len(),
                forall|j: int| 0 <= j < i ==> self.balls@[j].id != id,
            decreases self.balls.len() - i,
        {
            if self.balls[i].id == id {
                return true;
            }
            i += 1;
        }
        false
    }

    /// Whether the given child holds a ball with id `id`.
    fn child_node_contains(child: &ChildNode, id: usize) -> (res: bool)
        ensures
            res == child_has_id(*child, id),
    {
        if child.is_some() {
            return child.as_ref().unwrap().contains(id);
        }
        false
    }

    /// Whether some child of this node holds a ball with id `id`.
    pub fn contains_in_children(&self, id: usize) -> (res: bool)
        ensures
            res == (child_has_id(self.child(Cells::TopLeft), id) || child_has_id(
                self.child(Cells::TopRight),
                id,
            ) || child_has_id(self.child(Cells::BottomLeft), id) || child_has_id(
                self.child(Cells::BottomRight),
                id,
            )),
    {
        if QuadTreeNode::child_node_contains(&self.top_left, id)
            || QuadTreeNode::child_node_contains(&self.top_right, id)
            || QuadTreeNode::child_node_contains(&self.bottom_left, id)
            || QuadTreeNode::child_node_contains(&self.bottom_right, id) {
            return true;
        }
        false
    }

    /// Insert a ball with a fresh id: the ball joins this node's list, and
    /// descends into the quadrant child of its center for as long as its
    /// bounding box fits entirely inside that quadrant.
    pub fn insert_ball(&mut self, ball: &Ball)
        requires
            old(self).wf(),
            !old(self).has_id(ball.id),
            tree_ball_ok(*ball),
        ensures
            final(self).wf(),
            final(self).spec_balls() == old(self).spec_balls().push(*ball),
            final(self).spec_rect() == old(self).spec_rect(),
        decreases old(self).spec_rect().w,
    {
        let ghost prior: QuadTreeNode = *self;
        let new_cells = self.rect.split_to_four_cells();
        let ball_box = ball.bounding_rect_current();

        self.balls.push(*ball);

        let quadrant = self.rect.where_is_point_relative_to_center(ball.pos);
        let fits = match quadrant {
            Cells::TopLeft => ball_box.fits(new_cells.0),
            Cells::TopRight => ball_box.fits(new_cells.1),
            Cells::BottomLeft => ball_box.fits(new_cells.2),
            Cells::BottomRight => ball_box.fits(new_cells.3),
        };
        if !fits {
            proof {
                lemma_insert_no_descent(prior, *self, *ball);
            }
            return ;
        }
        proof {
            lemma_fits_makes_wide(*ball, prior.rect, quadrant);
            lemma_child_fresh(prior, quadrant, ball.id);
        }

        let taken: ChildNode = match quadrant {
            Cells::TopLeft => self.top_left.take(),
            Cells::TopRight => self.top_right.take(),
            Cells::BottomLeft => self.bottom_left.take(),
            Cells::BottomRight => self.bottom_right.take(),
        };
        let mut child: Box<QuadTreeNode> = match taken {
            Some(c) => c,
            None => {
                proof {
                    prior.child_creation_facts(quadrant);
                }
                let cell = match quadrant {
                    Cells::TopLeft => self.rect.top_left(),
                    Cells::TopRight => self.rect.top_right(),
                    Cells::BottomLeft => self.rect.bottom_left(),
                    Cells::BottomRight => self.rect.bottom_right(),
                };
                let sub_id = match quadrant {
                    Cells::TopLeft => self.id * 10 + 1,
                    Cells::TopRight => self.id * 10 + 2,
                    Cells::BottomLeft => self.id * 10 + 3,
                    Cells::BottomRight => self.id * 10 + 4,
                };
                QuadTreeNode::new(cell, sub_id, self.depth + 1).unwrap()
            },
        };
        let ghost sub_prior: Seq<Ball> = child.balls@;
        child.insert_ball(ball);
        match quadrant {
            Cells::TopLeft => {
                self.top_left = Some(child);
            },
            Cells::TopRight => {
                self.top_right = Some(child);
            },
            Cells::BottomLeft => {
                self.bottom_left = Some(child);
            },
            Cells::BottomRight => {
                self.bottom_right = Some(child);
            },
        }
        proof {
            lemma_insert_descent(prior, *self, *ball, quadrant, sub_prior);
        }
    }
}

/// A bounding box can fit strictly inside a quadrant cell only if the parent
/// region is at least 8 units wide: the cell must exceed the box by a unit
/// on each side, and the box of an accepted ball is at least 2 units wide.
proof fn lemma_fits_makes_wide(ball: Ball, r: Rect, q: Cells)
    requires
        rect_bounded(r),
        tree_ball_ok(ball),
        ball_fits(ball, cell_of(r, q)),
    ensures
        r.w >= 8,
{
    let bb = spec_bounding_rect_current(ball);
    let cell = cell_of(r, q);
    assert(bb.w >= 2);
    assert(cell.w > bb.w + 1);
    assert(cell.w == r.w / 2);
}

/// A fresh id at a node is fresh in each of its children, whose balls all
/// also rest at the node itself.
proof fn lemma_child_fresh(prior: QuadTreeNode, q: Cells, id: usize)
    requires
        prior.wf(),
        !prior.has_id(id),
    ensures
        !child_has_id(prior.child(q), id),
{
    match prior.child(q) {
        None => {},
        Some(n) => {
            assert(prior.wf_child(q));
            if n.has_id(id) {
                let i = choose|i: int| 0 <= i < n.balls@.len() && n.balls@[i].id == id;
                let b = n.balls@[i];
                assert(prior.balls@.contains(b));
                let j = choose|j: int| 0 <= j < prior.balls@.len() && prior.balls@[j] == b;
                assert(prior.balls@[j].id == id);
                assert(false);
            }
        },
    }
}

/// A child's well-formedness relative to its parent survives the parent's
/// ball list growing, as long as the child and the region stay the same.
proof fn lemma_wf_child_weaken(prior: QuadTreeNode, cur: QuadTreeNode, c: Cells)
    requires
        prior.wf_child(c),
        cur.child(c) == prior.child(c),
        cur.rect == prior.rect,
        forall|x: Ball| prior.balls@.contains(x) ==> #[trigger] cur.balls@.contains(x),
    ensures
        cur.wf_child(c),
{
    match cur.child(c) {
        None => {},
        Some(n) => {
            assert forall|i: int| 0 <= i < n.balls@.len() implies {
                let b = #[trigger] n.balls@[i];
                &&& cur.balls@.contains(b)
                &&& ball_quadrant(cur.rect, b) == c
                &&& ball_fits(b, n.rect)
            } by {
                assert(prior.balls@.contains(n.balls@[i]));
            }
        },
    }
}

/// The distinctness and boundedness clauses of `wf` survive pushing a fresh,
/// accepted ball.
proof fn lemma_insert_balls_ok(prior: QuadTreeNode, cur: QuadTreeNode, ball: Ball)
    requires
        prior.wf(),
        !prior.has_id(ball.id),
        tree_ball_ok(ball),
        cur.balls@ == prior.balls@.push(ball),
    ensures
        ids_distinct(cur.balls@),
        forall|i: int| 0 <= i < cur.balls@.len() ==> tree_ball_ok(#[trigger] cur.balls@[i]),
{
    assert forall|i: int, j: int| 0 <= i < j < cur.balls@.len() implies cur.balls@[i].id
        != cur.balls@[j].id by {
        if j < prior.balls@.len() {
            assert(prior.balls@[i].id != prior.balls@[j].id);
        } else {
            assert(cur.balls@[j] == ball);
            assert(cur.balls@[i] == prior.balls@[i]);
        }
    }
    assert forall|i: int| 0 <= i < cur.balls@.len() implies tree_ball_ok(
        #[trigger] cur.balls@[i],
    ) by {
        if i < prior.balls@.len() {
            assert(cur.balls@[i] == prior.balls@[i]);
        } else {
            assert(cur.balls@[i] == ball);
        }
    }
}

/// Re-establish `wf` at a return without descent: the new ball does not fit
/// the child cell of its quadrant, so it rests here and placement is
/// vacuous for it; everything else is framed.
proof fn lemma_insert_no_descent(prior: QuadTreeNode, cur: QuadTreeNode, ball: Ball)
    requires
        prior.wf(),
        !prior.has_id(ball.id),
        tree_ball_ok(ball),
        cur.rect == prior.rect,
        cur.id == prior.id,
        cur.depth == prior.depth,
        cur.balls@ == prior.balls@.push(ball),
        cur.top_left == prior.top_left,
        cur.top_right == prior.top_right,
        cur.bottom_left == prior.bottom_left,
        cur.bottom_right == prior.bottom_right,
        !ball_fits(ball, cell_of(prior.rect, ball_quadrant(prior.rect, ball))),
    ensures
        cur.wf(),
{
    lemma_push_effects(prior.balls@, ball);
    lemma_insert_balls_ok(prior, cur, ball);
    lemma_wf_child_weaken(prior, cur, Cells::TopLeft);
    lemma_wf_child_weaken(prior, cur, Cells::TopRight);
    lemma_wf_child_weaken(prior, cur, Cells::BottomLeft);
    lemma_wf_child_weaken(prior, cur, Cells::BottomRight);
    assert forall|i: int| 0 <= i < cur.balls@.len() implies cur.placed(
        #[trigger] cur.balls@[i],
    ) by {
        if i < prior.balls@.len() {
            let b = prior.balls@[i];
            assert(prior.placed(b));
            assert(cur.child(ball_quadrant(cur.rect, b)) == prior.child(
                ball_quadrant(prior.rect, b),
            ));
        } else {
            assert(cur.balls@[i] == ball);
        }
    }
}

/// Re-establish `wf` after descending into the quadrant child `q`: the
/// updated child took exactly the new ball, the other children are framed.
proof fn lemma_insert_descent(
    prior: QuadTreeNode,
    cur: QuadTreeNode,
    ball: Ball,
    q: Cells,
    sub_prior: Seq<Ball>,
)
    requires
        prior.wf(),
        !prior.has_id(ball.id),
        tree_ball_ok(ball),
        cur.rect == prior.rect,
        cur.id == prior.id,
        cur.depth == prior.depth,
        cur.balls@ == prior.balls@.push(ball),
        ball_quadrant(prior.rect, ball) == q,
        ball_fits(ball, cell_of(prior.rect, q)),
        prior.rect.w >= 8,
        cur.child(q) is Some,
        cur.child(q).unwrap().wf(),
        cur.child(q).unwrap().rect == cell_of(prior.rect, q),
        cur.child(q).unwrap().balls@ == sub_prior.push(ball),
        match prior.child(q) {
            Some(n) => sub_prior == n.balls@,
            None => sub_prior == Seq::<Ball>::empty(),
        },
        q != Cells::TopLeft ==> cur.top_left == prior.top_left,
        q != Cells::TopRight ==> cur.top_right == prior.top_right,
        q != Cells::BottomLeft ==> cur.bottom_left == prior.bottom_left,
        q != Cells::BottomRight ==> cur.bottom_right == prior.bottom_right,
    ensures
        cur.wf(),
{
    lemma_push_effects(prior.balls@, ball);
    lemma_push_effects(sub_prior, ball);
    lemma_insert_balls_ok(prior, cur, ball);
    let sub = cur.child(q).unwrap();

    // The updated child satisfies the relative clauses of `wf_child`.
    assert forall|i: int| 0 <= i < sub.balls@.len() implies {
        let b = #[trigger] sub.balls@[i];
        &&& cur.balls@.contains(b)
        &&& ball_quadrant(cur.rect, b) == q
        &&& ball_fits(b, sub.rect)
    } by {
        let b = sub.balls@[i];
        if i < sub_prior.len() {
            assert(b == sub_prior[i]);
            let n = prior.child(q).unwrap();
            assert(prior.wf_child(q));
            assert(n.balls@.contains(b)) by {
                assert(n.balls@[i] == b);
            }
            assert(prior.balls@.contains(b));
        } else {
            assert(b == ball);
        }
    }
    assert(cur.wf_child(q));

    // The untouched children are framed.
    if q != Cells::TopLeft {
        lemma_wf_child_weaken(prior, cur, Cells::TopLeft);
    }
    if q != Cells::TopRight {
        lemma_wf_child_weaken(prior, cur, Cells::TopRight);
    }
    if q != Cells::BottomLeft {
        lemma_wf_child_weaken(prior, cur, Cells::BottomLeft);
    }
    if q != Cells::BottomRight {
        lemma_wf_child_weaken(prior, cur, Cells::BottomRight);
    }

    // Placement: the new ball descended; the old ones kept their children.
    assert forall|i: int| 0 <= i < cur.balls@.len() implies cur.placed(
        #[trigger] cur.balls@[i],
    ) by {
        if i < prior.balls@.len() {
            let b = prior.balls@[i];
            assert(prior.placed(b));
            let qb = ball_quadrant(prior.rect, b);
            if qb == q {
                if ball_fits(b, cell_of(prior.rect, qb)) {
                    let n = prior.child(q).unwrap();
                    assert(n.balls@.contains(b));
                    assert(sub.balls@.contains(b));
                }
            } else {
                assert(cur.child(qb) == prior.child(qb));
            }
        } else {
            assert(cur.balls@[i] == ball);
            assert(sub.balls@.contains(ball));
        }
    }
}

/// The unordered-pair keys of a sequence of id pairs.
pub open spec fn keys_of(ps: Seq<BallPairIds>) -> Set<(usize, usize)> {
    Set::new(|k: (usize, usize)| exists|i: int| 0 <= i < ps.len() && pair_key(ps[i]) == k)
}

/// The set of searches of one id through a possibly absent child.
pub open spec fn spec_search_child(c: ChildNode, id: usize) -> Set<(usize, usize)>
    decreases c,
{
    match c {
        None => Set::empty(),
        Some(n) => n.spec_search(id),
    }
}

/// Overlapping-pair keys of a ball sequence, found by brute-force pairwise
/// testing: the reference that the index is held against.
pub open spec fn brute_force_pairs(s: Seq<Ball>) -> Set<(usize, usize)> {
    Set::new(
        |k: (usize, usize)|
            exists|i: int, j: int|
                0 <= i < s.len() && 0 <= j < s.len() && s[i].id != s[j].id && balls_overlap(
                    s[i],
                    s[j],
                ) && k == pair_key(BallPairIds { first: s[i].id, second: s[j].id }),
    )
}

impl QuadTreeNode {
    /// The candidate keys that pair `id` with every other ball resting at
    /// this node.
    pub open spec fn local_pairs(self, id: usize) -> Set<(usize, usize)> {
        Set::new(
            |k: (usize, usize)|
                exists|i: int|
                    0 <= i < self.spec_balls().len() && self.spec_balls()[i].id != id && k
                        == pair_key(
                        BallPairIds { first: id, second: self.spec_balls()[i].id },
                    ),
        )
    }

    /// What `search` gathers: nothing for an absent id; the pairs of the
    /// deepest node holding the id; gathered through the children while a
    /// deeper node still holds it.
    pub closed spec fn spec_search(self, id: usize) -> Set<(usize, usize)>
        decreases self,
    {
        if !self.has_id(id) {
            Set::empty()
        } else if !(child_has_id(self.top_left, id) || child_has_id(self.top_right, id)
            || child_has_id(self.bottom_left, id) || child_has_id(self.bottom_right, id)) {
            self.local_pairs(id)
        } else {
            spec_search_child(self.top_left, id) + spec_search_child(self.top_right, id)
                + spec_search_child(self.bottom_left, id) + spec_search_child(
                self.bottom_right,
                id,
            )
        }
    }

    /// The deduplicated union of the searches of every ball in the tree:
    /// the full candidate set of one tick.
    pub open spec fn all_candidates(self) -> Set<(usize, usize)> {
        Set::new(
            |k: (usize, usize)|
                exists|i: int|
                    0 <= i < self.spec_balls().len() && self.spec_search(
                        self.spec_balls()[i].id,
                    ).contains(k),
        )
    }

    /// Every unordered pair `(id, other)` that must be checked for
    /// collision: the pairs of the deepest node still holding `id`.
    pub fn search(&self, id: usize) -> (res: Vec<BallPairIds>)
        requires
            self.wf(),
        ensures
            keys_of(res@) == self.spec_search(id),
        decreases self.spec_rect().w, 1int,
    {
        let mut pairs: Vec<BallPairIds> = Vec::new();

        if !self.contains(id) {
            proof {
                assert(keys_of(pairs@) =~= self.spec_search(id));
            }
            return pairs;
        }
        if !self.contains_in_children(id) {
            let mut i: usize = 0;
            while i < self.balls.len()
                invariant
                    0 <= i <= self.balls.len(),
                    keys_of(pairs@) =~= Set::new(
                        |k: (usize, usize)|
                            exists|j: int|
                                0 <= j < i && self.balls@[j].id != id && k == pair_key(
                                    BallPairIds { first: id, second: self.balls@[j].id },
                                ),
                    ),
                decreases self.balls.len() - i,
            {
                let ghost before: Seq<BallPairIds> = pairs@;
                if self.balls[i].id != id {
                    pairs.push(BallPairIds { first: id, second: self.balls[i].id });
                }
                proof {
                    assert forall|k: (usize, usize)| keys_of(pairs@).contains(k) implies Set::new(
                        |k: (usize, usize)|
                            exists|j: int|
                                0 <= j < i + 1 && self.balls@[j].id != id && k == pair_key(
                                    BallPairIds { first: id, second: self.balls@[j].id },
                                ),
                    ).contains(k) by {
                        let p = choose|p: int| 0 <= p < pairs@.len() && pair_key(pairs@[p]) == k;
                        if p < before.len() {
                            assert(keys_of(before).contains(k));
                        } else {
                            assert(pairs@[p] == BallPairIds {
                                first: id,
                                second: self.balls@[i as int].id,
                            });
                        }
                    }
                    assert forall|k: (usize, usize)|
                        Set::new(
                            |k: (usize, usize)|
                                exists|j: int|
                                    0 <= j < i + 1 && self.balls@[j].id != id && k == pair_key(
                                        BallPairIds { first: id, second: self.balls@[j].id },
                                    ),
                        ).contains(k) implies keys_of(pairs@).contains(k) by {
                        let j = choose|j: int|
                            0 <= j < i + 1 && self.balls@[j].id != id && k == pair_key(
                                BallPairIds { first: id, second: self.balls@[j].id },
                            );
                        if j < i {
                            assert(keys_of(before).contains(k));
                            let p = choose|p: int|
                                0 <= p < before.len() && pair_key(before[p]) == k;
                            assert(pairs@[p] == before[p]);
                        } else {
                            assert(pair_key(pairs@[pairs@.len() - 1]) == k);
                        }
                    }
                }
                i += 1;
            }
            proof {
                assert(keys_of(pairs@) =~= self.local_pairs(id));
            }
            return pairs;
        }

        if self.top_left.is_some() {
            let node = self.top_left.as_ref().unwrap();
            let mut found = node.search(id);
            proof {
                lemma_keys_of_concat(pairs@, found@);
            }
            pairs.append(&mut found);
        }
        if self.top_right.is_some() {
            let node = self.top_right.as_ref().unwrap();
            let mut found = node.search(id);
            proof {
                lemma_keys_of_concat(pairs@, found@);
            }
            pairs.append(&mut found);
        }
        if self.bottom_left.is_some() {
            let node = self.bottom_left.as_ref().unwrap();
            let mut found = node.search(id);
            proof {
                lemma_keys_of_concat(pairs@, found@);
            }
            pairs.append(&mut found);
        }
        if self.bottom_right.is_some() {
            let node = self.bottom_right.as_ref().unwrap();
            let mut found = node.search(id);
            proof {
                lemma_keys_of_concat(pairs@, found@);
            }
            pairs.append(&mut found);
        }
        proof {
            assert(keys_of(pairs@) =~= self.spec_search(id));
        }
        pairs
    }
}

/// The debug regions gathered through a possibly absent child.
pub open spec fn spec_rects_child(c: ChildNode) -> Seq<RenderingRect>
    decreases c,
{
    match c {
        None => Seq::empty(),
        Some(n) => n.spec_rectangles(),
    }
}

impl QuadTreeNode {
    /// Every region of the subtree paired with a crowding flag, children
    /// first; regions narrower than 2 units are omitted.
    pub closed spec fn spec_rectangles(self) -> Seq<RenderingRect>
        decreases self,
    {
        if self.rect.w < 2 {
            Seq::empty()
        } else {
            spec_rects_child(self.top_left) + spec_rects_child(self.top_right) + spec_rects_child(
                self.bottom_left,
            ) + spec_rects_child(self.bottom_right) + seq![
                RenderingRect {
                    rect: self.rect,
                    many: (self.top_left is None && self.top_right is None && self.bottom_left
                        is None && self.bottom_right is None && self.balls@.len() > 1),
                },
            ]
        }
    }

    /// Every node's region plus a flag that is set exactly on leaves
    /// holding more than one ball; consumed only by debug rendering.
    pub fn get_rectangles(&self) -> (res: Vec<RenderingRect>)
        ensures
            res@ == self.spec_rectangles(),
        decreases *self,
    {
        let mut rects: Vec<RenderingRect> = Vec::new();

        if self.rect.w < 2 {
            proof {
                assert(rects@ =~= self.spec_rectangles());
            }
            return rects;
        }

        if self.top_left.is_some() {
            let mut additional = self.top_left.as_ref().unwrap().get_rectangles();
            rects.append(&mut additional);
        }
        if self.top_right.is_some() {
            let mut additional = self.top_right.as_ref().unwrap().get_rectangles();
            rects.append(&mut additional);
        }
        if self.bottom_left.is_some() {
            let mut additional = self.bottom_left.as_ref().unwrap().get_rectangles();
            rects.append(&mut additional);
        }
        if self.bottom_right.is_some() {
            let mut additional = self.bottom_right.as_ref().unwrap().get_rectangles();
            rects.append(&mut additional);
        }
        let many = self.top_left.is_none() && self.top_right.is_none() && self.bottom_left.is_none()
            && self.bottom_right.is_none() && self.balls.len() > 1;
        rects.push(RenderingRect { rect: self.rect, many });
        proof {
            assert(rects@ =~= self.spec_rectangles());
        }
        rects
    }

    /// A historic debug hook: it walks the tree but collects no lines.
    pub fn info_collisions(&self) -> (res: Vec<String>)
        ensures
            res@.len() == 0,
        decreases *self,
    {
        let mut lines: Vec<String> = Vec::new();

        if self.top_left.is_some() {
            let mut more = self.top_left.as_ref().unwrap().info_collisions();
            lines.append(&mut more);
        }
        if self.top_right.is_some() {
            let mut more = self.top_right.as_ref().unwrap().info_collisions();
            lines.append(&mut more);
        }
        if self.bottom_left.is_some() {
            let mut more = self.bottom_left.as_ref().unwrap().info_collisions();
            lines.append(&mut more);
        }
        if self.bottom_right.is_some() {
            let mut more = self.bottom_right.as_ref().unwrap().info_collisions();
            lines.append(&mut more);
        }
        lines
    }
}

/// Some child of the given node holds both balls jointly.
pub open spec fn joint_node_child(c: ChildNode, a: Ball, b: Ball) -> bool
    decreases c,
{
    match c {
        None => false,
        Some(n) => n.joint_node_exists(a, b),
    }
}

impl QuadTreeNode {
    /// The ball rests at this node: it is held here and does not fit the
    /// child quadrant of its center, so it descends no further.
    pub open spec fn node_terminal(self, b: Ball) -> bool {
        &&& self.spec_balls().contains(b)
        &&& !ball_fits(b, cell_of(self.spec_rect(), ball_quadrant(self.spec_rect(), b)))
    }

    /// Some node of this subtree holds both balls and is the resting node
    /// of at least one of them.
    pub open spec fn joint_node_exists(self, a: Ball, b: Ball) -> bool
        decreases self,
    {
        ||| (self.spec_balls().contains(a) && self.spec_balls().contains(b) && (self.node_terminal(
            a,
        ) || self.node_terminal(b)))
        ||| joint_node_child(self.child(Cells::TopLeft), a, b)
        ||| joint_node_child(self.child(Cells::TopRight), a, b)
        ||| joint_node_child(self.child(Cells::BottomLeft), a, b)
        ||| joint_node_child(self.child(Cells::BottomRight), a, b)
    }
}

/// In a sequence with distinct ids, two members with the same id are the
/// same ball.
proof fn lemma_distinct_ids_unique(s: Seq<Ball>, a: Ball, b: Ball)
    requires
        ids_distinct(s),
        s.contains(a),
        s.contains(b),
        a.id == b.id,
    ensures
        a == b,
{
    let i = choose|i: int| 0 <= i < s.len() && s[i] == a;
    let j = choose|j: int| 0 <= j < s.len() && s[j] == b;
    if i < j {
        assert(s[i].id != s[j].id);
    } else if j < i {
        assert(s[j].id != s[i].id);
    }
}

/// A ball that does not fit the child cell of its quadrant rests at this
/// node: no child holds its id.
proof fn lemma_terminal_no_child_id(n: QuadTreeNode, a: Ball, c: Cells)
    requires
        n.wf(),
        n.spec_balls().contains(a),
        !ball_fits(a, cell_of(n.spec_rect(), ball_quadrant(n.spec_rect(), a))),
    ensures
        !child_has_id(n.child(c), a.id),
{
    match n.child(c) {
        None => {},
        Some(sub) => {
            assert(n.wf_child(c));
            if sub.has_id(a.id) {
                let i = choose|i: int| 0 <= i < sub.balls@.len() && sub.balls@[i].id == a.id;
                let b = sub.balls@[i];
                assert(n.spec_balls().contains(b));
                lemma_distinct_ids_unique(n.spec_balls(), a, b);
                assert(ball_quadrant(n.spec_rect(), a) == c);
                assert(ball_fits(a, sub.rect));
                assert(false);
            }
        },
    }
}

/// A child id is also an id of the node itself: children hold only balls
/// that the node holds too.
proof fn lemma_child_id_lift(n: QuadTreeNode, c: Cells, id: usize)
    requires
        n.wf(),
        child_has_id(n.child(c), id),
    ensures
        n.has_id(id),
{
    let sub = n.child(c).unwrap();
    assert(n.wf_child(c));
    let i = choose|i: int| 0 <= i < sub.balls@.len() && sub.balls@[i].id == id;
    let b = sub.balls@[i];
    assert(n.spec_balls().contains(b));
    let j = choose|j: int| 0 <= j < n.spec_balls().len() && n.spec_balls()[j] == b;
    assert(n.spec_balls()[j].id == id);
}

/// A key found by searching `id` through the child in quadrant `c` is part
/// of the node's own search of `id`.
proof fn lemma_union_member(n: QuadTreeNode, id: usize, c: Cells, k: (usize, usize))
    requires
        n.wf(),
        n.has_id(id),
        child_has_id(n.child(c), id),
        spec_search_child(n.child(c), id).contains(k),
    ensures
        n.spec_search(id).contains(k),
{
    if c == Cells::TopLeft {
        assert(child_has_id(n.child(Cells::TopLeft), id));
    } else if c == Cells::TopRight {
        assert(child_has_id(n.child(Cells::TopRight), id));
    } else if c == Cells::BottomLeft {
        assert(child_has_id(n.child(Cells::BottomLeft), id));
    } else {
        assert(child_has_id(n.child(Cells::BottomRight), id));
    }
}

/// Completeness of the index, the invariant the loose quadtree is built
/// for. Two balls of a well-formed tree whose bounding boxes overlap are
/// never separated into disjoint subtrees: some node holds both and is the
/// resting node of one of them, and searching either id surfaces their
/// pair. Strict fitting forces any two separated balls into disjoint open
/// cell interiors, so overlapping balls descend together until one rests.
pub proof fn lemma_search_complete(n: QuadTreeNode, a: Ball, b: Ball)
    requires
        n.wf(),
        n.spec_balls().contains(a),
        n.spec_balls().contains(b),
        a.id != b.id,
        balls_overlap(a, b),
    ensures
        (n.spec_search(a.id) + n.spec_search(b.id)).contains(
            pair_key(BallPairIds { first: a.id, second: b.id }),
        ),
        n.joint_node_exists(a, b),
    decreases n,
{
    let key = pair_key(BallPairIds { first: a.id, second: b.id });
    let r = n.spec_rect();
    let qa = ball_quadrant(r, a);
    let qb = ball_quadrant(r, b);
    let fits_a = ball_fits(a, cell_of(r, qa));
    let fits_b = ball_fits(b, cell_of(r, qb));
    let ia = choose|i: int| 0 <= i < n.spec_balls().len() && n.spec_balls()[i] == a;
    let ib = choose|i: int| 0 <= i < n.spec_balls().len() && n.spec_balls()[i] == b;
    assert(n.has_id(a.id)) by {
        assert(n.spec_balls()[ia].id == a.id);
    }
    assert(n.has_id(b.id)) by {
        assert(n.spec_balls()[ib].id == b.id);
    }

    if !fits_a {
        lemma_terminal_no_child_id(n, a, Cells::TopLeft);
        lemma_terminal_no_child_id(n, a, Cells::TopRight);
        lemma_terminal_no_child_id(n, a, Cells::BottomLeft);
        lemma_terminal_no_child_id(n, a, Cells::BottomRight);
        assert(n.spec_search(a.id) == n.local_pairs(a.id));
        assert(n.local_pairs(a.id).contains(key)) by {
            assert(n.spec_balls()[ib].id != a.id && key == pair_key(
                BallPairIds { first: a.id, second: n.spec_balls()[ib].id },
            ));
        }
        assert(n.node_terminal(a));
    } else if !fits_b {
        lemma_terminal_no_child_id(n, b, Cells::TopLeft);
        lemma_terminal_no_child_id(n, b, Cells::TopRight);
        lemma_terminal_no_child_id(n, b, Cells::BottomLeft);
        lemma_terminal_no_child_id(n, b, Cells::BottomRight);
        assert(n.spec_search(b.id) == n.local_pairs(b.id));
        assert(n.local_pairs(b.id).contains(key)) by {
            assert(n.spec_balls()[ia].id != b.id && pair_key(
                BallPairIds { first: b.id, second: a.id },
            ) == pair_key(BallPairIds { first: a.id, second: b.id }));
            assert(n.spec_balls()[ia].id != b.id && key == pair_key(
                BallPairIds { first: b.id, second: n.spec_balls()[ia].id },
            ));
        }
        assert(n.node_terminal(b));
    } else {
        if qa != qb {
            lemma_separate_cells_no_overlap(
                r,
                qa,
                qb,
                spec_bounding_rect_current(a),
                spec_bounding_rect_current(b),
            );
            assert(false);
        }
        assert(n.placed(a)) by {
            assert(n.spec_balls()[ia] == a);
        }
        assert(n.placed(b)) by {
            assert(n.spec_balls()[ib] == b);
        }
        assert(child_has_ball(n.child(qa), a));
        assert(child_has_ball(n.child(qa), b));
        let sub = n.child(qa).unwrap();
        assert(n.wf_child(qa)) by {
            if qa == Cells::TopLeft {
            } else if qa == Cells::TopRight {
            } else if qa == Cells::BottomLeft {
            } else {
            }
        }
        assert(sub.wf());
        lemma_search_complete(*sub, a, b);
        let ja = choose|i: int| 0 <= i < sub.spec_balls().len() && sub.spec_balls()[i] == a;
        let jb = choose|i: int| 0 <= i < sub.spec_balls().len() && sub.spec_balls()[i] == b;
        assert(child_has_id(n.child(qa), a.id)) by {
            assert(sub.spec_balls()[ja].id == a.id);
        }
        assert(child_has_id(n.child(qa), b.id)) by {
            assert(sub.spec_balls()[jb].id == b.id);
        }
        if sub.spec_search(a.id).contains(key) {
            lemma_union_member(n, a.id, qa, key);
        } else {
            assert(sub.spec_search(b.id).contains(key));
            lemma_union_member(n, b.id, qa, key);
        }
        assert(n.joint_node_exists(a, b)) by {
            assert(joint_node_child(n.child(qa), a, b));
            if qa == Cells::TopLeft {
            } else if qa == Cells::TopRight {
            } else if qa == Cells::BottomLeft {
            } else {
            }
        }
    }
}

/// When two balls rest in the same node, the searches of both ids surface
/// their shared pair: this is the case in which the same pair surfaces
/// twice, once per member, and the deduplicated union collapses the two
/// orientations into one unordered pair.
pub proof fn lemma_search_symmetric_at_shared_rest(n: QuadTreeNode, a: Ball, b: Ball)
    requires
        n.wf(),
        n.node_terminal(a),
        n.node_terminal(b),
        a.id != b.id,
    ensures
        n.spec_search(a.id).contains(pair_key(BallPairIds { first: a.id, second: b.id })),
        n.spec_search(b.id).contains(pair_key(BallPairIds { first: a.id, second: b.id })),
{
    let key = pair_key(BallPairIds { first: a.id, second: b.id });
    let ia = choose|i: int| 0 <= i < n.spec_balls().len() && n.spec_balls()[i] == a;
    let ib = choose|i: int| 0 <= i < n.spec_balls().len() && n.spec_balls()[i] == b;
    assert(n.has_id(a.id)) by {
        assert(n.spec_balls()[ia].id == a.id);
    }
    assert(n.has_id(b.id)) by {
        assert(n.spec_balls()[ib].id == b.id);
    }
    lemma_terminal_no_child_id(n, a, Cells::TopLeft);
    lemma_terminal_no_child_id(n, a, Cells::TopRight);
    lemma_terminal_no_child_id(n, a, Cells::BottomLeft);
    lemma_terminal_no_child_id(n, a, Cells::BottomRight);
    assert(n.local_pairs(a.id).contains(key)) by {
        assert(n.spec_balls()[ib].id != a.id && key == pair_key(
            BallPairIds { first: a.id, second: n.spec_balls()[ib].id },
        ));
    }
    lemma_terminal_no_child_id(n, b, Cells::TopLeft);
    lemma_terminal_no_child_id(n, b, Cells::TopRight);
    lemma_terminal_no_child_id(n, b, Cells::BottomLeft);
    lemma_terminal_no_child_id(n, b, Cells::BottomRight);
    assert(n.local_pairs(b.id).contains(key)) by {
        assert(pair_key(BallPairIds { first: b.id, second: a.id }) == key);
        assert(n.spec_balls()[ia].id != b.id && key == pair_key(
            BallPairIds { first: b.id, second: n.spec_balls()[ia].id },
        ));
    }
}

/// Soundness of the index: every key a search surfaces pairs two distinct
/// ids that both belong to balls of the tree.
pub proof fn lemma_search_sound(n: QuadTreeNode, id: usize, k: (usize, usize))
    requires
        n.wf(),
        n.spec_search(id).contains(k),
    ensures
        k.0 != k.1,
        n.has_id(k.0),
        n.has_id(k.1),
    decreases n,
{
    if !n.has_id(id) {
        assert(false);
    } else if !(child_has_id(n.child(Cells::TopLeft), id) || child_has_id(
        n.child(Cells::TopRight),
        id,
    ) || child_has_id(n.child(Cells::BottomLeft), id) || child_has_id(
        n.child(Cells::BottomRight),
        id,
    )) {
        let i = choose|i: int|
            0 <= i < n.spec_balls().len() && n.spec_balls()[i].id != id && k == pair_key(
                BallPairIds { first: id, second: n.spec_balls()[i].id },
            );
        let other = n.spec_balls()[i].id;
        assert(n.has_id(other)) by {
            assert(n.spec_balls()[i].id == other);
        }
    } else {
        if spec_search_child(n.child(Cells::TopLeft), id).contains(k) {
            lemma_search_sound(*n.child(Cells::TopLeft).unwrap(), id, k);
            lemma_child_id_lift_ball(n, Cells::TopLeft, k);
        } else if spec_search_child(n.child(Cells::TopRight), id).contains(k) {
            lemma_search_sound(*n.child(Cells::TopRight).unwrap(), id, k);
            lemma_child_id_lift_ball(n, Cells::TopRight, k);
        } else if spec_search_child(n.child(Cells::BottomLeft), id).contains(k) {
            lemma_search_sound(*n.child(Cells::BottomLeft).unwrap(), id, k);
            lemma_child_id_lift_ball(n, Cells::BottomLeft, k);
        } else {
            assert(spec_search_child(n.child(Cells::BottomRight), id).contains(k));
            lemma_search_sound(*n.child(Cells::BottomRight).unwrap(), id, k);
            lemma_child_id_lift_ball(n, Cells::BottomRight, k);
        }
    }
}

/// Both components of a key found in a child are ids of the node itself.
proof fn lemma_child_id_lift_ball(n: QuadTreeNode, c: Cells, k: (usize, usize))
    requires
        n.wf(),
        n.child(c) is Some,
        n.child(c).unwrap().has_id(k.0),
        n.child(c).unwrap().has_id(k.1),
    ensures
        n.has_id(k.0),
        n.has_id(k.1),
{
    lemma_child_id_lift(n, c, k.0);
    lemma_child_id_lift(n, c, k.1);
}

/// The round trip the index must close: gathering `search` over every ball
/// of a well-formed tree, deduplicated, and keeping the pairs whose
/// bounding boxes overlap, reproduces exactly the overlapping pairs that
/// brute-force pairwise testing finds.
pub proof fn lemma_search_round_trip(n: QuadTreeNode)
    requires
        n.wf(),
    ensures
        n.all_candidates().intersect(brute_force_pairs(n.spec_balls())) =~= brute_force_pairs(
            n.spec_balls(),
        ),
{
    let brute = brute_force_pairs(n.spec_balls());
    assert forall|k: (usize, usize)| brute.contains(k) implies n.all_candidates().contains(k) by {
        let (i, j) = choose|i: int, j: int|
            0 <= i < n.spec_balls().len() && 0 <= j < n.spec_balls().len() && n.spec_balls()[i].id
                != n.spec_balls()[j].id && balls_overlap(n.spec_balls()[i], n.spec_balls()[j]) && k
                == pair_key(
                BallPairIds { first: n.spec_balls()[i].id, second: n.spec_balls()[j].id },
            );
        let a = n.spec_balls()[i];
        let b = n.spec_balls()[j];
        assert(n.spec_balls().contains(a));
        assert(n.spec_balls().contains(b));
        lemma_search_complete(n, a, b);
        if n.spec_search(a.id).contains(k) {
            assert(n.spec_search(n.spec_balls()[i].id).contains(k));
        } else {
            assert(n.spec_search(n.spec_balls()[j].id).contains(k));
        }
    }
}

/// Keys of a concatenation: the union of the keys of the halves.
proof fn lemma_keys_of_concat(a: Seq<BallPairIds>, b: Seq<BallPairIds>)
    ensures
        keys_of(a + b) =~= keys_of(a) + keys_of(b),
{
    assert forall|k: (usize, usize)| keys_of(a + b).contains(k) implies (keys_of(a) + keys_of(
        b,
    )).contains(k) by {
        let p = choose|p: int| 0 <= p < (a + b).len() && pair_key((a + b)[p]) == k;
        if p < a.len() {
            assert((a + b)[p] == a[p]);
        } else {
            assert((a + b)[p] == b[p - a.len()]);
        }
    }
    assert forall|k: (usize, usize)| (keys_of(a) + keys_of(b)).contains(k) implies keys_of(
        a + b,
    ).contains(k) by {
        if keys_of(a).contains(k) {
            let p = choose|p: int| 0 <= p < a.len() && pair_key(a[p]) == k;
            assert((a + b)[p] == a[p]);
        } else {
            let p = choose|p: int| 0 <= p < b.len() && pair_key(b[p]) == k;
            assert((a + b)[a.len() + p] == b[p]);
        }
    }
}

/// What a push does to membership: old members stay, the new ball joins,
/// and nothing else appears.
proof fn lemma_push_effects(s: Seq<Ball>, b: Ball)
    ensures
        forall|x: Ball| s.contains(x) ==> #[trigger] s.push(b).contains(x),
        s.push(b).contains(b),
        forall|x: Ball| #[trigger] s.push(b).contains(x) ==> s.contains(x) || x == b,
{
    assert forall|x: Ball| s.contains(x) implies #[trigger] s.push(b).contains(x) by {
        let i = choose|i: int| 0 <= i < s.len() && s[i] == x;
        assert(s.push(b)[i] == x);
    }
    assert(s.push(b)[s.len() as int] == b);
    assert forall|x: Ball| #[trigger] s.push(b).contains(x) implies s.contains(x) || x == b by {
        let i = choose|i: int| 0 <= i < s.push(b).len() && s.push(b)[i] == x;
        if i < s.len() {
            assert(s[i] == x);
        }
    }
}

} // verus!
