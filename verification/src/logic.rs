//! The simulation orchestrator: it owns the ball collection, rebuilds the
//! spatial index every tick, gathers and deduplicates candidate pairs,
//! applies the capture-propagation rule to the staged next states, and
//! commits all staged states atomically for the next frame.
//!
//! Everything random is injected: the host draws the numbers and hands them
//! in as plain values, so the whole state transition is a function.

use vstd::prelude::*;

use crate::ball::{
    pair_key, spec_active_ball_type, spec_ball_staged, spec_ball_type, spec_committed,
    spec_new_ball, Ball, BallPairIds, BallState, BallType,
};
use crate::constants::{
    CATALOG_SIZE, COLOSSAL, EXPLODES, FAST, HEIGHT, VANISH_RADIUS, VEL_LIMIT, WIDTH,
};
use crate::geometry::{rect_bounded, rect_contains, Point, Rect, RenderingRect};
use crate::quadtree::{
    balls_overlap, ids_distinct, keys_of, tree_ball_ok, ChildNode, QuadTreeNode,
};

verus! {

/// Bound on the ball population and the id counter; far above any level,
/// it only keeps the bookkeeping arithmetic exact.
pub const POP_BOUND: usize = 0x100_0000;

/// A level: how many shots the player gets, how many balls populate the
/// arena, and how many captures the level demands.
#[derive(Debug, Clone, Copy)]
pub struct Level {
    pub max_shots: usize,
    pub num_of_balls: usize,
    pub num_captured: usize,
}

impl Level {
    /// A level from its three parameters.
    pub fn new(max_shots: usize, num_of_balls: usize, num_captured: usize) -> (res: Level)
        ensures
            res == (Level { max_shots, num_of_balls, num_captured }),
    {
        Level { max_shots, num_of_balls, num_captured }
    }
}

/// A host-side request to change the flow of the game.
#[derive(Debug, Clone, Copy, PartialEq, Eq, Structural)]
pub enum ChangeState {
    PlayPause,
    NextLevel,
    RestartLevel,
    Quit,
    NoChange,
}

/// The outcome of a level, re-evaluated every tick.
#[derive(Debug, Clone, Copy, PartialEq, Eq, Structural)]
pub enum GameResult {
    Playing,
    Lost,
    Won,
}

/// The randomly drawn ingredients of one spawned ball, handed in by the
/// host: a catalog index, a position in the inner 80% of the arena, speed
/// magnitudes within 0.8 to 1.2 times the archetype speed, and a sign for
/// each velocity axis.
#[derive(Debug, Clone, Copy)]
pub struct SpawnSeed {
    pub pick: usize,
    pub pos_x: i64,
    pub pos_y: i64,
    pub speed_x: i64,
    pub speed_y: i64,
    pub neg_x: bool,
    pub neg_y: bool,
}

/// The seed respects the spawn rules for an arena of the given size.
pub open spec fn spawn_seed_ok(s: SpawnSeed, width: int, height: int) -> bool {
    &&& s.pick < CATALOG_SIZE
    &&& width / 10 <= s.pos_x <= width * 9 / 10
    &&& height / 10 <= s.pos_y <= height * 9 / 10
    &&& spec_ball_type(s.pick as int).velocity * 8 / 10 <= s.speed_x <= spec_ball_type(
        s.pick as int,
    ).velocity * 12 / 10
    &&& spec_ball_type(s.pick as int).velocity * 8 / 10 <= s.speed_y <= spec_ball_type(
        s.pick as int,
    ).velocity * 12 / 10
}

/// The ball a seed produces, under the given fresh id.
pub open spec fn spawned_ball(s: SpawnSeed, id: usize) -> Ball {
    spec_new_ball(
        id,
        Point { x: s.pos_x, y: s.pos_y },
        Point {
            x: if s.neg_x {
                (-s.speed_x) as i64
            } else {
                s.speed_x
            },
            y: if s.neg_y {
                (-s.speed_y) as i64
            } else {
                s.speed_y
            },
        },
        spec_ball_type(s.pick as int),
        BallState::Normal,
    )
}

/// One axis of the position invariant the wall bounce maintains: the
/// center stays within the arena inflated by two speed bounds, and while it
/// is outside the inflation margin its next step cannot leave the band.
pub open spec fn pos_axis_ok(p: int, v: int, limit: int) -> bool {
    &&& -2 * VEL_LIMIT <= p <= limit + 2 * VEL_LIMIT
    &&& (p < -VEL_LIMIT ==> p + v >= -2 * VEL_LIMIT)
    &&& (p > limit + VEL_LIMIT ==> p + v <= limit + 2 * VEL_LIMIT)
}

/// The live state of a ball the orchestrator accepts.
pub open spec fn game_ball_ok(b: Ball) -> bool {
    &&& 1 <= b.radius <= b.max_radius
    &&& VANISH_RADIUS <= b.max_radius <= COLOSSAL
    &&& 1 <= b.radius_growth <= EXPLODES
    &&& -VEL_LIMIT <= b.velocity.x <= VEL_LIMIT
    &&& -VEL_LIMIT <= b.velocity.y <= VEL_LIMIT
    &&& pos_axis_ok(b.pos.x as int, b.velocity.x as int, WIDTH as int)
    &&& pos_axis_ok(b.pos.y as int, b.velocity.y as int, HEIGHT as int)
    &&& (b.ball_state == BallState::Shrinking ==> b.radius >= VANISH_RADIUS)
}

/// The staged mirror of `game_ball_ok`: what a tick stages and a commit
/// turns into the live state.
pub open spec fn game_staged_ok(b: Ball) -> bool {
    &&& 1 <= b.next_radius <= b.max_radius
    &&& -VEL_LIMIT <= b.next_velocity.x <= VEL_LIMIT
    &&& -VEL_LIMIT <= b.next_velocity.y <= VEL_LIMIT
    &&& pos_axis_ok(b.next_position.x as int, b.next_velocity.x as int, WIDTH as int)
    &&& pos_axis_ok(b.next_position.y as int, b.next_velocity.y as int, HEIGHT as int)
    &&& (b.next_ball_state == BallState::Shrinking ==> b.next_radius >= VANISH_RADIUS)
}

/// The staged fields agree with the live ones, as every commit leaves them.
pub open spec fn ball_synced(b: Ball) -> bool {
    &&& b.next_position == b.pos
    &&& b.next_velocity == b.velocity
    &&& b.next_radius == b.radius
    &&& b.next_ball_state == b.ball_state
}

/// The ball takes part in a capture chain.
pub open spec fn is_chain(st: BallState) -> bool {
    st == BallState::Expanding || st == BallState::Shrinking
}

/// The balls of `s` that have not vanished, in order.
pub open spec fn cleaned_of(s: Seq<Ball>) -> Seq<Ball>
    decreases s.len(),
{
    if s.len() == 0 {
        Seq::empty()
    } else {
        let rest = cleaned_of(s.drop_last());
        if s.last().ball_state != BallState::Vanish {
            rest.push(s.last())
        } else {
            rest
        }
    }
}

/// How many balls of `s` are part of a chain.
pub open spec fn count_active(s: Seq<Ball>) -> int
    decreases s.len(),
{
    if s.len() == 0 {
        0
    } else {
        count_active(s.drop_last()) + if is_chain(s.last().ball_state) {
            1int
        } else {
            0int
        }
    }
}

/// How many balls of `s` are flagged captured.
pub open spec fn count_captured(s: Seq<Ball>) -> int
    decreases s.len(),
{
    if s.len() == 0 {
        0
    } else {
        count_captured(s.drop_last()) + if s.last().is_captured {
            1int
        } else {
            0int
        }
    }
}

/// The characters of the score HUD line.
pub open spec fn spec_stats_chars(captured: usize, required: usize, shots: usize) -> Seq<char> {
    seq!['C', 'A', 'P', 'T', 'U', 'R', 'E', 'D', ':', ' '] + crate::ball::dec_seq(captured as int)
        + seq![' ', '/', ' '] + crate::ball::dec_seq(required as int) + seq![
        ',',
        ' ',
        'S',
        'H',
        'O',
        'T',
        'S',
        ' ',
        'L',
        'E',
        'F',
        'T',
        ':',
        ' ',
    ] + crate::ball::dec_seq(shots as int)
}

/// The characters of the goal HUD line.
pub open spec fn spec_goal_chars(level_id: usize, required: usize) -> Seq<char> {
    seq!['L', 'E', 'V', 'E', 'L', ' '] + crate::ball::dec_seq(level_id as int) + seq![
        ' ',
        '-',
        ' ',
        'C',
        'A',
        'P',
        'T',
        'U',
        'R',
        'E',
        ' ',
    ] + crate::ball::dec_seq(required as int) + seq![
        ' ',
        'S',
        'P',
        'A',
        'C',
        'E',
        'B',
        'A',
        'L',
        'L',
        'S',
    ]
}

/// The win/lose rule: once the player is out of shots and no chain is in
/// motion, the level is won exactly when the quota is met; in every other
/// situation play continues.
pub open spec fn spec_win_lose(
    shots: usize,
    actives: int,
    captured: usize,
    required: usize,
) -> GameResult {
    if shots == 0 && actives == 0 {
        if captured >= required {
            GameResult::Won
        } else {
            GameResult::Lost
        }
    } else {
        GameResult::Playing
    }
}

/// The capture score: every ball that is gone beyond the level population
/// (less the shots spent) counts, plus every remaining ball flagged
/// captured; clamped at zero so the tally is total.
pub open spec fn spec_captured_total(level: Level, shots: usize, s: Seq<Ball>) -> int {
    let vanished = level.num_of_balls + level.max_shots - shots - s.len();
    (if vanished >= 0 {
        vanished
    } else {
        0
    }) + count_captured(s)
}

/// The propagation condition for the ball at index `i` of the staged
/// sequence `s`: it is still normal, and the staged bounding box of some
/// chain ball overlaps its own.
pub open spec fn prop_cond(s: Seq<Ball>, i: int) -> bool {
    &&& s[i].ball_state == BallState::Normal
    &&& exists|j: int|
        0 <= j < s.len() && j != i && is_chain(s[j].ball_state) && balls_overlap(s[i], s[j])
}

/// The propagation rule applied to one ball: when triggered, the staged
/// state turns to expanding and the ball is flagged captured; live state is
/// never touched.
pub open spec fn prop_ball(b: Ball, triggered: bool) -> Ball {
    if triggered {
        Ball { next_ball_state: BallState::Expanding, is_captured: true, ..b }
    } else {
        b
    }
}

/// The propagation rule applied across a staged sequence.
pub open spec fn propagate_all(s: Seq<Ball>) -> Seq<Ball> {
    Seq::new(s.len(), |i: int| prop_ball(s[i], prop_cond(s, i)))
}

/// The staged sequence a tick produces from the cleaned pre-tick balls.
pub open spec fn staged_all(s: Seq<Ball>) -> Seq<Ball> {
    Seq::new(s.len(), |i: int| spec_ball_staged(s[i]))
}

/// The ball at index `i` after a whole tick of the cleaned pre-tick
/// sequence `s`: staged by physics, propagated, committed.
pub open spec fn after_tick_ball(s: Seq<Ball>, i: int) -> Ball {
    spec_committed(prop_ball(staged_all(s)[i], prop_cond(staged_all(s), i)))
}

/// Idempotence of propagation: the rule reads only live states and staged
/// bounding boxes, which it never writes, so applying it twice over the
/// same candidate set stages exactly what applying it once does.
pub proof fn lemma_propagation_idempotent(s: Seq<Ball>)
    ensures
        propagate_all(propagate_all(s)) =~= propagate_all(s),
{
    let once = propagate_all(s);
    assert forall|i: int| 0 <= i < once.len() implies propagate_all(once)[i] == once[i] by {
        assert forall|j: int| 0 <= j < s.len() implies once[j].ball_state == s[j].ball_state
            && once[j].pos == s[j].pos && once[j].next_radius == s[j].next_radius by {
            assert(once[j] == prop_ball(s[j], prop_cond(s, j)));
        }
        assert(prop_cond(once, i) == prop_cond(s, i)) by {
            if prop_cond(once, i) {
                let j = choose|j: int|
                    0 <= j < once.len() && j != i && is_chain(once[j].ball_state) && balls_overlap(
                        once[i],
                        once[j],
                    );
                assert(balls_overlap(s[i], s[j]));
            }
            if prop_cond(s, i) {
                let j = choose|j: int|
                    0 <= j < s.len() && j != i && is_chain(s[j].ball_state) && balls_overlap(
                        s[i],
                        s[j],
                    );
                assert(balls_overlap(once[i], once[j]));
            }
        }
    }
}

/// Radius monotonicity across a whole tick, for every ball of a cleaned,
/// synced collection: while `Shrinking` the committed radius strictly
/// decreases every tick until the vanish transition fires, and while
/// `Expanding` it strictly increases every tick until it reaches the cap,
/// where it stays. Propagation never touches the staged radius, so the
/// per-ball rule carries through candidate handling and the commit.
pub proof fn lemma_tick_radius_monotone(s: Seq<Ball>, i: int)
    requires
        0 <= i < s.len(),
        forall|j: int| 0 <= j < s.len() ==> game_ball_ok(#[trigger] s[j]),
        forall|j: int| 0 <= j < s.len() ==> ball_synced(#[trigger] s[j]),
    ensures
        s[i].ball_state == BallState::Shrinking ==> after_tick_ball(s, i).radius < s[i].radius,
        s[i].ball_state == BallState::Expanding && s[i].radius < s[i].max_radius ==> after_tick_ball(
            s,
            i,
        ).radius > s[i].radius,
        s[i].ball_state == BallState::Expanding && s[i].radius == s[i].max_radius
            ==> after_tick_ball(s, i).radius == s[i].radius,
{
    crate::ball::lemma_radius_monotone(s[i]);
    assert(after_tick_ball(s, i).radius == spec_ball_staged(s[i]).next_radius);
}

/// One axis of the wall bounce preserves the position band: the staged
/// position is one step of the live velocity, and the staged velocity is
/// flipped exactly when that step would cross a wall.
proof fn lemma_axis_preserved(p: int, v: int, r: int, limit: int, hit: bool, nv: int)
    requires
        pos_axis_ok(p, v, limit),
        -VEL_LIMIT <= v <= VEL_LIMIT,
        1 <= r <= COLOSSAL,
        COLOSSAL + VEL_LIMIT <= limit,
        hit == (p + v + r > limit || p + v - r < 0),
        nv == (if hit {
            -v
        } else {
            v
        }),
    ensures
        pos_axis_ok(p + v, nv, limit),
        pos_axis_ok(p + v, 0, limit),
        -VEL_LIMIT <= nv <= VEL_LIMIT,
{
}

/// A tick of a synced, accepted ball stages an accepted next state.
pub proof fn lemma_tick_staged_ok(b: Ball)
    requires
        game_ball_ok(b),
        ball_synced(b),
    ensures
        game_staged_ok(spec_ball_staged(b)),
        spec_ball_staged(b).pos == b.pos,
        spec_ball_staged(b).velocity == b.velocity,
        spec_ball_staged(b).radius == b.radius,
        spec_ball_staged(b).ball_state == b.ball_state,
        spec_ball_staged(b).max_radius == b.max_radius,
        spec_ball_staged(b).radius_growth == b.radius_growth,
        spec_ball_staged(b).id == b.id,
        spec_ball_staged(b).is_captured == b.is_captured,
    decreases 0int,
{
    let hx = crate::ball::spec_hit_wall_x(b);
    let hy = crate::ball::spec_hit_wall_y(b);
    lemma_axis_preserved(
        b.pos.x as int,
        b.velocity.x as int,
        b.radius as int,
        WIDTH as int,
        hx,
        if hx {
            -(b.velocity.x as int)
        } else {
            b.velocity.x as int
        },
    );
    lemma_axis_preserved(
        b.pos.y as int,
        b.velocity.y as int,
        b.radius as int,
        HEIGHT as int,
        hy,
        if hy {
            -(b.velocity.y as int)
        } else {
            b.velocity.y as int
        },
    );
    if b.ball_state == BallState::Shrinking {
        vstd::arithmetic::div_mod::lemma_div_pos_is_pos(
            crate::constants::SHRINK_STEP as int,
            b.radius as int,
        );
        vstd::arithmetic::div_mod::lemma_div_is_ordered_by_denominator(
            crate::constants::SHRINK_STEP as int,
            VANISH_RADIUS as int,
            b.radius as int,
        );
        assert(crate::constants::SHRINK_STEP as int / VANISH_RADIUS as int == 140);
    }
}

/// Committing an accepted staged state yields an accepted, synced ball.
pub proof fn lemma_commit_ok(b: Ball)
    requires
        game_staged_ok(b),
        VANISH_RADIUS <= b.max_radius <= COLOSSAL,
        1 <= b.radius_growth <= EXPLODES,
    ensures
        game_ball_ok(spec_committed(b)),
        game_staged_ok(spec_committed(b)),
        ball_synced(spec_committed(b)),
{
}

/// What has vanished and what is flagged, over a cleaned sequence, stays
/// within it: membership and id distinctness pass from a sequence to its
/// cleaned form.
proof fn lemma_cleaned_of_props(s: Seq<Ball>)
    ensures
        forall|x: Ball| cleaned_of(s).contains(x) ==> s.contains(x),
        ids_distinct(s) ==> ids_distinct(cleaned_of(s)),
        cleaned_of(s).len() <= s.len(),
    decreases s.len(),
{
    if s.len() > 0 {
        let head = s.drop_last();
        lemma_cleaned_of_props(head);
        assert forall|x: Ball| cleaned_of(s).contains(x) implies s.contains(x) by {
            let i = choose|i: int| 0 <= i < cleaned_of(s).len() && cleaned_of(s)[i] == x;
            if s.last().ball_state != BallState::Vanish && i == cleaned_of(s).len() - 1 {
                assert(x == s.last());
                assert(s[s.len() - 1] == x);
            } else {
                assert(cleaned_of(head)[i] == x);
                assert(cleaned_of(head).contains(x));
                assert(head.contains(x));
                let j = choose|j: int| 0 <= j < head.len() && head[j] == x;
                assert(s[j] == x);
            }
        }
        if ids_distinct(s) {
            assert(ids_distinct(head)) by {
                assert forall|i: int, j: int| 0 <= i < j < head.len() implies head[i].id
                    != head[j].id by {
                    assert(s[i].id != s[j].id);
                }
            }
            assert forall|i: int, j: int| 0 <= i < j < cleaned_of(s).len() implies cleaned_of(
                s,
            )[i].id != cleaned_of(s)[j].id by {
                let c = cleaned_of(s);
                if s.last().ball_state != BallState::Vanish && j == c.len() - 1 {
                    assert(c[i] == cleaned_of(head)[i]);
                    assert(cleaned_of(head).contains(c[i])) by {
                        assert(cleaned_of(head)[i] == c[i]);
                    }
                    assert(head.contains(c[i]));
                    let m = choose|m: int| 0 <= m < head.len() && head[m] == c[i];
                    assert(s[m].id != s.last().id) by {
                        assert(s[m] == head[m]);
                        assert(s.last() == s[s.len() - 1]);
                    }
                } else {
                    assert(c[i] == cleaned_of(head)[i] && c[j] == cleaned_of(head)[j]);
                }
            }
        }
    }
}

/// The full game state: arena, levels, ball collection, the spatial index
/// of the current tick, and the score counters.
pub struct GameState {
    all_levels: Vec<Level>,
    captured: usize,
    captured_required: usize,
    is_paused: bool,
    is_render_debug: bool,
    level_id: usize,
    next_id: usize,
    objects: Vec<Ball>,
    rect: Rect,
    result: GameResult,
    shots: usize,
    tree: ChildNode,
    frame_id: usize,
}

impl GameState {
    /// The level table.
    pub closed spec fn spec_levels(self) -> Seq<Level> {
        self.all_levels@
    }

    /// The live ball collection, in insertion order.
    pub closed spec fn balls_view(self) -> Seq<Ball> {
        self.objects@
    }

    /// The capture tally of the current tick.
    pub closed spec fn spec_captured(self) -> usize {
        self.captured
    }

    /// The capture quota of the current level.
    pub closed spec fn spec_captured_required(self) -> usize {
        self.captured_required
    }

    /// Whether the host paused the simulation.
    pub closed spec fn spec_is_paused(self) -> bool {
        self.is_paused
    }

    /// Whether debug rendering is on.
    pub closed spec fn spec_is_render_debug(self) -> bool {
        self.is_render_debug
    }

    /// The index of the current level.
    pub closed spec fn spec_level_id(self) -> usize {
        self.level_id
    }

    /// The monotonic id counter.
    pub closed spec fn spec_next_id(self) -> usize {
        self.next_id
    }

    /// The arena bounds.
    pub closed spec fn spec_rect(self) -> Rect {
        self.rect
    }

    /// The current outcome.
    pub closed spec fn spec_result(self) -> GameResult {
        self.result
    }

    /// Shots the player still has.
    pub closed spec fn spec_shots(self) -> usize {
        self.shots
    }

    /// The quadtree of the current tick.
    pub closed spec fn spec_tree(self) -> ChildNode {
        self.tree
    }

    /// The frame counter.
    pub closed spec fn spec_frame_id(self) -> usize {
        self.frame_id
    }

    /// The structural invariant of a game state: a bounded arena inside
    /// the global one, a valid level index, bounded level parameters,
    /// distinct bounded balls with ids below the counter, and bounded
    /// bookkeeping counters.
    pub closed spec fn wf(self) -> bool {
        &&& rect_bounded(self.rect)
        &&& self.rect.x == 0 && self.rect.y == 0
        &&& self.rect.w <= WIDTH && self.rect.h <= HEIGHT
        &&& self.level_id < self.all_levels@.len()
        &&& forall|i: int|
            0 <= i < self.all_levels@.len() ==> (#[trigger] self.all_levels@[i]).num_of_balls
                + self.all_levels@[i].max_shots <= POP_BOUND
        &&& ids_distinct(self.objects@)
        &&& forall|i: int| 0 <= i < self.objects@.len() ==> game_ball_ok(#[trigger] self.objects@[i])
        &&& forall|i: int|
            0 <= i < self.objects@.len() ==> game_staged_ok(#[trigger] self.objects@[i])
        &&& forall|i: int|
            0 <= i < self.objects@.len() ==> (#[trigger] self.objects@[i]).id <= self.next_id
        &&& self.objects@.len() <= POP_BOUND
        &&& self.next_id <= POP_BOUND
        &&& self.shots <= POP_BOUND
    }

    /// Every ball's staged state agrees with its live state, as it does
    /// between ticks.
    pub closed spec fn balls_synced(self) -> bool {
        forall|i: int| 0 <= i < self.objects@.len() ==> ball_synced(#[trigger] self.objects@[i])
    }

    /// The index covers exactly the current ball collection.
    pub closed spec fn tree_matches(self) -> bool {
        match self.tree {
            None => false,
            Some(t) => {
                &&& t.wf()
                &&& t.spec_balls() == self.objects@
            },
        }
    }

    /// Draw a fresh id: the counter moves first, so ids start above the
    /// initial counter value.
    pub fn gen_next_id(&mut self) -> (res: usize)
        requires
            old(self).spec_next_id() < usize::MAX,
        ensures
            res == old(self).spec_next_id() + 1,
            final(self).spec_next_id() == old(self).spec_next_id() + 1,
            final(self).spec_levels() == old(self).spec_levels(),
            final(self).balls_view() == old(self).balls_view(),
            final(self).spec_captured() == old(self).spec_captured(),
            final(self).spec_captured_required() == old(self).spec_captured_required(),
            final(self).spec_is_paused() == old(self).spec_is_paused(),
            final(self).spec_is_render_debug() == old(self).spec_is_render_debug(),
            final(self).spec_level_id() == old(self).spec_level_id(),
            final(self).spec_rect() == old(self).spec_rect(),
            final(self).spec_result() == old(self).spec_result(),
            final(self).spec_shots() == old(self).spec_shots(),
            final(self).spec_tree() == old(self).spec_tree(),
            final(self).spec_frame_id() == old(self).spec_frame_id(),
    {
        self.next_id = self.next_id + 1;
        self.next_id
    }

    /// Register a ball under a fresh id: the ball's id is overwritten with
    /// the next counter value and the ball joins the collection.
    pub fn insert_object(&mut self, ball: &mut Ball)
        requires
            old(self).wf(),
            old(self).spec_next_id() < POP_BOUND,
            old(self).balls_view().len() < POP_BOUND,
            game_ball_ok(*old(ball)),
            game_staged_ok(*old(ball)),
        ensures
            final(self).wf(),
            *final(ball) == (Ball { id: (old(self).spec_next_id() + 1) as usize, ..*old(ball) }),
            final(self).balls_view() == old(self).balls_view().push(*final(ball)),
            final(self).spec_next_id() == old(self).spec_next_id() + 1,
            ball_synced(*old(ball)) ==> ball_synced(*final(ball)),
            final(self).spec_levels() == old(self).spec_levels(),
            final(self).spec_captured() == old(self).spec_captured(),
            final(self).spec_captured_required() == old(self).spec_captured_required(),
            final(self).spec_is_paused() == old(self).spec_is_paused(),
            final(self).spec_is_render_debug() == old(self).spec_is_render_debug(),
            final(self).spec_level_id() == old(self).spec_level_id(),
            final(self).spec_rect() == old(self).spec_rect(),
            final(self).spec_result() == old(self).spec_result(),
            final(self).spec_shots() == old(self).spec_shots(),
            final(self).spec_tree() == old(self).spec_tree(),
            final(self).spec_frame_id() == old(self).spec_frame_id(),
    {
        let new_id = self.gen_next_id();
        ball.id = new_id;
        self.objects.push(*ball);
        proof {
            assert forall|i: int, j: int| 0 <= i < j < self.objects@.len() implies self.objects@[i].id
                != self.objects@[j].id by {
                if j < old(self).objects@.len() {
                    assert(old(self).objects@[i].id != old(self).objects@[j].id);
                }
            }
        }
    }

    /// The HUD line for the score: captures against the quota, and the
    /// shots left.
    pub fn get_stats(&self) -> (res: String)
        ensures
            res@ == spec_stats_chars(
                self.spec_captured(),
                self.spec_captured_required(),
                self.spec_shots(),
            ),
    {
        proof {
            reveal_strlit("CAPTURED: ");
            reveal_strlit(" / ");
            reveal_strlit(", SHOTS LEFT: ");
        }
        let mut s = String::new();
        s.append("CAPTURED: ");
        crate::ball::append_decimal(&mut s, self.captured);
        s.append(" / ");
        crate::ball::append_decimal(&mut s, self.captured_required);
        s.append(", SHOTS LEFT: ");
        crate::ball::append_decimal(&mut s, self.shots);
        proof {
            assert(s@ =~= spec_stats_chars(self.captured, self.captured_required, self.shots));
        }
        s
    }

    /// The HUD line for the goal of the current level.
    pub fn get_goal(&self) -> (res: String)
        ensures
            res@ == spec_goal_chars(self.spec_level_id(), self.spec_captured_required()),
    {
        proof {
            reveal_strlit("LEVEL ");
            reveal_strlit(" - CAPTURE ");
            reveal_strlit(" SPACEBALLS");
        }
        let mut s = String::new();
        s.append("LEVEL ");
        crate::ball::append_decimal(&mut s, self.level_id);
        s.append(" - CAPTURE ");
        crate::ball::append_decimal(&mut s, self.captured_required);
        s.append(" SPACEBALLS");
        proof {
            assert(s@ =~= spec_goal_chars(self.level_id, self.captured_required));
        }
        s
    }

    /// Toggle the pause flag; pausing also switches debug rendering on.
    pub fn pause_play(&mut self)
        ensures
            final(self).spec_is_paused() == !old(self).spec_is_paused(),
            final(self).spec_is_render_debug() == (!old(self).spec_is_paused() || old(
                self,
            ).spec_is_render_debug()),
            final(self).spec_levels() == old(self).spec_levels(),
            final(self).balls_view() == old(self).balls_view(),
            final(self).spec_captured() == old(self).spec_captured(),
            final(self).spec_captured_required() == old(self).spec_captured_required(),
            final(self).spec_level_id() == old(self).spec_level_id(),
            final(self).spec_next_id() == old(self).spec_next_id(),
            final(self).spec_rect() == old(self).spec_rect(),
            final(self).spec_result() == old(self).spec_result(),
            final(self).spec_shots() == old(self).spec_shots(),
            final(self).spec_tree() == old(self).spec_tree(),
            final(self).spec_frame_id() == old(self).spec_frame_id(),
    {
        self.is_paused = !self.is_paused;
        if self.is_paused {
            self.is_render_debug = true;
        }
    }

    /// Leaving the game changes nothing in the state.
    pub fn quit(&self) {
    }

    /// The read-only snapshot of the live balls, for rendering.
    pub fn balls(&self) -> (res: &Vec<Ball>)
        ensures
            res@ == self.balls_view(),
    {
        &self.objects
    }

    /// The current outcome as last evaluated.
    pub fn result(&self) -> (res: GameResult)
        ensures
            res == self.spec_result(),
    {
        self.result
    }

    /// Shots the player still has.
    pub fn shots(&self) -> (res: usize)
        ensures
            res == self.spec_shots(),
    {
        self.shots
    }

    /// The capture tally of the current tick.
    pub fn captured(&self) -> (res: usize)
        ensures
            res == self.spec_captured(),
    {
        self.captured
    }

    /// The capture quota of the current level.
    pub fn captured_required(&self) -> (res: usize)
        ensures
            res == self.spec_captured_required(),
    {
        self.captured_required
    }

    /// The index of the current level.
    pub fn level_id(&self) -> (res: usize)
        ensures
            res == self.spec_level_id(),
    {
        self.level_id
    }

    /// Whether the host paused the simulation.
    pub fn is_paused(&self) -> (res: bool)
        ensures
            res == self.spec_is_paused(),
    {
        self.is_paused
    }

    /// The monotonic id counter.
    pub fn next_id(&self) -> (res: usize)
        ensures
            res == self.spec_next_id(),
    {
        self.next_id
    }

    /// The frame counter.
    pub fn frame_id(&self) -> (res: usize)
        ensures
            res == self.spec_frame_id(),
    {
        self.frame_id
    }

    /// The current outcome by the win/lose rule, over the live collection.
    pub fn check_win_lose(&self) -> (res: GameResult)
        ensures
            res == spec_win_lose(
                self.spec_shots(),
                count_active(self.balls_view()),
                self.spec_captured(),
                self.spec_captured_required(),
            ),
    {
        let mut active_balls: usize = 0;
        let mut i: usize = 0;
        while i < self.objects.len()
            invariant
                0 <= i <= self.objects.len(),
                active_balls == count_active(self.objects@.take(i as int)),
                active_balls <= i,
            decreases self.objects.len() - i,
        {
            let st = self.objects[i].ball_state;
            if st == BallState::Expanding || st == BallState::Shrinking {
                active_balls = active_balls + 1;
            }
            proof {
                assert(self.objects@.take(i + 1).drop_last() =~= self.objects@.take(i as int));
                assert(self.objects@.take(i + 1).last() == self.objects@[i as int]);
            }
            i += 1;
        }
        proof {
            assert(self.objects@.take(self.objects@.len() as int) =~= self.objects@);
        }
        win_lose_outcome(self.shots, active_balls, self.captured, self.captured_required)
    }

    /// The debug regions of the current tree, children first; empty while
    /// no tree has been built.
    pub fn get_rectangles(&self) -> (res: Vec<RenderingRect>)
        ensures
            res@ == (match self.spec_tree() {
                None => Seq::<RenderingRect>::empty(),
                Some(t) => t.spec_rectangles(),
            }),
    {
        if self.tree.is_none() {
            let res: Vec<RenderingRect> = Vec::new();
            proof {
                assert(res@ =~= Seq::<RenderingRect>::empty());
            }
            return res;
        }
        self.tree.as_ref().unwrap().get_rectangles()
    }
}

/// The level table the game is created with. Play begins at the second
/// entry: advancing levels loads `level_id + 1` first, so the opening entry
/// is never loaded.
pub open spec fn spec_level_catalog() -> Seq<Level> {
    seq![
        Level { max_shots: 1, num_of_balls: 5, num_captured: 1 },
        Level { max_shots: 1, num_of_balls: 5, num_captured: 2 },
        Level { max_shots: 1, num_of_balls: 8, num_captured: 3 },
        Level { max_shots: 1, num_of_balls: 10, num_captured: 5 },
        Level { max_shots: 1, num_of_balls: 15, num_captured: 7 },
        Level { max_shots: 1, num_of_balls: 20, num_captured: 9 },
        Level { max_shots: 1, num_of_balls: 20, num_captured: 12 },
        Level { max_shots: 1, num_of_balls: 25, num_captured: 15 },
        Level { max_shots: 1, num_of_balls: 30, num_captured: 20 },
        Level { max_shots: 1, num_of_balls: 30, num_captured: 22 },
        Level { max_shots: 1, num_of_balls: 35, num_captured: 27 },
        Level { max_shots: 1, num_of_balls: 40, num_captured: 31 },
        Level { max_shots: 1, num_of_balls: 45, num_captured: 40 },
        Level { max_shots: 1, num_of_balls: 55, num_captured: 47 },
        Level { max_shots: 1, num_of_balls: 60, num_captured: 50 },
        Level { max_shots: 1, num_of_balls: 65, num_captured: 57 },
        Level { max_shots: 1, num_of_balls: 65, num_captured: 60 },
        Level { max_shots: 1, num_of_balls: 90, num_captured: 80 },
        Level { max_shots: 1, num_of_balls: 99, num_captured: 97 },
    ]
}

/// The player-fired capture ball spawned at `(x, y)`: the capture
/// archetype, no velocity, already expanding and already counted captured.
pub open spec fn spec_capture_ball(id: usize, x: i64, y: i64) -> Ball {
    Ball {
        is_captured: true,
        ..spec_new_ball(
            id,
            Point { x, y },
            Point { x: 0, y: 0 },
            spec_active_ball_type(),
            BallState::Expanding,
        )
    }
}

impl GameState {
    /// Load the level at `index` and top the arena up to its ball count
    /// with freshly spawned random balls, one seed per ball, without
    /// clearing the surviving balls; counters and outcome reset.
    fn load_level(&mut self, index: usize, spawns: &Vec<SpawnSeed>)
        requires
            old(self).wf(),
            old(self).balls_synced(),
            index < old(self).spec_levels().len(),
            forall|i: int|
                0 <= i < spawns@.len() ==> spawn_seed_ok(
                    #[trigger] spawns@[i],
                    old(self).spec_rect().w as int,
                    old(self).spec_rect().h as int,
                ),
            old(self).balls_view().len() + spawns@.len() >= old(self).spec_levels()[
                index as int].num_of_balls,
            old(self).spec_next_id() + spawns@.len() <= POP_BOUND,
        ensures
            final(self).wf(),
            final(self).balls_synced(),
            final(self).spec_captured() == 0,
            final(self).spec_captured_required() == old(self).spec_levels()[
                index as int].num_captured,
            final(self).spec_shots() == old(self).spec_levels()[index as int].max_shots,
            final(self).spec_result() == GameResult::Playing,
            final(self).spec_frame_id() == 0,
            final(self).spec_level_id() == old(self).spec_level_id(),
            ({
                let target = old(self).spec_levels()[index as int].num_of_balls as int;
                let have = old(self).balls_view().len() as int;
                let needed = if have < target {
                    target - have
                } else {
                    0
                };
                &&& final(self).balls_view().len() == have + needed
                &&& forall|i: int|
                    0 <= i < have ==> final(self).balls_view()[i] == old(self).balls_view()[i]
                &&& forall|j: int|
                    0 <= j < needed ==> final(self).balls_view()[have + j] == spawned_ball(
                        spawns@[j],
                        (old(self).spec_next_id() + 1 + j) as usize,
                    )
                &&& final(self).spec_next_id() == old(self).spec_next_id() + needed
            }),
            final(self).spec_levels() == old(self).spec_levels(),
            final(self).spec_is_paused() == old(self).spec_is_paused(),
            final(self).spec_is_render_debug() == old(self).spec_is_render_debug(),
            final(self).spec_rect() == old(self).spec_rect(),
            final(self).spec_tree() == old(self).spec_tree(),
    {
        let level: Level = self.all_levels[index].clone();

        self.captured = 0;
        self.captured_required = level.num_captured;
        self.shots = level.max_shots;
        self.result = GameResult::Playing;
        self.frame_id = 0;

        let ghost have: int = self.objects@.len() as int;
        let ghost base_id: int = self.next_id as int;
        let mut k: usize = 0;
        while self.objects.len() < level.num_of_balls
            invariant
                self.wf(),
                self.balls_synced(),
                level == self.all_levels@[index as int],
                index < self.all_levels@.len(),
                forall|i: int|
                    0 <= i < spawns@.len() ==> spawn_seed_ok(
                        #[trigger] spawns@[i],
                        self.rect.w as int,
                        self.rect.h as int,
                    ),
                0 <= have,
                self.objects@.len() <= (if have >= level.num_of_balls {
                    have
                } else {
                    level.num_of_balls as int
                }),
                have + spawns@.len() >= level.num_of_balls,
                level.num_of_balls <= POP_BOUND,
                base_id + spawns@.len() <= POP_BOUND,
                k as int == self.objects@.len() - have,
                self.objects@.len() >= have,
                self.objects@.len() <= have + spawns@.len(),
                self.next_id as int == base_id + k,
                forall|i: int| 0 <= i < have ==> self.objects@[i] == old(self).objects@[i],
                forall|j: int|
                    0 <= j < k ==> self.objects@[have + j] == spawned_ball(
                        spawns@[j],
                        (base_id + 1 + j) as usize,
                    ),
                self.captured == 0,
                self.captured_required == level.num_captured,
                self.shots == level.max_shots,
                self.result == GameResult::Playing,
                self.frame_id == 0,
                self.level_id == old(self).level_id,
                self.all_levels@ == old(self).all_levels@,
                self.is_paused == old(self).is_paused,
                self.is_render_debug == old(self).is_render_debug,
                self.rect == old(self).rect,
                self.tree == old(self).tree,
            decreases level.num_of_balls - self.objects.len(),
        {
            proof {
                assert(self.objects@.len() < level.num_of_balls);
                assert(level.num_of_balls <= POP_BOUND);
            }
            let s = spawns[k];
            proof {
                crate::ball::lemma_catalog_ok(s.pick as int);
                broadcast use vstd::arithmetic::div_mod::lemma_div_is_ordered;

                assert(spec_ball_type(s.pick as int).velocity * 12 <= FAST * 12);
                assert(FAST * 12 / 10 == VEL_LIMIT);
                assert(0 <= spec_ball_type(s.pick as int).velocity * 8);
                assert(self.rect.w * 9 <= WIDTH * 9);
                assert(WIDTH * 9 / 10 <= WIDTH);
                assert(self.rect.h * 9 <= HEIGHT * 9);
                assert(HEIGHT * 9 / 10 <= HEIGHT);
            }
            let t = BallType::random_ball_type(s.pick);
            let mut b = Ball::random_ball(
                0,
                self.rect.w,
                self.rect.h,
                t,
                s.pos_x,
                s.pos_y,
                s.speed_x,
                s.speed_y,
                s.neg_x,
                s.neg_y,
            );
            proof {
                assert(0 <= s.pos_x <= WIDTH);
                assert(0 <= s.pos_y <= HEIGHT);
            }
            let ghost pre: Seq<Ball> = self.objects@;
            self.insert_object(&mut b);
            proof {
                let jj = k as int;
                assert(self.objects@ == pre.push(b));
                assert(self.objects@[have + jj] == b);
                assert(b == spawned_ball(spawns@[jj], (base_id + 1 + jj) as usize));
                assert(pre.len() < level.num_of_balls);
                assert(jj == pre.len() - have);
                assert(k < POP_BOUND);
                assert forall|j: int| 0 <= j < k + 1 implies self.objects@[have + j]
                    == spawned_ball(spawns@[j], (base_id + 1 + j) as usize) by {
                    if j < k as int {
                        assert(self.objects@[have + j] == pre[have + j]);
                    }
                }
                assert forall|i: int| 0 <= i < have implies self.objects@[i] == old(
                    self,
                ).objects@[i] by {
                    assert(self.objects@[i] == pre[i]);
                }
            }
            k += 1;
        }
    }

    /// Advance to the next level of the table: reset the counters, keep
    /// the surviving balls and top the population up from the seeds.
    pub fn next_level(&mut self, spawns: &Vec<SpawnSeed>)
        requires
            old(self).wf(),
            old(self).balls_synced(),
            old(self).spec_level_id() + 1 < old(self).spec_levels().len(),
            forall|i: int|
                0 <= i < spawns@.len() ==> spawn_seed_ok(
                    #[trigger] spawns@[i],
                    old(self).spec_rect().w as int,
                    old(self).spec_rect().h as int,
                ),
            old(self).balls_view().len() + spawns@.len() >= old(self).spec_levels()[old(
                self,
            ).spec_level_id() + 1].num_of_balls,
            old(self).spec_next_id() + spawns@.len() <= POP_BOUND,
        ensures
            final(self).wf(),
            final(self).balls_synced(),
            final(self).spec_level_id() == old(self).spec_level_id() + 1,
            final(self).spec_captured() == 0,
            final(self).spec_captured_required() == old(self).spec_levels()[old(
                self,
            ).spec_level_id() + 1].num_captured,
            final(self).spec_shots() == old(self).spec_levels()[old(
                self,
            ).spec_level_id() + 1].max_shots,
            final(self).spec_result() == GameResult::Playing,
            final(self).spec_frame_id() == 0,
            ({
                let target = old(self).spec_levels()[old(self).spec_level_id()
                    + 1].num_of_balls as int;
                let have = old(self).balls_view().len() as int;
                let needed = if have < target {
                    target - have
                } else {
                    0
                };
                &&& final(self).balls_view().len() == have + needed
                &&& forall|i: int|
                    0 <= i < have ==> final(self).balls_view()[i] == old(self).balls_view()[i]
                &&& forall|j: int|
                    0 <= j < needed ==> final(self).balls_view()[have + j] == spawned_ball(
                        spawns@[j],
                        (old(self).spec_next_id() + 1 + j) as usize,
                    )
                &&& final(self).spec_next_id() == old(self).spec_next_id() + needed
            }),
            final(self).spec_levels() == old(self).spec_levels(),
            final(self).spec_is_paused() == old(self).spec_is_paused(),
            final(self).spec_is_render_debug() == old(self).spec_is_render_debug(),
            final(self).spec_rect() == old(self).spec_rect(),
            final(self).spec_tree() == old(self).spec_tree(),
    {
        let total = self.all_levels.len();
        proof {
            assert(self.level_id < total);
        }
        let next_level_id: usize = self.level_id + 1;
        self.load_level(next_level_id, spawns);
        self.level_id = next_level_id;
    }

    /// Restart the current level: reset the counters and top the
    /// population back up from the seeds; surviving balls stay.
    pub fn restart(&mut self, spawns: &Vec<SpawnSeed>)
        requires
            old(self).wf(),
            old(self).balls_synced(),
            forall|i: int|
                0 <= i < spawns@.len() ==> spawn_seed_ok(
                    #[trigger] spawns@[i],
                    old(self).spec_rect().w as int,
                    old(self).spec_rect().h as int,
                ),
            old(self).balls_view().len() + spawns@.len() >= old(self).spec_levels()[old(
                self,
            ).spec_level_id() as int].num_of_balls,
            old(self).spec_next_id() + spawns@.len() <= POP_BOUND,
        ensures
            final(self).wf(),
            final(self).balls_synced(),
            final(self).spec_level_id() == old(self).spec_level_id(),
            final(self).spec_captured() == 0,
            final(self).spec_captured_required() == old(self).spec_levels()[old(
                self,
            ).spec_level_id() as int].num_captured,
            final(self).spec_shots() == old(self).spec_levels()[old(
                self,
            ).spec_level_id() as int].max_shots,
            final(self).spec_result() == GameResult::Playing,
            final(self).spec_frame_id() == 0,
            ({
                let target = old(self).spec_levels()[old(
                    self,
                ).spec_level_id() as int].num_of_balls as int;
                let have = old(self).balls_view().len() as int;
                let needed = if have < target {
                    target - have
                } else {
                    0
                };
                &&& final(self).balls_view().len() == have + needed
                &&& forall|i: int|
                    0 <= i < have ==> final(self).balls_view()[i] == old(self).balls_view()[i]
                &&& forall|j: int|
                    0 <= j < needed ==> final(self).balls_view()[have + j] == spawned_ball(
                        spawns@[j],
                        (old(self).spec_next_id() + 1 + j) as usize,
                    )
                &&& final(self).spec_next_id() == old(self).spec_next_id() + needed
            }),
            final(self).spec_levels() == old(self).spec_levels(),
            final(self).spec_is_paused() == old(self).spec_is_paused(),
            final(self).spec_is_render_debug() == old(self).spec_is_render_debug(),
            final(self).spec_rect() == old(self).spec_rect(),
            final(self).spec_tree() == old(self).spec_tree(),
    {
        let level_id = self.level_id;
        self.load_level(level_id, spawns);
    }

    /// A fresh game over an arena of the given size, populated for the
    /// opening level from the seeds, with an empty spatial index.
    pub fn new(width: i64, height: i64, spawns: &Vec<SpawnSeed>) -> (res: GameState)
        requires
            0 <= width <= WIDTH,
            0 <= height <= HEIGHT,
            forall|i: int|
                0 <= i < spawns@.len() ==> spawn_seed_ok(
                    #[trigger] spawns@[i],
                    width as int,
                    height as int,
                ),
            spawns@.len() >= spec_level_catalog()[1].num_of_balls,
            spawns@.len() + 1 <= POP_BOUND,
        ensures
            res.wf(),
            res.balls_synced(),
            res.spec_levels() == spec_level_catalog(),
            res.spec_rect() == (Rect { x: 0, y: 0, w: width, h: height }),
            res.spec_level_id() == 1,
            res.spec_captured() == 0,
            res.spec_captured_required() == spec_level_catalog()[1].num_captured,
            res.spec_shots() == spec_level_catalog()[1].max_shots,
            res.spec_result() == GameResult::Playing,
            res.spec_frame_id() == 0,
            res.spec_is_paused() == false,
            res.spec_is_render_debug() == false,
            res.balls_view().len() == spec_level_catalog()[1].num_of_balls,
            forall|j: int|
                0 <= j < spec_level_catalog()[1].num_of_balls ==> res.balls_view()[j]
                    == spawned_ball(spawns@[j], (2 + j) as usize),
            res.spec_next_id() == 1 + spec_level_catalog()[1].num_of_balls,
            res.spec_tree() is Some,
    {
        let mut all_levels: Vec<Level> = Vec::new();
        all_levels.push(Level::new(1, 5, 1));
        all_levels.push(Level::new(1, 5, 2));
        all_levels.push(Level::new(1, 8, 3));
        all_levels.push(Level::new(1, 10, 5));
        all_levels.push(Level::new(1, 15, 7));
        all_levels.push(Level::new(1, 20, 9));
        all_levels.push(Level::new(1, 20, 12));
        all_levels.push(Level::new(1, 25, 15));
        all_levels.push(Level::new(1, 30, 20));
        all_levels.push(Level::new(1, 30, 22));
        all_levels.push(Level::new(1, 35, 27));
        all_levels.push(Level::new(1, 40, 31));
        all_levels.push(Level::new(1, 45, 40));
        all_levels.push(Level::new(1, 55, 47));
        all_levels.push(Level::new(1, 60, 50));
        all_levels.push(Level::new(1, 65, 57));
        all_levels.push(Level::new(1, 65, 60));
        all_levels.push(Level::new(1, 90, 80));
        all_levels.push(Level::new(1, 99, 97));
        proof {
            assert(all_levels@ =~= spec_level_catalog());
        }

        let rect = Rect { x: 0, y: 0, w: width, h: height };
        let mut new_state = GameState {
            rect,
            objects: Vec::new(),
            next_id: 1,
            captured: 0,
            captured_required: 0,
            shots: 3,
            result: GameResult::Playing,
            tree: None,
            is_paused: false,
            is_render_debug: false,
            all_levels,
            level_id: 0,
            frame_id: 0,
        };

        new_state.next_level(spawns);

        proof {
            crate::quadtree::lemma_root_id_ok(width);
        }
        let qt = QuadTreeNode::new(rect, 0, 0);
        new_state.tree = qt;

        new_state
    }

    /// The player's shot: a no-op when no shots are left or the point lies
    /// outside the arena; otherwise one capture ball spawns there, already
    /// counted captured, and a shot is spent.
    pub fn create_capture_ball(&mut self, x: i64, y: i64)
        requires
            old(self).wf(),
            old(self).balls_synced(),
            old(self).spec_next_id() + 2 <= POP_BOUND,
            old(self).balls_view().len() + 1 <= POP_BOUND,
        ensures
            final(self).wf(),
            final(self).balls_synced(),
            (old(self).spec_shots() == 0 || !rect_contains(
                old(self).spec_rect(),
                x as int,
                y as int,
            )) ==> *final(self) == *old(self),
            (old(self).spec_shots() > 0 && rect_contains(
                old(self).spec_rect(),
                x as int,
                y as int,
            )) ==> {
                &&& final(self).spec_shots() == old(self).spec_shots() - 1
                &&& final(self).spec_next_id() == old(self).spec_next_id() + 2
                &&& final(self).balls_view() == old(self).balls_view().push(
                    spec_capture_ball((old(self).spec_next_id() + 2) as usize, x, y),
                )
                &&& final(self).spec_levels() == old(self).spec_levels()
                &&& final(self).spec_captured() == old(self).spec_captured()
                &&& final(self).spec_captured_required() == old(self).spec_captured_required()
                &&& final(self).spec_is_paused() == old(self).spec_is_paused()
                &&& final(self).spec_is_render_debug() == old(self).spec_is_render_debug()
                &&& final(self).spec_level_id() == old(self).spec_level_id()
                &&& final(self).spec_rect() == old(self).spec_rect()
                &&& final(self).spec_result() == old(self).spec_result()
                &&& final(self).spec_tree() == old(self).spec_tree()
                &&& final(self).spec_frame_id() == old(self).spec_frame_id()
            },
    {
        if self.shots == 0 {
            return ;
        }
        if !(Point { x, y }).is_in_rect(&self.rect) {
            return ;
        }

        let id = self.gen_next_id();
        let mut active_ball = Ball::new(
            id,
            Point { x, y },
            Point { x: 0, y: 0 },
            BallType::active_ball_type(),
            BallState::Expanding,
        );
        active_ball.is_captured = true;
        self.insert_object(&mut active_ball);
        self.shots = self.shots - 1;
    }
}

/// The union of the searches of the first `n` balls of `s` through `t`.
pub open spec fn cand_upto(t: QuadTreeNode, s: Seq<Ball>, n: int) -> Set<(usize, usize)> {
    Set::new(
        |k: (usize, usize)|
            exists|j: int| 0 <= j < n && t.spec_search(s[j].id).contains(k),
    )
}

/// The candidate `c` makes the ball at index `i` of `s` join the chain:
/// the pair names its id and that of an overlapping chain partner.
pub open spec fn cand_triggers(c: BallPairIds, s: Seq<Ball>, i: int) -> bool {
    &&& s[i].ball_state == BallState::Normal
    &&& exists|j: int|
        0 <= j < s.len() && j != i && pair_key(c) == pair_key(
            BallPairIds { first: s[i].id, second: s[j].id },
        ) && is_chain(s[j].ball_state) && balls_overlap(s[i], s[j])
}

/// Whether the list already holds the unordered pair `p`.
fn pairs_contain(v: &Vec<BallPairIds>, p: BallPairIds) -> (res: bool)
    ensures
        res == keys_of(v@).contains(pair_key(p)),
{
    let mut i: usize = 0;
    while i < v.len()
        invariant
            0 <= i <= v.len(),
            forall|j: int| 0 <= j < i ==> pair_key(v@[j]) != pair_key(p),
        decreases v.len() - i,
    {
        if v[i] == p {
            return true;
        }
        i += 1;
    }
    proof {
        if keys_of(v@).contains(pair_key(p)) {
            let j = choose|j: int| 0 <= j < v@.len() && pair_key(v@[j]) == pair_key(p);
            assert(false);
        }
    }
    false
}

/// The index of the ball carrying `id`; the id must be present.
fn find_ball_index(v: &Vec<Ball>, id: usize) -> (res: usize)
    requires
        exists|i: int| 0 <= i < v@.len() && v@[i].id == id,
    ensures
        res < v@.len(),
        v@[res as int].id == id,
{
    let mut i: usize = 0;
    while i < v.len()
        invariant
            0 <= i <= v.len(),
            forall|j: int| 0 <= j < i ==> v@[j].id != id,
            exists|j: int| 0 <= j < v@.len() && v@[j].id == id,
        decreases v.len() - i,
    {
        if v[i].id == id {
            return i;
        }
        i += 1;
    }
    proof {
        let j = choose|j: int| 0 <= j < v@.len() && v@[j].id == id;
        assert(false);
    }
    0
}

impl GameState {
    /// Rebuild the spatial index from scratch over the current positions
    /// and staged radii of all balls; the old tree is discarded.
    pub fn update_quadtree(&mut self)
        requires
            old(self).wf(),
        ensures
            final(self).wf(),
            final(self).tree_matches(),
            final(self).balls_view() == old(self).balls_view(),
            final(self).balls_synced() == old(self).balls_synced(),
            final(self).spec_levels() == old(self).spec_levels(),
            final(self).spec_captured() == old(self).spec_captured(),
            final(self).spec_captured_required() == old(self).spec_captured_required(),
            final(self).spec_is_paused() == old(self).spec_is_paused(),
            final(self).spec_is_render_debug() == old(self).spec_is_render_debug(),
            final(self).spec_level_id() == old(self).spec_level_id(),
            final(self).spec_next_id() == old(self).spec_next_id(),
            final(self).spec_rect() == old(self).spec_rect(),
            final(self).spec_result() == old(self).spec_result(),
            final(self).spec_shots() == old(self).spec_shots(),
            final(self).spec_frame_id() == old(self).spec_frame_id(),
    {
        let rect = self.rect;
        proof {
            crate::quadtree::lemma_root_id_ok(rect.w);
        }
        let qt = QuadTreeNode::new(rect, 0, 0);
        let mut root: Box<QuadTreeNode> = qt.unwrap();

        let mut i: usize = 0;
        while i < self.objects.len()
            invariant
                self.wf(),
                0 <= i <= self.objects.len(),
                root.wf(),
                root.spec_rect() == self.rect,
                root.spec_balls() == self.objects@.take(i as int),
            decreases self.objects.len() - i,
        {
            let ball = self.objects[i];
            proof {
                if root.has_id(ball.id) {
                    let j = choose|j: int|
                        0 <= j < root.spec_balls().len() && root.spec_balls()[j].id == ball.id;
                    assert(self.objects@[j].id == self.objects@[i as int].id);
                    assert(false);
                }
                assert(game_ball_ok(self.objects@[i as int]));
                assert(game_staged_ok(self.objects@[i as int]));
                assert(tree_ball_ok(ball));
            }
            root.insert_ball(&ball);
            proof {
                assert(self.objects@.take(i + 1).drop_last() =~= self.objects@.take(i as int));
                assert(root.spec_balls() =~= self.objects@.take(i + 1));
            }
            i += 1;
        }
        proof {
            assert(self.objects@.take(self.objects@.len() as int) =~= self.objects@);
        }
        self.tree = Some(root);
    }
}

/// Some of the first `n` candidates triggers the ball at index `i`.
pub open spec fn triggered_upto(cs: Seq<BallPairIds>, s: Seq<Ball>, n: int, i: int) -> bool {
    exists|m: int| 0 <= m < n && cand_triggers(cs[m], s, i)
}

/// Keys of a push: the old keys plus the key of the new pair.
proof fn lemma_keys_push(v: Seq<BallPairIds>, p: BallPairIds)
    ensures
        keys_of(v.push(p)) =~= keys_of(v).insert(pair_key(p)),
{
    assert forall|k: (usize, usize)| keys_of(v.push(p)).contains(k) implies keys_of(v).insert(
        pair_key(p),
    ).contains(k) by {
        let m = choose|m: int| 0 <= m < v.push(p).len() && pair_key(v.push(p)[m]) == k;
        if m < v.len() {
            assert(v.push(p)[m] == v[m]);
        }
    }
    assert forall|k: (usize, usize)| keys_of(v).insert(pair_key(p)).contains(k) implies keys_of(
        v.push(p),
    ).contains(k) by {
        if keys_of(v).contains(k) {
            let m = choose|m: int| 0 <= m < v.len() && pair_key(v[m]) == k;
            assert(v.push(p)[m] == v[m]);
        } else {
            assert(pair_key(v.push(p)[v.len() as int]) == k);
        }
    }
}

impl GameState {
    /// Gather the deduplicated candidate pairs from the index and apply the
    /// capture-propagation rule to each: whenever the staged bounding boxes
    /// of a candidate pair overlap and exactly one side is part of a chain
    /// while the other is still normal, the normal side stages `Expanding`
    /// and is flagged captured. The rule reads only live states and staged
    /// boxes, so any iteration order gives the same staged result, and
    /// because the index is complete the outcome is exactly the rule
    /// applied to every overlapping pair of the collection.
    #[verifier::rlimit(100)]
    pub fn handle_collisions(&mut self)
        requires
            old(self).wf(),
            old(self).tree_matches(),
        ensures
            final(self).wf(),
            final(self).spec_tree() == old(self).spec_tree(),
            final(self).balls_view().len() == old(self).balls_view().len(),
            forall|i: int|
                0 <= i < old(self).balls_view().len() ==> final(self).balls_view()[i] == prop_ball(
                    old(self).balls_view()[i],
                    prop_cond(old(self).balls_view(), i),
                ),
            final(self).spec_levels() == old(self).spec_levels(),
            final(self).spec_captured() == old(self).spec_captured(),
            final(self).spec_captured_required() == old(self).spec_captured_required(),
            final(self).spec_is_paused() == old(self).spec_is_paused(),
            final(self).spec_is_render_debug() == old(self).spec_is_render_debug(),
            final(self).spec_level_id() == old(self).spec_level_id(),
            final(self).spec_next_id() == old(self).spec_next_id(),
            final(self).spec_rect() == old(self).spec_rect(),
            final(self).spec_result() == old(self).spec_result(),
            final(self).spec_shots() == old(self).spec_shots(),
            final(self).spec_frame_id() == old(self).spec_frame_id(),
    {
        let ghost orig: Seq<Ball> = self.objects@;
        let ghost tr: QuadTreeNode = *self.spec_tree().unwrap();

        // Gather the candidate keys of every ball, deduplicated by the
        // symmetric pair identity.
        let mut candidates: Vec<BallPairIds> = Vec::new();
        let mut i: usize = 0;
        proof {
            assert(keys_of(candidates@) =~= cand_upto(tr, orig, 0));
        }
        while i < self.objects.len()
            invariant
                self.wf(),
                self.tree_matches(),
                self.objects@ == orig,
                tr == *self.spec_tree().unwrap(),
                0 <= i <= self.objects.len(),
                keys_of(candidates@) == cand_upto(tr, orig, i as int),
            decreases self.objects.len() - i,
        {
            let found = self.tree.as_ref().unwrap().search(self.objects[i].id);
            let mut j: usize = 0;
            while j < found.len()
                invariant
                    0 <= j <= found.len(),
                    keys_of(found@) == tr.spec_search(orig[i as int].id),
                    i < orig.len(),
                    keys_of(candidates@) == cand_upto(tr, orig, i as int) + keys_of(
                        found@.take(j as int),
                    ),
                decreases found.len() - j,
            {
                let f = found[j];
                let ghost before: Seq<BallPairIds> = candidates@;
                if !pairs_contain(&candidates, f) {
                    candidates.push(f);
                    proof {
                        lemma_keys_push(before, f);
                    }
                }
                proof {
                    assert(found@.take(j + 1).drop_last() =~= found@.take(j as int));
                    lemma_keys_push(found@.take(j as int), f);
                    assert(found@.take(j + 1) =~= found@.take(j as int).push(f));
                    assert(keys_of(candidates@) =~= cand_upto(tr, orig, i as int) + keys_of(
                        found@.take(j + 1),
                    ));
                }
                j += 1;
            }
            proof {
                assert(found@.take(found@.len() as int) =~= found@);
                assert forall|k: (usize, usize)| cand_upto(tr, orig, i + 1).contains(k) implies (
                cand_upto(tr, orig, i as int) + keys_of(found@)).contains(k) by {
                    let m = choose|m: int|
                        0 <= m < i + 1 && tr.spec_search(orig[m].id).contains(k);
                    if m < i {
                        assert(cand_upto(tr, orig, i as int).contains(k));
                    }
                }
                assert(keys_of(candidates@) =~= cand_upto(tr, orig, i + 1));
            }
            i += 1;
        }
        proof {
            assert forall|k: (usize, usize)| keys_of(candidates@).contains(k) implies
                tr.all_candidates().contains(k) by {
                let m = choose|m: int|
                    0 <= m < orig.len() && tr.spec_search(orig[m].id).contains(k);
                assert(tr.spec_search(tr.spec_balls()[m].id).contains(k));
            }
            assert forall|k: (usize, usize)| tr.all_candidates().contains(k) implies keys_of(
                candidates@,
            ).contains(k) by {
                let m = choose|m: int|
                    0 <= m < tr.spec_balls().len() && tr.spec_search(
                        tr.spec_balls()[m].id,
                    ).contains(k);
                assert(tr.spec_search(orig[m].id).contains(k));
                assert(cand_upto(tr, orig, orig.len() as int).contains(k));
            }
            assert(keys_of(candidates@) =~= tr.all_candidates());
        }

        // Apply the rule to both orientations of every candidate pair.
        let ghost cands: Seq<BallPairIds> = candidates@;
        let mut k: usize = 0;
        while k < candidates.len()
            invariant
                self.wf(),
                candidates@ == cands,
                keys_of(cands) == tr.all_candidates(),
                tr.wf(),
                tr.spec_balls() == orig,
                ids_distinct(orig),
                0 <= k <= candidates.len(),
                self.objects@.len() == orig.len(),
                forall|i: int|
                    0 <= i < orig.len() ==> self.objects@[i] == prop_ball(
                        orig[i],
                        triggered_upto(cands, orig, k as int, i),
                    ),
                self.all_levels@ == old(self).all_levels@,
                self.captured == old(self).captured,
                self.captured_required == old(self).captured_required,
                self.is_paused == old(self).is_paused,
                self.is_render_debug == old(self).is_render_debug,
                self.level_id == old(self).level_id,
                self.next_id == old(self).next_id,
                self.rect == old(self).rect,
                self.result == old(self).result,
                self.shots == old(self).shots,
                self.tree == old(self).tree,
                self.frame_id == old(self).frame_id,
            decreases candidates.len() - k,
        {
            let cand = candidates[k];
            proof {
                lemma_candidate_ids(tr, cands, orig, k as int);
                assert forall|i: int| 0 <= i < orig.len() implies self.objects@[i].id == orig[i].id
                    && self.objects@[i].ball_state == orig[i].ball_state && self.objects@[i].pos
                    == orig[i].pos && self.objects@[i].next_radius == orig[i].next_radius by {
                    assert(self.objects@[i] == prop_ball(
                        orig[i],
                        triggered_upto(cands, orig, k as int, i),
                    ));
                }
            }
            let first_idx = find_ball_index(&self.objects, cand.first);
            let second_idx = find_ball_index(&self.objects, cand.second);
            let ball1 = self.objects[first_idx];
            let ball2 = self.objects[second_idx];
            proof {
                assert(game_ball_ok(self.objects@[first_idx as int]));
                assert(game_staged_ok(self.objects@[first_idx as int]));
                assert(game_ball_ok(self.objects@[second_idx as int]));
                assert(game_staged_ok(self.objects@[second_idx as int]));
            }
            let r1 = ball1.bounding_rect_current();
            let r2 = ball2.bounding_rect_current();
            let overlapping = r1.intersects(r2) || r2.intersects(r1);
            let first_state = ball1.ball_state;
            let second_state = ball2.ball_state;

            let ghost before_objs: Seq<Ball> = self.objects@;
            if overlapping {
                if (first_state == BallState::Shrinking || first_state == BallState::Expanding)
                    && second_state == BallState::Normal {
                    let mut b = self.objects[second_idx];
                    b.next_ball_state = BallState::Expanding;
                    b.set_captured();
                    self.objects.set(second_idx, b);
                }
                if (second_state == BallState::Shrinking || second_state == BallState::Expanding)
                    && first_state == BallState::Normal {
                    let mut b = self.objects[first_idx];
                    b.next_ball_state = BallState::Expanding;
                    b.set_captured();
                    self.objects.set(first_idx, b);
                }
            }
            proof {
                let fi = first_idx as int;
                let si = second_idx as int;
                assert(balls_overlap(orig[fi], orig[si]) == overlapping) by {
                    assert(before_objs[fi].pos == orig[fi].pos && before_objs[fi].next_radius
                        == orig[fi].next_radius);
                    assert(before_objs[si].pos == orig[si].pos && before_objs[si].next_radius
                        == orig[si].next_radius);
                }
                lemma_prop_step(
                    cands,
                    orig,
                    before_objs,
                    self.objects@,
                    k as int,
                    fi,
                    si,
                    overlapping,
                );
            }
            k += 1;
        }

        // The candidate set is complete, so the loop has applied the rule
        // to every overlapping pair of the collection.
        proof {
            lemma_prop_complete(tr, cands, orig, self.objects@);
        }
    }
}

impl GameState {
    /// One frame of the simulation, strictly ordered: drop vanished balls,
    /// retally the captures, re-evaluate the outcome, stage every ball's
    /// physics, rebuild the index over the staged boxes, propagate the
    /// capture chain across every overlapping candidate pair, and commit
    /// all staged states atomically.
    ///
    /// Propagation reads only pre-tick live states, so a chain spreads one
    /// hop per tick; a newly captured ball starts expanding the next tick.
    pub fn tick(&mut self)
        requires
            old(self).wf(),
            old(self).balls_synced(),
            old(self).spec_frame_id() < usize::MAX,
        ensures
            final(self).wf(),
            final(self).balls_synced(),
            final(self).spec_frame_id() == old(self).spec_frame_id() + 1,
            final(self).balls_view().len() == cleaned_of(old(self).balls_view()).len(),
            forall|i: int|
                0 <= i < cleaned_of(old(self).balls_view()).len() ==> final(self).balls_view()[i]
                    == after_tick_ball(cleaned_of(old(self).balls_view()), i),
            final(self).spec_captured() as int == spec_captured_total(
                old(self).spec_levels()[old(self).spec_level_id() as int],
                old(self).spec_shots(),
                cleaned_of(old(self).balls_view()),
            ),
            final(self).spec_result() == spec_win_lose(
                old(self).spec_shots(),
                count_active(cleaned_of(old(self).balls_view())),
                final(self).spec_captured(),
                old(self).spec_captured_required(),
            ),
            final(self).spec_levels() == old(self).spec_levels(),
            final(self).spec_captured_required() == old(self).spec_captured_required(),
            final(self).spec_is_paused() == old(self).spec_is_paused(),
            final(self).spec_is_render_debug() == old(self).spec_is_render_debug(),
            final(self).spec_level_id() == old(self).spec_level_id(),
            final(self).spec_next_id() == old(self).spec_next_id(),
            final(self).spec_rect() == old(self).spec_rect(),
            final(self).spec_shots() == old(self).spec_shots(),
    {
        self.frame_id = self.frame_id + 1;

        // Remove every ball that vanished last tick.
        let ghost orig: Seq<Ball> = self.objects@;
        let mut kept: Vec<Ball> = Vec::new();
        let mut i: usize = 0;
        proof {
            assert(kept@ =~= cleaned_of(orig.take(0)));
        }
        while i < self.objects.len()
            invariant
                0 <= i <= self.objects.len(),
                self.objects@ == orig,
                kept@ == cleaned_of(orig.take(i as int)),
                kept@.len() <= i,
            decreases self.objects.len() - i,
        {
            let b = self.objects[i];
            proof {
                assert(orig.take(i + 1).drop_last() =~= orig.take(i as int));
                assert(orig.take(i + 1).last() == orig[i as int]);
            }
            if !(b.ball_state == BallState::Vanish) {
                kept.push(b);
            }
            i += 1;
        }
        proof {
            assert(orig.take(orig.len() as int) =~= orig);
            lemma_cleaned_of_props(orig);
        }
        self.objects = kept;
        proof {
            assert forall|j: int| 0 <= j < self.objects@.len() implies game_ball_ok(
                #[trigger] self.objects@[j],
            ) && game_staged_ok(self.objects@[j]) && ball_synced(self.objects@[j])
                && self.objects@[j].id <= self.next_id by {
                assert(cleaned_of(orig).contains(self.objects@[j])) by {
                    assert(cleaned_of(orig)[j] == self.objects@[j]);
                }
                assert(orig.contains(self.objects@[j]));
                let m = choose|m: int| 0 <= m < orig.len() && orig[m] == self.objects@[j];
                assert(game_ball_ok(orig[m]));
                assert(game_staged_ok(orig[m]));
                assert(ball_synced(orig[m]));
            }
        }
        let ghost cleaned: Seq<Ball> = self.objects@;

        // Retally the captures: what is gone beyond the level population,
        // plus what remains flagged.
        let level = self.all_levels[self.level_id];
        let mut flagged: usize = 0;
        let mut j: usize = 0;
        while j < self.objects.len()
            invariant
                0 <= j <= self.objects.len(),
                self.objects@ == cleaned,
                flagged == count_captured(cleaned.take(j as int)),
                flagged <= j,
            decreases self.objects.len() - j,
        {
            proof {
                assert(cleaned.take(j + 1).drop_last() =~= cleaned.take(j as int));
                assert(cleaned.take(j + 1).last() == cleaned[j as int]);
            }
            if self.objects[j].is_captured {
                flagged = flagged + 1;
            }
            j += 1;
        }
        proof {
            assert(cleaned.take(cleaned.len() as int) =~= cleaned);
        }
        let balance = level.num_of_balls + level.max_shots;
        let spent = self.shots + self.objects.len();
        let vanished = if balance >= spent {
            balance - spent
        } else {
            0
        };
        self.captured = vanished + flagged;

        // Re-evaluate the outcome before anything is committed.
        self.result = self.check_win_lose();

        // Stage every ball's physics; live state stays untouched.
        let mut t: usize = 0;
        while t < self.objects.len()
            invariant
                0 <= t <= self.objects.len(),
                self.objects@.len() == cleaned.len(),
                forall|m: int| 0 <= m < t ==> self.objects@[m] == spec_ball_staged(cleaned[m]),
                forall|m: int| t <= m < cleaned.len() ==> self.objects@[m] == cleaned[m],
                forall|m: int|
                    0 <= m < cleaned.len() ==> game_ball_ok(#[trigger] cleaned[m]) && game_staged_ok(
                        cleaned[m],
                    ) && ball_synced(cleaned[m]) && cleaned[m].id <= self.next_id,
                self.wf(),
                self.all_levels@ == old(self).all_levels@,
                self.captured as int == spec_captured_total(
                    old(self).all_levels@[old(self).level_id as int],
                    old(self).shots,
                    cleaned,
                ),
                self.captured_required == old(self).captured_required,
                self.is_paused == old(self).is_paused,
                self.is_render_debug == old(self).is_render_debug,
                self.level_id == old(self).level_id,
                self.next_id == old(self).next_id,
                self.rect == old(self).rect,
                self.result == spec_win_lose(
                    old(self).shots,
                    count_active(cleaned),
                    self.captured,
                    old(self).captured_required,
                ),
                self.shots == old(self).shots,
                self.frame_id == old(self).frame_id + 1,
            decreases self.objects.len() - t,
        {
            let mut b = self.objects[t];
            proof {
                assert(b == cleaned[t as int]);
                assert(crate::ball::ball_fields_bounded(b));
            }
            b.tick();
            proof {
                lemma_tick_staged_ok(cleaned[t as int]);
            }
            self.objects.set(t, b);
            t += 1;
        }
        let ghost staged: Seq<Ball> = self.objects@;
        proof {
            assert(staged =~= staged_all(cleaned));
        }

        // Rebuild the index over the staged boxes and propagate the chain.
        self.update_quadtree();
        self.handle_collisions();
        let ghost propagated: Seq<Ball> = self.objects@;

        // Commit every staged state.
        let mut c: usize = 0;
        while c < self.objects.len()
            invariant
                0 <= c <= self.objects.len(),
                self.objects@.len() == propagated.len(),
                propagated.len() == cleaned.len(),
                forall|m: int|
                    0 <= m < propagated.len() ==> propagated[m] == prop_ball(
                        staged_all(cleaned)[m],
                        prop_cond(staged_all(cleaned), m),
                    ),
                forall|m: int| 0 <= m < c ==> self.objects@[m] == spec_committed(propagated[m]),
                forall|m: int| c <= m < propagated.len() ==> self.objects@[m] == propagated[m],
                self.wf(),
                self.all_levels@ == old(self).all_levels@,
                self.captured as int == spec_captured_total(
                    old(self).all_levels@[old(self).level_id as int],
                    old(self).shots,
                    cleaned,
                ),
                self.captured_required == old(self).captured_required,
                self.is_paused == old(self).is_paused,
                self.is_render_debug == old(self).is_render_debug,
                self.level_id == old(self).level_id,
                self.next_id == old(self).next_id,
                self.rect == old(self).rect,
                self.result == spec_win_lose(
                    old(self).shots,
                    count_active(cleaned),
                    self.captured,
                    old(self).captured_required,
                ),
                self.shots == old(self).shots,
                self.frame_id == old(self).frame_id + 1,
            decreases self.objects.len() - c,
        {
            let mut b = self.objects[c];
            b.apply_tick_changes();
            proof {
                lemma_commit_ok(propagated[c as int]);
            }
            self.objects.set(c, b);
            c += 1;
        }
        proof {
            assert forall|m: int| 0 <= m < cleaned.len() implies self.objects@[m]
                == after_tick_ball(cleaned, m) by {
                assert(self.objects@[m] == spec_committed(propagated[m]));
            }
            assert forall|m: int| 0 <= m < self.objects@.len() implies ball_synced(
                #[trigger] self.objects@[m],
            ) by {
                assert(self.objects@[m] == spec_committed(propagated[m]));
                lemma_commit_ok(propagated[m]);
            }
        }
    }
}

/// One candidate of the list pairs two distinct ids that both belong to
/// balls of the collection the tree was built from.
proof fn lemma_candidate_ids(tr: QuadTreeNode, cands: Seq<BallPairIds>, orig: Seq<Ball>, k: int)
    requires
        tr.wf(),
        tr.spec_balls() == orig,
        keys_of(cands) == tr.all_candidates(),
        0 <= k < cands.len(),
    ensures
        cands[k].first != cands[k].second,
        exists|i: int| 0 <= i < orig.len() && orig[i].id == cands[k].first,
        exists|i: int| 0 <= i < orig.len() && orig[i].id == cands[k].second,
{
    let cand = cands[k];
    let key = pair_key(cand);
    assert(keys_of(cands).contains(key)) by {
        assert(pair_key(cands[k]) == key);
    }
    let m0 = choose|m: int|
        0 <= m < tr.spec_balls().len() && tr.spec_search(tr.spec_balls()[m].id).contains(key);
    crate::quadtree::lemma_search_sound(tr, tr.spec_balls()[m0].id, key);
    let ia = choose|i: int| 0 <= i < orig.len() && orig[i].id == key.0;
    let ib = choose|i: int| 0 <= i < orig.len() && orig[i].id == key.1;
    if cand.first <= cand.second {
        assert(key.0 == cand.first && key.1 == cand.second);
    } else {
        assert(key.0 == cand.second && key.1 == cand.first);
    }
    assert(orig[ia].id == key.0);
    assert(orig[ib].id == key.1);
}

/// One round of the propagation loop moves the pointwise characterization
/// from the first `k` candidates to the first `k + 1`.
proof fn lemma_prop_step(
    cands: Seq<BallPairIds>,
    orig: Seq<Ball>,
    before: Seq<Ball>,
    after: Seq<Ball>,
    k: int,
    fi: int,
    si: int,
    overlapping: bool,
)
    requires
        ids_distinct(orig),
        0 <= k < cands.len(),
        before.len() == orig.len(),
        after.len() == orig.len(),
        0 <= fi < orig.len(),
        0 <= si < orig.len(),
        orig[fi].id == cands[k].first,
        orig[si].id == cands[k].second,
        cands[k].first != cands[k].second,
        overlapping == balls_overlap(orig[fi], orig[si]),
        forall|i: int|
            0 <= i < orig.len() ==> before[i] == prop_ball(
                orig[i],
                triggered_upto(cands, orig, k, i),
            ),
        after[si] == (if overlapping && is_chain(orig[fi].ball_state) && orig[si].ball_state
            == BallState::Normal {
            Ball { next_ball_state: BallState::Expanding, is_captured: true, ..before[si] }
        } else {
            before[si]
        }),
        after[fi] == (if overlapping && is_chain(orig[si].ball_state) && orig[fi].ball_state
            == BallState::Normal {
            Ball { next_ball_state: BallState::Expanding, is_captured: true, ..before[fi] }
        } else {
            before[fi]
        }),
        forall|i: int| 0 <= i < orig.len() && i != fi && i != si ==> after[i] == before[i],
    ensures
        forall|i: int|
            0 <= i < orig.len() ==> after[i] == prop_ball(
                orig[i],
                triggered_upto(cands, orig, k + 1, i),
            ),
{
    let cand = cands[k];
    assert(fi != si);
    assert forall|i: int| 0 <= i < orig.len() implies after[i] == prop_ball(
        orig[i],
        triggered_upto(cands, orig, k + 1, i),
    ) by {
        let was = triggered_upto(cands, orig, k, i);
        let now = triggered_upto(cands, orig, k + 1, i);
        assert(was ==> now);
        if now && !was {
            let m = choose|m: int| 0 <= m < k + 1 && cand_triggers(cands[m], orig, i);
            assert(m == k);
            let j = choose|j: int|
                0 <= j < orig.len() && j != i && pair_key(cand) == pair_key(
                    BallPairIds { first: orig[i].id, second: orig[j].id },
                ) && is_chain(orig[j].ball_state) && balls_overlap(orig[i], orig[j]);
            assert(orig[i].id == cand.first || orig[i].id == cand.second);
            if orig[i].id == cand.first {
                assert(i == fi);
                assert(orig[j].id == cand.second);
                assert(j == si);
                assert(balls_overlap(orig[fi], orig[si]));
                assert(after[i] == prop_ball(orig[i], true));
            } else {
                assert(i == si);
                assert(orig[j].id == cand.first);
                assert(j == fi);
                assert(balls_overlap(orig[fi], orig[si]));
                assert(after[i] == prop_ball(orig[i], true));
            }
        }
        if !now {
            assert(!cand_triggers(cand, orig, i));
            if i == si {
                if overlapping && is_chain(orig[fi].ball_state) && orig[si].ball_state
                    == BallState::Normal {
                    assert(cand_triggers(cand, orig, si)) by {
                        assert(pair_key(cand) == pair_key(
                            BallPairIds { first: orig[si].id, second: orig[fi].id },
                        ));
                        assert(balls_overlap(orig[si], orig[fi]));
                    }
                    assert(false);
                }
            }
            if i == fi {
                if overlapping && is_chain(orig[si].ball_state) && orig[fi].ball_state
                    == BallState::Normal {
                    assert(cand_triggers(cand, orig, fi)) by {
                        assert(pair_key(cand) == pair_key(
                            BallPairIds { first: orig[fi].id, second: orig[si].id },
                        ));
                    }
                    assert(false);
                }
            }
            assert(after[i] == before[i]);
        }
    }
}

/// With a complete candidate set, the pointwise trigger over all
/// candidates is exactly the propagation condition.
proof fn lemma_prop_complete(
    tr: QuadTreeNode,
    cands: Seq<BallPairIds>,
    orig: Seq<Ball>,
    cur: Seq<Ball>,
)
    requires
        tr.wf(),
        tr.spec_balls() == orig,
        ids_distinct(orig),
        keys_of(cands) == tr.all_candidates(),
        cur.len() == orig.len(),
        forall|i: int|
            0 <= i < orig.len() ==> cur[i] == prop_ball(
                orig[i],
                triggered_upto(cands, orig, cands.len() as int, i),
            ),
    ensures
        forall|i: int| 0 <= i < orig.len() ==> cur[i] == prop_ball(orig[i], prop_cond(orig, i)),
{
    let n = cands.len() as int;
    assert forall|i: int| 0 <= i < orig.len() implies cur[i] == prop_ball(
        orig[i],
        prop_cond(orig, i),
    ) by {
        if triggered_upto(cands, orig, n, i) {
            let m = choose|m: int| 0 <= m < n && cand_triggers(cands[m], orig, i);
            let j = choose|j: int|
                0 <= j < orig.len() && j != i && pair_key(cands[m]) == pair_key(
                    BallPairIds { first: orig[i].id, second: orig[j].id },
                ) && is_chain(orig[j].ball_state) && balls_overlap(orig[i], orig[j]);
            assert(prop_cond(orig, i));
        }
        if prop_cond(orig, i) {
            let j = choose|j: int|
                0 <= j < orig.len() && j != i && is_chain(orig[j].ball_state) && balls_overlap(
                    orig[i],
                    orig[j],
                );
            assert(orig[i].id != orig[j].id);
            assert(tr.spec_balls().contains(orig[i])) by {
                assert(tr.spec_balls()[i] == orig[i]);
            }
            assert(tr.spec_balls().contains(orig[j])) by {
                assert(tr.spec_balls()[j] == orig[j]);
            }
            crate::quadtree::lemma_search_complete(tr, orig[i], orig[j]);
            let key = pair_key(BallPairIds { first: orig[i].id, second: orig[j].id });
            assert(tr.all_candidates().contains(key)) by {
                if tr.spec_search(orig[i].id).contains(key) {
                    assert(tr.spec_search(tr.spec_balls()[i].id).contains(key));
                } else {
                    assert(tr.spec_search(tr.spec_balls()[j].id).contains(key));
                }
            }
            assert(keys_of(cands).contains(key));
            let m = choose|m: int| 0 <= m < cands.len() && pair_key(cands[m]) == key;
            assert(cand_triggers(cands[m], orig, i));
            assert(triggered_upto(cands, orig, n, i));
        }
    }
}

/// The win/lose rule on explicit counters: `actives` chain balls still in
/// motion, `captured` captures against the `required` quota.
pub fn win_lose_outcome(shots: usize, actives: usize, captured: usize, required: usize) -> (res:
    GameResult)
    ensures
        res == spec_win_lose(shots, actives as int, captured, required),
{
    if shots == 0 && actives == 0 {
        if captured >= required {
            return GameResult::Won;
        }
        return GameResult::Lost;
    }
    GameResult::Playing
}

} // verus!
