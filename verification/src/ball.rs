//! The ball entity: archetype catalog, per-ball physics and the
//! expand/shrink/vanish state machine, and the pairwise collision tests.
//!
//! A ball double-buffers its state: `tick` writes only the staged `next_*`
//! fields, and a separate `apply_tick_changes` commits them, so that collision
//! evaluation during a tick always observes the consistent pre-tick world.

use vstd::prelude::*;

use crate::constants::{
    BIG, CATALOG_SIZE, COLOSSAL, EXPLODES, FAST, FULL, GROWS, HEIGHT, LARGE, SHRINK_STEP, SLOW,
    SMALL, TINY, VANISH_RADIUS, WIDTH,
};
use crate::geometry::{rect_contains, rect_intersects, Point, Rect};

verus! {

/// Bound on every coordinate field of a ball that the arithmetic here
/// accepts; far above anything the arena produces, it only keeps squares and
/// sums exact in `i64`.
pub const BALL_BOUND: i64 = 0x100_0000;

/// An RGB color.
#[derive(Clone, Copy, Debug, PartialEq, Eq, Structural)]
pub struct Color {
    pub r: u8,
    pub g: u8,
    pub b: u8,
}

/// The decimal digit `d` as a character.
pub open spec fn digit_char(d: int) -> char {
    if d == 1 {
        '1'
    } else if d == 2 {
        '2'
    } else if d == 3 {
        '3'
    } else if d == 4 {
        '4'
    } else if d == 5 {
        '5'
    } else if d == 6 {
        '6'
    } else if d == 7 {
        '7'
    } else if d == 8 {
        '8'
    } else if d == 9 {
        '9'
    } else {
        '0'
    }
}

/// The decimal digits of a non-negative number, most significant first.
pub open spec fn dec_seq(n: int) -> Seq<char>
    decreases n,
{
    if n < 10 {
        seq![digit_char(n)]
    } else {
        dec_seq(n / 10) + seq![digit_char(n % 10)]
    }
}

/// The decimal digit `d` as a one-character string.
fn digit_str(d: usize) -> (res: &'static str)
    requires
        d < 10,
    ensures
        res@ == seq![digit_char(d as int)],
{
    proof {
        reveal_strlit("0");
        reveal_strlit("1");
        reveal_strlit("2");
        reveal_strlit("3");
        reveal_strlit("4");
        reveal_strlit("5");
        reveal_strlit("6");
        reveal_strlit("7");
        reveal_strlit("8");
        reveal_strlit("9");
    }
    let res: &'static str = if d == 1 {
        "1"
    } else if d == 2 {
        "2"
    } else if d == 3 {
        "3"
    } else if d == 4 {
        "4"
    } else if d == 5 {
        "5"
    } else if d == 6 {
        "6"
    } else if d == 7 {
        "7"
    } else if d == 8 {
        "8"
    } else if d == 9 {
        "9"
    } else {
        "0"
    };
    proof {
        assert(res@ =~= seq![digit_char(d as int)]);
    }
    res
}

/// Append the decimal rendering of `n` to `s`.
pub fn append_decimal(s: &mut String, n: usize)
    ensures
        final(s)@ == old(s)@ + dec_seq(n as int),
    decreases n,
{
    if n >= 10 {
        append_decimal(s, n / 10);
    }
    let d = digit_str(n % 10);
    s.append(d);
    proof {
        assert(final(s)@ =~= old(s)@ + dec_seq(n as int));
    }
}

/// The character sequence `rgb(r,g,b)` for a color.
pub open spec fn color_chars(c: Color) -> Seq<char> {
    seq!['r', 'g', 'b', '('] + dec_seq(c.r as int) + seq![','] + dec_seq(c.g as int) + seq![',']
        + dec_seq(c.b as int) + seq![')']
}

impl Color {
    /// The CSS-style rendering `rgb(r,g,b)` of the color.
    pub fn to_string(self) -> (res: String)
        ensures
            res@ == color_chars(self),
    {
        proof {
            reveal_strlit("rgb(");
            reveal_strlit(",");
            reveal_strlit(")");
        }
        let mut s = String::new();
        s.append("rgb(");
        append_decimal(&mut s, self.r as usize);
        s.append(",");
        append_decimal(&mut s, self.g as usize);
        s.append(",");
        append_decimal(&mut s, self.b as usize);
        s.append(")");
        proof {
            assert(s@ =~= color_chars(self));
        }
        s
    }
}

/// The per-ball life cycle: `Vanish` is terminal; `Normal` leaves it only
/// through collision propagation, never by itself.
#[derive(Debug, Clone, Copy, PartialEq, Eq, Structural)]
pub enum BallState {
    Normal,
    Expanding,
    Shrinking,
    Vanish,
}

/// An immutable archetype balls are instantiated from: color, base radius,
/// growth rate and cap, and base speed magnitude.
#[derive(Debug, Clone, Copy)]
pub struct BallType {
    pub color: Color,
    pub radius: i64,
    pub growth_speed: i64,
    pub growth_size: i64,
    pub velocity: i64,
    pub name: &'static str,
}

/// The archetype catalog that random spawning draws from, in drawing order.
pub open spec fn spec_ball_type(i: int) -> BallType {
    if i == 0 {
        BallType {
            color: Color { r: 255, g: 255, b: 255 },
            radius: BIG,
            growth_speed: EXPLODES,
            growth_size: LARGE,
            velocity: SLOW,
            name: "WHITE_BALL",
        }
    } else if i == 1 {
        BallType {
            color: Color { r: 255, g: 165, b: 0 },
            radius: TINY,
            growth_speed: GROWS,
            growth_size: FULL,
            velocity: SLOW,
            name: "ORANGE_BALL",
        }
    } else if i == 2 {
        BallType {
            color: Color { r: 128, g: 69, b: 19 },
            radius: TINY,
            growth_speed: EXPLODES,
            growth_size: FULL,
            velocity: SLOW,
            name: "BROWN_BALL",
        }
    } else if i == 3 {
        BallType {
            color: Color { r: 0, g: 0, b: 128 },
            radius: TINY,
            growth_speed: GROWS,
            growth_size: FULL,
            velocity: FAST,
            name: "NAVY_BALL",
        }
    } else if i == 4 {
        BallType {
            color: Color { r: 128, g: 0, b: 128 },
            radius: TINY,
            growth_speed: EXPLODES,
            growth_size: FULL,
            velocity: FAST,
            name: "PURPLE_BALL",
        }
    } else if i == 5 {
        BallType {
            color: Color { r: 128, g: 128, b: 128 },
            radius: SMALL,
            growth_speed: GROWS,
            growth_size: FULL,
            velocity: FAST,
            name: "GRAY_BALL",
        }
    } else if i == 6 {
        BallType {
            color: Color { r: 255, g: 255, b: 0 },
            radius: SMALL,
            growth_speed: GROWS,
            growth_size: FULL,
            velocity: SLOW,
            name: "YELLOW_BALL",
        }
    } else if i == 7 {
        BallType {
            color: Color { r: 255, g: 0, b: 0 },
            radius: SMALL,
            growth_speed: EXPLODES,
            growth_size: FULL,
            velocity: FAST,
            name: "RED_BALL",
        }
    } else if i == 8 {
        BallType {
            color: Color { r: 0, g: 255, b: 255 },
            radius: SMALL,
            growth_speed: EXPLODES,
            growth_size: FULL,
            velocity: SLOW,
            name: "CYAN_BALL",
        }
    } else if i == 9 {
        BallType {
            color: Color { r: 255, g: 0, b: 255 },
            radius: SMALL,
            growth_speed: GROWS,
            growth_size: FULL,
            velocity: SLOW,
            name: "MAGENTA_BALL",
        }
    } else if i == 10 {
        BallType {
            color: Color { r: 0, g: 128, b: 128 },
            radius: SMALL,
            growth_speed: EXPLODES,
            growth_size: FULL,
            velocity: SLOW,
            name: "TEAL_BALL",
        }
    } else if i == 11 {
        BallType {
            color: Color { r: 0, g: 0, b: 255 },
            radius: SMALL,
            growth_speed: GROWS,
            growth_size: FULL,
            velocity: FAST,
            name: "BLUE_BALL",
        }
    } else if i == 12 {
        BallType {
            color: Color { r: 0, g: 255, b: 0 },
            radius: SMALL,
            growth_speed: EXPLODES,
            growth_size: FULL,
            velocity: FAST,
            name: "GREEN_BALL",
        }
    } else if i == 13 {
        BallType {
            color: Color { r: 128, g: 128, b: 0 },
            radius: TINY,
            growth_speed: GROWS,
            growth_size: FULL,
            velocity: FAST,
            name: "OLIVE_BALL",
        }
    } else if i == 14 {
        BallType {
            color: Color { r: 128, g: 0, b: 0 },
            radius: TINY,
            growth_speed: EXPLODES,
            growth_size: FULL,
            velocity: FAST,
            name: "MAROON_BALL",
        }
    } else if i == 15 {
        BallType {
            color: Color { r: 0, g: 128, b: 0 },
            radius: TINY,
            growth_speed: GROWS,
            growth_size: FULL,
            velocity: SLOW,
            name: "FORREST_BALL",
        }
    } else {
        BallType {
            color: Color { r: 192, g: 192, b: 192 },
            radius: TINY,
            growth_speed: EXPLODES,
            growth_size: COLOSSAL,
            velocity: SLOW,
            name: "SILVER_BALL",
        }
    }
}

/// The archetype of the player-fired capture ball: gold, small, slow growth,
/// always spawned already expanding.
pub open spec fn spec_active_ball_type() -> BallType {
    BallType {
        color: Color { r: 255, g: 215, b: 0 },
        radius: TINY,
        growth_speed: GROWS,
        growth_size: FULL,
        velocity: SLOW,
        name: "ACTIVE_BALL",
    }
}

/// An archetype is internally consistent: positive growth towards a cap no
/// smaller than the base radius, within the global size and speed bounds.
pub open spec fn ball_type_ok(t: BallType) -> bool {
    &&& TINY <= t.radius <= t.growth_size
    &&& t.growth_size <= COLOSSAL
    &&& 1 <= t.growth_speed <= EXPLODES
    &&& SLOW <= t.velocity <= FAST
}

/// Every archetype of the catalog, and the capture-ball archetype, is
/// internally consistent.
pub proof fn lemma_catalog_ok(i: int)
    ensures
        ball_type_ok(spec_ball_type(i)),
        ball_type_ok(spec_active_ball_type()),
{
}

impl BallType {
    /// The catalog archetype at position `pick`; the caller supplies the
    /// randomly drawn index.
    pub fn random_ball_type(pick: usize) -> (t: BallType)
        requires
            pick < CATALOG_SIZE,
        ensures
            t == spec_ball_type(pick as int),
    {
        if pick == 0 {
            BallType {
                color: Color { r: 255, g: 255, b: 255 },
                radius: BIG,
                growth_speed: EXPLODES,
                growth_size: LARGE,
                velocity: SLOW,
                name: "WHITE_BALL",
            }
        } else if pick == 1 {
            BallType {
                color: Color { r: 255, g: 165, b: 0 },
                radius: TINY,
                growth_speed: GROWS,
                growth_size: FULL,
                velocity: SLOW,
                name: "ORANGE_BALL",
            }
        } else if pick == 2 {
            BallType {
                color: Color { r: 128, g: 69, b: 19 },
                radius: TINY,
                growth_speed: EXPLODES,
                growth_size: FULL,
                velocity: SLOW,
                name: "BROWN_BALL",
            }
        } else if pick == 3 {
            BallType {
                color: Color { r: 0, g: 0, b: 128 },
                radius: TINY,
                growth_speed: GROWS,
                growth_size: FULL,
                velocity: FAST,
                name: "NAVY_BALL",
            }
        } else if pick == 4 {
            BallType {
                color: Color { r: 128, g: 0, b: 128 },
                radius: TINY,
                growth_speed: EXPLODES,
                growth_size: FULL,
                velocity: FAST,
                name: "PURPLE_BALL",
            }
        } else if pick == 5 {
            BallType {
                color: Color { r: 128, g: 128, b: 128 },
                radius: SMALL,
                growth_speed: GROWS,
                growth_size: FULL,
                velocity: FAST,
                name: "GRAY_BALL",
            }
        } else if pick == 6 {
            BallType {
                color: Color { r: 255, g: 255, b: 0 },
                radius: SMALL,
                growth_speed: GROWS,
                growth_size: FULL,
                velocity: SLOW,
                name: "YELLOW_BALL",
            }
        } else if pick == 7 {
            BallType {
                color: Color { r: 255, g: 0, b: 0 },
                radius: SMALL,
                growth_speed: EXPLODES,
                growth_size: FULL,
                velocity: FAST,
                name: "RED_BALL",
            }
        } else if pick == 8 {
            BallType {
                color: Color { r: 0, g: 255, b: 255 },
                radius: SMALL,
                growth_speed: EXPLODES,
                growth_size: FULL,
                velocity: SLOW,
                name: "CYAN_BALL",
            }
        } else if pick == 9 {
            BallType {
                color: Color { r: 255, g: 0, b: 255 },
                radius: SMALL,
                growth_speed: GROWS,
                growth_size: FULL,
                velocity: SLOW,
                name: "MAGENTA_BALL",
            }
        } else if pick == 10 {
            BallType {
                color: Color { r: 0, g: 128, b: 128 },
                radius: SMALL,
                growth_speed: EXPLODES,
                growth_size: FULL,
                velocity: SLOW,
                name: "TEAL_BALL",
            }
        } else if pick == 11 {
            BallType {
                color: Color { r: 0, g: 0, b: 255 },
                radius: SMALL,
                growth_speed: GROWS,
                growth_size: FULL,
                velocity: FAST,
                name: "BLUE_BALL",
            }
        } else if pick == 12 {
            BallType {
                color: Color { r: 0, g: 255, b: 0 },
                radius: SMALL,
                growth_speed: EXPLODES,
                growth_size: FULL,
                velocity: FAST,
                name: "GREEN_BALL",
            }
        } else if pick == 13 {
            BallType {
                color: Color { r: 128, g: 128, b: 0 },
                radius: TINY,
                growth_speed: GROWS,
                growth_size: FULL,
                velocity: FAST,
                name: "OLIVE_BALL",
            }
        } else if pick == 14 {
            BallType {
                color: Color { r: 128, g: 0, b: 0 },
                radius: TINY,
                growth_speed: EXPLODES,
                growth_size: FULL,
                velocity: FAST,
                name: "MAROON_BALL",
            }
        } else if pick == 15 {
            BallType {
                color: Color { r: 0, g: 128, b: 0 },
                radius: TINY,
                growth_speed: GROWS,
                growth_size: FULL,
                velocity: SLOW,
                name: "FORREST_BALL",
            }
        } else {
            BallType {
                color: Color { r: 192, g: 192, b: 192 },
                radius: TINY,
                growth_speed: EXPLODES,
                growth_size: COLOSSAL,
                velocity: SLOW,
                name: "SILVER_BALL",
            }
        }
    }

    /// The archetype of the player-fired capture ball.
    pub fn active_ball_type() -> (t: BallType)
        ensures
            t == spec_active_ball_type(),
    {
        BallType {
            color: Color { r: 255, g: 215, b: 0 },
            radius: TINY,
            growth_speed: GROWS,
            growth_size: FULL,
            velocity: SLOW,
            name: "ACTIVE_BALL",
        }
    }
}

/// A ball: identity, live physical state, and the staged next state that a
/// tick computes and a commit copies over.
#[derive(Debug, Clone, Copy)]
pub struct Ball {
    pub id: usize,
    pub ball_type: &'static str,
    pub pos: Point,
    pub radius: i64,
    pub velocity: Point,
    pub color: Color,
    pub ball_state: BallState,
    pub radius_growth: i64,
    pub max_radius: i64,
    pub next_position: Point,
    pub next_radius: i64,
    pub next_velocity: Point,
    pub next_ball_state: BallState,
    pub is_captured: bool,
}

/// Every coordinate field of the ball is small enough for exact `i64`
/// arithmetic.
pub open spec fn ball_fields_bounded(b: Ball) -> bool {
    &&& -BALL_BOUND <= b.pos.x <= BALL_BOUND
    &&& -BALL_BOUND <= b.pos.y <= BALL_BOUND
    &&& -BALL_BOUND <= b.velocity.x <= BALL_BOUND
    &&& -BALL_BOUND <= b.velocity.y <= BALL_BOUND
    &&& -BALL_BOUND <= b.next_position.x <= BALL_BOUND
    &&& -BALL_BOUND <= b.next_position.y <= BALL_BOUND
    &&& -BALL_BOUND <= b.next_velocity.x <= BALL_BOUND
    &&& -BALL_BOUND <= b.next_velocity.y <= BALL_BOUND
    &&& -BALL_BOUND <= b.radius <= BALL_BOUND
    &&& -BALL_BOUND <= b.next_radius <= BALL_BOUND
    &&& -BALL_BOUND <= b.radius_growth <= BALL_BOUND
    &&& -BALL_BOUND <= b.max_radius <= BALL_BOUND
}

/// The ball a constructor returns: live state from the arguments, staged
/// state synchronized with it, not yet captured.
pub open spec fn spec_new_ball(
    id: usize,
    pos: Point,
    velocity: Point,
    ball_type: BallType,
    ball_state: BallState,
) -> Ball {
    Ball {
        id,
        ball_type: ball_type.name,
        pos,
        velocity,
        ball_state,
        radius: ball_type.radius,
        color: ball_type.color,
        radius_growth: ball_type.growth_speed,
        max_radius: ball_type.growth_size,
        next_position: pos,
        next_velocity: velocity,
        next_radius: ball_type.radius,
        next_ball_state: ball_state,
        is_captured: false,
    }
}

/// The tentative next position `pos + velocity`, with the live radius, would
/// cross the left or right arena wall.
pub open spec fn spec_hit_wall_x(b: Ball) -> bool {
    ||| b.pos.x + b.velocity.x + b.radius > WIDTH
    ||| b.pos.x + b.velocity.x - b.radius < 0
}

/// The tentative next position would cross the top or bottom arena wall.
pub open spec fn spec_hit_wall_y(b: Ball) -> bool {
    ||| b.pos.y + b.velocity.y + b.radius > HEIGHT
    ||| b.pos.y + b.velocity.y - b.radius < 0
}

/// The staged velocity after the wall check: each axis that would cross a
/// wall gets the live component negated; the others keep their staged value.
pub open spec fn spec_wall_velocity(b: Ball) -> Point {
    Point {
        x: if spec_hit_wall_x(b) {
            (-b.velocity.x) as i64
        } else {
            b.next_velocity.x
        },
        y: if spec_hit_wall_y(b) {
            (-b.velocity.y) as i64
        } else {
            b.next_velocity.y
        },
    }
}

/// The ball after the wall-bounce part of a tick: the staged position is
/// always `pos + velocity` with the pre-flip velocity, so a bounce changes
/// the heading only for the following tick.
pub open spec fn spec_ball_walled(b: Ball) -> Ball {
    Ball {
        next_position: Point {
            x: (b.pos.x + b.velocity.x) as i64,
            y: (b.pos.y + b.velocity.y) as i64,
        },
        next_velocity: spec_wall_velocity(b),
        ..b
    }
}

/// The ball after the state-machine part of a tick, applied on top of the
/// wall bounce: expanding grows linearly towards the cap and then turns to
/// shrinking; shrinking loses `SHRINK_STEP / radius` and vanishes below the
/// threshold; both pin the staged velocity to zero.
pub open spec fn spec_ball_staged(b: Ball) -> Ball {
    let walled = spec_ball_walled(b);
    match b.ball_state {
        BallState::Expanding => {
            let grown = if b.radius + b.radius_growth <= b.max_radius {
                (b.radius + b.radius_growth) as i64
            } else {
                b.max_radius
            };
            Ball {
                next_velocity: Point { x: 0, y: 0 },
                next_radius: grown,
                next_ball_state: if grown == b.max_radius {
                    BallState::Shrinking
                } else {
                    walled.next_ball_state
                },
                ..walled
            }
        },
        BallState::Shrinking => {
            let shrunk = (b.next_radius - SHRINK_STEP / b.radius) as i64;
            Ball {
                next_velocity: Point { x: 0, y: 0 },
                next_radius: shrunk,
                next_ball_state: if shrunk < VANISH_RADIUS {
                    BallState::Vanish
                } else {
                    walled.next_ball_state
                },
                ..walled
            }
        },
        BallState::Normal => walled,
        BallState::Vanish => walled,
    }
}

/// The ball after a commit: the staged fields become live.
pub open spec fn spec_committed(b: Ball) -> Ball {
    Ball {
        pos: b.next_position,
        velocity: b.next_velocity,
        radius: b.next_radius,
        ball_state: b.next_ball_state,
        ..b
    }
}

impl Ball {
    /// A ball built from explicit position, velocity, archetype and state.
    pub fn new(
        id: usize,
        pos: Point,
        velocity: Point,
        ball_type: BallType,
        ball_state: BallState,
    ) -> (res: Ball)
        ensures
            res == spec_new_ball(id, pos, velocity, ball_type, ball_state),
    {
        Ball {
            id,
            ball_type: ball_type.name,
            pos,
            velocity,
            ball_state,
            radius: ball_type.radius,
            color: ball_type.color,
            radius_growth: ball_type.growth_speed,
            max_radius: ball_type.growth_size,
            next_position: pos,
            next_velocity: velocity,
            next_radius: ball_type.radius,
            next_ball_state: ball_state,
            is_captured: false,
        }
    }

    /// A randomly spawned normal ball. The caller supplies the randomly
    /// drawn position (within the inner 80% of the arena on each axis), the
    /// speed magnitudes (within 0.8 to 1.2 times the archetype speed) and
    /// the sign of each velocity component.
    pub fn random_ball(
        id: usize,
        width: i64,
        height: i64,
        ball_type: BallType,
        pos_x: i64,
        pos_y: i64,
        speed_x: i64,
        speed_y: i64,
        neg_x: bool,
        neg_y: bool,
    ) -> (res: Ball)
        requires
            0 <= width <= WIDTH,
            0 <= height <= HEIGHT,
            0 <= ball_type.velocity <= FAST,
            width / 10 <= pos_x <= width * 9 / 10,
            height / 10 <= pos_y <= height * 9 / 10,
            ball_type.velocity * 8 / 10 <= speed_x <= ball_type.velocity * 12 / 10,
            ball_type.velocity * 8 / 10 <= speed_y <= ball_type.velocity * 12 / 10,
        ensures
            res == spec_new_ball(
                id,
                Point { x: pos_x, y: pos_y },
                Point {
                    x: if neg_x {
                        (-speed_x) as i64
                    } else {
                        speed_x
                    },
                    y: if neg_y {
                        (-speed_y) as i64
                    } else {
                        speed_y
                    },
                },
                ball_type,
                BallState::Normal,
            ),
    {
        let pos = Point::random_point(width, height, pos_x, pos_y);
        let vel = Point::random_velocity(
            ball_type.velocity * 8 / 10,
            ball_type.velocity * 12 / 10,
            speed_x,
            speed_y,
            neg_x,
            neg_y,
        );
        Ball::new(id, pos, vel, ball_type, BallState::Normal)
    }

    /// The wall-bounce part of a tick: stage `pos + velocity` and flip the
    /// staged velocity on each axis whose tentative position would cross a
    /// wall.
    fn check_wall_collisions(&mut self)
        requires
            ball_fields_bounded(*old(self)),
        ensures
            *final(self) == spec_ball_walled(*old(self)),
    {
        let next_x = self.pos.x + self.velocity.x;
        let next_y = self.pos.y + self.velocity.y;

        if next_x + self.radius > WIDTH {
            self.next_velocity.x = -self.velocity.x;
        }
        if next_x - self.radius < 0 {
            self.next_velocity.x = -self.velocity.x;
        }
        if next_y + self.radius > HEIGHT {
            self.next_velocity.y = -self.velocity.y;
        }
        if next_y - self.radius < 0 {
            self.next_velocity.y = -self.velocity.y;
        }

        self.next_position = Point { x: next_x, y: next_y };
    }

    /// The state-machine part of a tick.
    fn handle_ball_states(&mut self)
        requires
            -BALL_BOUND <= old(self).radius <= BALL_BOUND,
            -BALL_BOUND <= old(self).radius_growth <= BALL_BOUND,
            -BALL_BOUND <= old(self).max_radius <= BALL_BOUND,
            -2 * BALL_BOUND <= old(self).next_radius <= 2 * BALL_BOUND,
            old(self).ball_state == BallState::Shrinking ==> old(self).radius >= 1,
        ensures
            *final(self) == (match old(self).ball_state {
                BallState::Expanding => {
                    let grown = if old(self).radius + old(self).radius_growth <= old(
                        self,
                    ).max_radius {
                        (old(self).radius + old(self).radius_growth) as i64
                    } else {
                        old(self).max_radius
                    };
                    Ball {
                        next_velocity: Point { x: 0, y: 0 },
                        next_radius: grown,
                        next_ball_state: if grown == old(self).max_radius {
                            BallState::Shrinking
                        } else {
                            old(self).next_ball_state
                        },
                        ..*old(self)
                    }
                },
                BallState::Shrinking => {
                    let shrunk = (old(self).next_radius - SHRINK_STEP / old(self).radius) as i64;
                    Ball {
                        next_velocity: Point { x: 0, y: 0 },
                        next_radius: shrunk,
                        next_ball_state: if shrunk < VANISH_RADIUS {
                            BallState::Vanish
                        } else {
                            old(self).next_ball_state
                        },
                        ..*old(self)
                    }
                },
                BallState::Normal => *old(self),
                BallState::Vanish => *old(self),
            }),
    {
        match self.ball_state {
            BallState::Expanding => {
                self.next_velocity = Point { x: 0, y: 0 };
                let grown = self.radius + self.radius_growth;
                self.next_radius = if grown <= self.max_radius {
                    grown
                } else {
                    self.max_radius
                };
                if self.next_radius == self.max_radius {
                    self.next_ball_state = BallState::Shrinking;
                }
            },
            BallState::Shrinking => {
                self.next_velocity = Point { x: 0, y: 0 };
                self.next_radius = self.next_radius - SHRINK_STEP / self.radius;
                if self.next_radius < VANISH_RADIUS {
                    self.next_ball_state = BallState::Vanish;
                }
            },
            BallState::Normal => {},
            BallState::Vanish => {},
        }
    }

    /// One tick of per-ball physics: the wall bounce, then the state
    /// machine. Only the staged fields change; the live state is left for
    /// collision evaluation and a later commit.
    pub fn tick(&mut self)
        requires
            ball_fields_bounded(*old(self)),
            old(self).ball_state == BallState::Shrinking ==> old(self).radius >= 1,
        ensures
            *final(self) == spec_ball_staged(*old(self)),
    {
        self.check_wall_collisions();
        self.handle_ball_states();
    }

    /// Commit the staged fields into the live state.
    pub fn apply_tick_changes(&mut self)
        ensures
            *final(self) == spec_committed(*old(self)),
    {
        self.pos = self.next_position;
        self.velocity = self.next_velocity;
        self.radius = self.next_radius;
        self.ball_state = self.next_ball_state;
    }

    /// Overwrite the live state tag.
    pub fn change_ball_state(&mut self, state: BallState)
        ensures
            *final(self) == (Ball { ball_state: state, ..*old(self) }),
    {
        self.ball_state = state;
    }

    /// Mark the ball captured; idempotent.
    pub fn set_captured(&mut self)
        ensures
            *final(self) == (Ball { is_captured: true, ..*old(self) }),
    {
        self.is_captured = true;
    }

    /// The staged bounding square: `2r x 2r` around the staged position,
    /// with the staged radius.
    pub fn bounding_rect_next(&self) -> (res: Rect)
        requires
            ball_fields_bounded(*self),
        ensures
            res == spec_bounding_rect_next(*self),
    {
        Rect {
            x: self.next_position.x - self.next_radius,
            y: self.next_position.y - self.next_radius,
            w: 2 * self.next_radius,
            h: 2 * self.next_radius,
        }
    }

    /// The bounding square used for indexing and the collision test:
    /// centered on the live position, sized by the staged radius.
    pub fn bounding_rect_current(&self) -> (res: Rect)
        requires
            ball_fields_bounded(*self),
        ensures
            res == spec_bounding_rect_current(*self),
    {
        Rect {
            x: self.pos.x - self.next_radius,
            y: self.pos.y - self.next_radius,
            w: 2 * self.next_radius,
            h: 2 * self.next_radius,
        }
    }
}

/// The staged bounding square of a ball.
pub open spec fn spec_bounding_rect_next(b: Ball) -> Rect {
    Rect {
        x: (b.next_position.x - b.next_radius) as i64,
        y: (b.next_position.y - b.next_radius) as i64,
        w: (2 * b.next_radius) as i64,
        h: (2 * b.next_radius) as i64,
    }
}

/// The bounding square of a ball at its live position with its staged
/// radius: the box the spatial index and the collision test work on.
pub open spec fn spec_bounding_rect_current(b: Ball) -> Rect {
    Rect {
        x: (b.pos.x - b.next_radius) as i64,
        y: (b.pos.y - b.next_radius) as i64,
        w: (2 * b.next_radius) as i64,
        h: (2 * b.next_radius) as i64,
    }
}

/// An unordered pair of ball identities; `(a, b)` and `(b, a)` are the same
/// pair.
#[derive(Debug, Clone, Copy, Hash)]
pub struct BallPairIds {
    pub first: usize,
    pub second: usize,
}

/// The canonical form of an unordered pair: smaller id first.
pub open spec fn pair_key(p: BallPairIds) -> (usize, usize) {
    if p.first <= p.second {
        (p.first, p.second)
    } else {
        (p.second, p.first)
    }
}

impl BallPairIds {
    /// The two ids as an array, in stored order.
    pub fn into_array(self) -> (res: [usize; 2])
        ensures
            res@ == seq![self.first, self.second],
    {
        let res = [self.first, self.second];
        proof {
            assert(res@ =~= seq![self.first, self.second]);
        }
        res
    }
}

impl PartialEq for BallPairIds {
    /// Symmetric equality: the pairs hold the same two ids in either order.
    fn eq(&self, other: &Self) -> (res: bool) {
        if (self.first == other.first && self.second == other.second) || (self.first
            == other.second && self.second == other.first) {
            return true;
        }
        false
    }
}

impl vstd::std_specs::cmp::PartialEqSpecImpl for BallPairIds {
    open spec fn obeys_eq_spec() -> bool {
        true
    }

    open spec fn eq_spec(&self, other: &Self) -> bool {
        pair_key(*self) == pair_key(*other)
    }
}

impl Eq for BallPairIds {}

/// Pair symmetry: swapping the two ids gives the same unordered pair.
pub proof fn lemma_pair_symmetry(a: usize, b: usize)
    ensures
        pair_key(BallPairIds { first: a, second: b }) == pair_key(
            BallPairIds { first: b, second: a },
        ),
{
}

/// A pair of ball snapshots picked out for a collision test.
#[derive(Debug, Clone, Copy)]
pub struct BallPair {
    pub first: Ball,
    pub second: Ball,
}

/// A number within `-m .. m` has a square within `0 .. m * m`.
proof fn lemma_square_bound(a: int, m: int)
    requires
        -m <= a <= m,
        0 <= m,
    ensures
        0 <= a * a <= m * m,
{
    assert(0 <= a * a && a * a <= m * m) by (nonlinear_arith)
        requires
            -m <= a <= m,
            0 <= m,
    ;
}

/// The exact circle test of the pair: squared center distance within the sum
/// of the squared radii.
pub open spec fn spec_is_collision(a: Ball, b: Ball) -> bool {
    spec_balls_distance_squared(a, b) <= a.radius * a.radius + b.radius * b.radius
}

/// The squared distance between the live centers of two balls.
pub open spec fn spec_balls_distance_squared(a: Ball, b: Ball) -> int {
    (b.pos.x - a.pos.x) * (b.pos.x - a.pos.x) + (b.pos.y - a.pos.y) * (b.pos.y - a.pos.y)
}

impl BallPair {
    /// The stricter circle-overlap check: squared center distance within the
    /// sum of the squared radii.
    pub fn is_collision(&self) -> (res: bool)
        requires
            ball_fields_bounded(self.first),
            ball_fields_bounded(self.second),
        ensures
            res == spec_is_collision(self.first, self.second),
    {
        proof {
            lemma_square_bound(self.first.radius as int, BALL_BOUND as int);
            lemma_square_bound(self.second.radius as int, BALL_BOUND as int);
        }
        balls_distance_squared(self.first, self.second) <= self.first.radius * self.first.radius
            + self.second.radius * self.second.radius
    }

    /// The one-sided bounding-box heuristic: some corner of the first ball's
    /// box lies in the second ball's box.
    pub fn is_collision_bb(&self) -> (res: bool)
        requires
            ball_fields_bounded(self.first),
            ball_fields_bounded(self.second),
            self.first.next_radius >= 0,
            self.second.next_radius >= 0,
        ensures
            res == rect_intersects(
                spec_bounding_rect_current(self.first),
                spec_bounding_rect_current(self.second),
            ),
    {
        let bb_first = self.first.bounding_rect_current();
        let bb_second = self.second.bounding_rect_current();

        bb_first.intersects(bb_second)
    }
}

/// The squared distance between two points.
fn circles_distance_squared(x1: i64, y1: i64, x2: i64, y2: i64) -> (res: i64)
    requires
        -BALL_BOUND <= x1 <= BALL_BOUND,
        -BALL_BOUND <= y1 <= BALL_BOUND,
        -BALL_BOUND <= x2 <= BALL_BOUND,
        -BALL_BOUND <= y2 <= BALL_BOUND,
    ensures
        res == (x2 - x1) * (x2 - x1) + (y2 - y1) * (y2 - y1),
{
    proof {
        assert(2 * BALL_BOUND as int == 0x200_0000int);
        lemma_square_bound(x2 - x1, 0x200_0000int);
        lemma_square_bound(y2 - y1, 0x200_0000int);
        assert(0x200_0000int * 0x200_0000int == 0x4_0000_0000_0000int) by (nonlinear_arith);
        assert((x2 - x1) * (x2 - x1) <= 0x4_0000_0000_0000int);
        assert((y2 - y1) * (y2 - y1) <= 0x4_0000_0000_0000int);
    }
    (x2 - x1) * (x2 - x1) + (y2 - y1) * (y2 - y1)
}

/// The squared distance between the live centers of two balls.
pub fn balls_distance_squared(ball1: Ball, ball2: Ball) -> (res: i64)
    requires
        ball_fields_bounded(ball1),
        ball_fields_bounded(ball2),
    ensures
        res == spec_balls_distance_squared(ball1, ball2),
{
    circles_distance_squared(ball1.pos.x, ball1.pos.y, ball2.pos.x, ball2.pos.y)
}

/// Whether the point `(point_x, point_y)` lies in the closed rectangle with
/// origin `(x, y)` and size `(w, h)`.
pub fn is_point_in_rect(x: i64, y: i64, w: i64, h: i64, point_x: i64, point_y: i64) -> (res: bool)
    requires
        crate::geometry::rect_bounded(Rect { x, y, w, h }),
    ensures
        res == rect_contains(Rect { x, y, w, h }, point_x as int, point_y as int),
{
    if point_x >= x && point_x <= x + w && point_y >= y && point_y <= y + h {
        return true;
    }
    false
}

/// Some edge midpoint of the ball's staged bounding circle lies in the cell.
pub open spec fn spec_ball_in_cell(cell: Rect, b: Ball) -> bool {
    ||| rect_contains(cell, b.next_position.x - b.next_radius, b.next_position.y as int)
    ||| rect_contains(cell, b.next_position.x + b.next_radius, b.next_position.y as int)
    ||| rect_contains(cell, b.next_position.x as int, b.next_position.y + b.next_radius)
    ||| rect_contains(cell, b.next_position.x as int, b.next_position.y - b.next_radius)
}

/// Whether the ball pokes into the cell through one of the four edge
/// midpoints of its staged bounding circle.
pub fn is_ball_in_cell(x: i64, y: i64, w: i64, h: i64, ball: &Ball) -> (res: bool)
    requires
        crate::geometry::rect_bounded(Rect { x, y, w, h }),
        ball_fields_bounded(*ball),
    ensures
        res == spec_ball_in_cell(Rect { x, y, w, h }, *ball),
{
    let left_point = is_point_in_rect(
        x,
        y,
        w,
        h,
        ball.next_position.x - ball.next_radius,
        ball.next_position.y,
    );
    let right_point = is_point_in_rect(
        x,
        y,
        w,
        h,
        ball.next_position.x + ball.next_radius,
        ball.next_position.y,
    );
    let top_point = is_point_in_rect(
        x,
        y,
        w,
        h,
        ball.next_position.x,
        ball.next_position.y + ball.next_radius,
    );
    let bottom_point = is_point_in_rect(
        x,
        y,
        w,
        h,
        ball.next_position.x,
        ball.next_position.y - ball.next_radius,
    );

    if left_point || right_point || top_point || bottom_point {
        return true;
    }
    false
}

/// Some corner of the ball's staged bounding square lies in the cell.
pub open spec fn spec_ball_in_cell_diag(cell: Rect, b: Ball) -> bool {
    ||| rect_contains(cell, b.next_position.x - b.next_radius, b.next_position.y + b.next_radius)
    ||| rect_contains(cell, b.next_position.x + b.next_radius, b.next_position.y + b.next_radius)
    ||| rect_contains(cell, b.next_position.x - b.next_radius, b.next_position.y - b.next_radius)
    ||| rect_contains(cell, b.next_position.x + b.next_radius, b.next_position.y - b.next_radius)
}

/// Whether the ball pokes into the cell through one of the four corners of
/// its staged bounding square.
pub fn is_ball_in_cell_diag(x: i64, y: i64, w: i64, h: i64, ball: &Ball) -> (res: bool)
    requires
        crate::geometry::rect_bounded(Rect { x, y, w, h }),
        ball_fields_bounded(*ball),
    ensures
        res == spec_ball_in_cell_diag(Rect { x, y, w, h }, *ball),
{
    let top_left = is_point_in_rect(
        x,
        y,
        w,
        h,
        ball.next_position.x - ball.next_radius,
        ball.next_position.y + ball.next_radius,
    );
    let top_right = is_point_in_rect(
        x,
        y,
        w,
        h,
        ball.next_position.x + ball.next_radius,
        ball.next_position.y + ball.next_radius,
    );
    let bottom_left = is_point_in_rect(
        x,
        y,
        w,
        h,
        ball.next_position.x - ball.next_radius,
        ball.next_position.y - ball.next_radius,
    );
    let bottom_right = is_point_in_rect(
        x,
        y,
        w,
        h,
        ball.next_position.x + ball.next_radius,
        ball.next_position.y - ball.next_radius,
    );

    if top_left || top_right || bottom_left || bottom_right {
        return true;
    }
    false
}

/// The one-directional propagation rule on a pair of balls: if the first is
/// part of a chain and the second is normal, the second joins the chain. The
/// mirrored branch tests the second ball against itself and so never fires;
/// the orchestrator applies the rule to both orientations instead.
pub fn resolve_collision_active(ball1: &mut Ball, ball2: &mut Ball)
    ensures
        *final(ball1) == *old(ball1),
        *final(ball2) == (if (old(ball1).ball_state == BallState::Expanding || old(
            ball1,
        ).ball_state == BallState::Shrinking) && old(ball2).ball_state == BallState::Normal {
            Ball { ball_state: BallState::Expanding, ..*old(ball2) }
        } else {
            *old(ball2)
        }),
{
    if (ball1.ball_state == BallState::Expanding || ball1.ball_state == BallState::Shrinking)
        && ball2.ball_state == BallState::Normal {
        ball2.change_ball_state(BallState::Expanding);
    }
    if (ball2.ball_state == BallState::Expanding || ball2.ball_state == BallState::Shrinking)
        && ball2.ball_state == BallState::Normal {
        ball1.change_ball_state(BallState::Expanding);
    }
}

/// Radius monotonicity across one tick of a ball whose staged radius is in
/// sync with its live radius, as every commit leaves it. While `Shrinking`
/// the staged radius strictly decreases; while `Expanding` it strictly
/// increases until the cap `max_radius` and then stays exactly at the cap.
pub proof fn lemma_radius_monotone(b: Ball)
    requires
        b.next_radius == b.radius,
        1 <= b.radius,
        b.radius <= b.max_radius,
        b.max_radius <= COLOSSAL,
        1 <= b.radius_growth,
    ensures
        b.ball_state == BallState::Shrinking ==> spec_ball_staged(b).next_radius < b.radius,
        b.ball_state == BallState::Expanding && b.radius < b.max_radius ==> spec_ball_staged(
            b,
        ).next_radius > b.radius,
        b.ball_state == BallState::Expanding && b.radius == b.max_radius ==> spec_ball_staged(
            b,
        ).next_radius == b.radius,
{
    if b.ball_state == BallState::Shrinking {
        vstd::arithmetic::div_mod::lemma_div_non_zero(SHRINK_STEP as int, b.radius as int);
    }
}

/// Elastic momentum response between two free-moving balls is not
/// implemented: the pair passes through unchanged.
pub fn resolve_collision(pair: BallPair) -> (res: BallPair)
    ensures
        res == pair,
{
    pair
}

} // verus!
