//! The per-tick simulation systems: paddle control, ball physics,
//! scoring, and the match lifecycle.
//!
//! Each system's contract pins the new state down as a function of the
//! old state and the tick's inputs; only the two random draws (the serve
//! angle after a goal, handled in this module, and the particle lifetime
//! jitter, handled in the effects module) are stated as bounds instead.

use vstd::prelude::*;
use vstd::pervasive::VecAdditionalExecFns;

use crate::color::{
    frenzy_ball_color_spec, normal_ball_color, normal_ball_color_spec, wall_spark_color_spec,
    white_color, white_color_spec, ColorMilli,
};
use crate::input::{KeyboardState, TouchEvent, TouchPhase};
use crate::math::{abs_spec, clamp_i64, clamp_spec, div_down, div_trunc, lemma_div_down_bound,
    scale_i64, scale_spec};
use crate::effects_system::CELEBRATION_DURATION_MS;
use crate::rng::sample_inclusive;
use crate::text::{decimal_digits, u32_to_decimal};
use crate::timer::CountdownTimer;
use crate::world::{
    Ball, GameWorld, HitStreak, Paddle, ParticleRequest, Score, ScoreCelebration, ScoreDisplay,
    ScoreDisplayView, Side, TextLabel, TextLabelView, Velocity, WorldView,
};
use crate::{BALL_RADIUS, COORD_LIMIT, FRAME_DT_LIMIT_MS, HALF_EXTENT_LIMIT, PADDLE_HEIGHT,
    PADDLE_MARGIN, PADDLE_WIDTH, SPEED_LIMIT};

verus! {

/// Paddle hits that trigger a frenzy boost.
pub const FRENZY_HIT_COUNT: u32 = 3;

/// Frenzy speed boost: both velocity components scale by 3/2.
pub const FRENZY_SPEED_NUMER: i64 = 3;

/// Denominator of the frenzy speed boost.
pub const FRENZY_SPEED_DENOM: i64 = 2;

/// A held key moves a paddle by 3/100 of the half-height per tick.
pub const KEYBOARD_SPEED_NUMER: i64 = 3;

/// Denominator of the keyboard paddle step.
pub const KEYBOARD_SPEED_DENOM: i64 = 100;

/// Hard cap on the ball's horizontal speed.
pub const MAX_BALL_SPEED_X: i64 = 800;

/// Hard cap on the ball's vertical speed.
pub const MAX_BALL_SPEED_Y: i64 = 800;

/// A paddle hit reflects and speeds the ball up by 11/10.
pub const BALL_ACCEL_NUMER: i64 = 11;

/// Denominator of the paddle-hit acceleration.
pub const BALL_ACCEL_DENOM: i64 = 10;

/// Highest y a paddle's centre may reach: the paddle stays inside the
/// playfield.
pub open spec fn paddle_max_y(half_h: i64) -> int {
    half_h - PADDLE_HEIGHT / 2
}

/// The net keyboard direction for `side`: `+1` up, `-1` down, held keys
/// summing.
pub open spec fn kb_direction(side: Side, keys: KeyboardState) -> int {
    match side {
        Side::Left => (if keys.left_up {
            1int
        } else {
            0int
        }) - (if keys.left_down {
            1int
        } else {
            0int
        }),
        Side::Right => (if keys.right_up {
            1int
        } else {
            0int
        }) - (if keys.right_down {
            1int
        } else {
            0int
        }),
    }
}

/// The horizontal pin for a paddle of `side`: re-asserted every tick so
/// window resizes are absorbed continuously.
pub open spec fn paddle_pin_x(side: Side, half_w: i64) -> int {
    if side is Left {
        PADDLE_MARGIN - half_w
    } else {
        half_w - PADDLE_MARGIN
    }
}

/// One keyboard tick of a single paddle: pin x, step y by the held keys,
/// clamp y into the playfield.
pub open spec fn keyboard_paddle_step(p: Paddle, keys: KeyboardState, half_w: i64, half_h: i64)
    -> Paddle {
    let speed = scale_spec(half_h as int, KEYBOARD_SPEED_NUMER as int, KEYBOARD_SPEED_DENOM as int);
    Paddle {
        side: p.side,
        x: paddle_pin_x(p.side, half_w) as i64,
        y: clamp_spec(
            p.y + kb_direction(p.side, keys) * speed,
            -paddle_max_y(half_h),
            paddle_max_y(half_h),
        ) as i64,
    }
}

/// Move every paddle by the held keys: the clamp invariant
/// `|y| <= half_h - half paddle height` holds of each paddle afterwards.
pub fn move_paddles_with_keyboard(
    paddles: &mut Vec<Paddle>,
    keys: &KeyboardState,
    half_w: i64,
    half_h: i64,
)
    requires
        0 <= half_w <= HALF_EXTENT_LIMIT,
        PADDLE_HEIGHT / 2 <= half_h <= HALF_EXTENT_LIMIT,
        forall|i: int|
            0 <= i < old(paddles)@.len() ==> abs_spec(#[trigger] old(paddles)@[i].y as int)
                <= COORD_LIMIT,
    ensures
        final(paddles)@.len() == old(paddles)@.len(),
        forall|i: int|
            0 <= i < old(paddles)@.len() ==> #[trigger] final(paddles)@[i]
                == keyboard_paddle_step(old(paddles)@[i], *keys, half_w, half_h),
        forall|i: int|
            0 <= i < final(paddles)@.len() ==> abs_spec(#[trigger] final(paddles)@[i].y as int)
                <= paddle_max_y(half_h),
{
    let paddle_x = half_w - PADDLE_MARGIN;
    let speed = scale_i64(half_h, KEYBOARD_SPEED_NUMER, KEYBOARD_SPEED_DENOM);
    proof {
        assert(speed == div_down(3 * half_h, 100));
        assert(0 <= speed <= 3 * half_h) by {
            vstd::arithmetic::div_mod::lemma_div_pos_is_pos(3 * half_h, 100);
            vstd::arithmetic::div_mod::lemma_div_nonincreasing(3 * half_h, 100);
        }
    }
    let max_y = half_h - PADDLE_HEIGHT / 2;

    let mut i: usize = 0;
    while i < paddles.len()
        invariant
            0 <= i <= paddles@.len(),
            paddles@.len() == old(paddles)@.len(),
            0 <= half_w <= HALF_EXTENT_LIMIT,
            PADDLE_HEIGHT / 2 <= half_h <= HALF_EXTENT_LIMIT,
            paddle_x == half_w - PADDLE_MARGIN,
            speed == scale_spec(
                half_h as int,
                KEYBOARD_SPEED_NUMER as int,
                KEYBOARD_SPEED_DENOM as int,
            ),
            0 <= speed <= 3 * half_h,
            max_y == paddle_max_y(half_h),
            forall|j: int|
                0 <= j < old(paddles)@.len() ==> abs_spec(#[trigger] old(paddles)@[j].y as int)
                    <= COORD_LIMIT,
            forall|j: int|
                i <= j < paddles@.len() ==> #[trigger] paddles@[j] == old(paddles)@[j],
            forall|j: int|
                0 <= j < i ==> #[trigger] paddles@[j] == keyboard_paddle_step(
                    old(paddles)@[j],
                    *keys,
                    half_w,
                    half_h,
                ),
        decreases paddles@.len() - i,
    {
        let p = paddles[i];
        let dir: i64 = match p.side {
            Side::Left => {
                (if keys.left_up {
                    1i64
                } else {
                    0i64
                }) - (if keys.left_down {
                    1i64
                } else {
                    0i64
                })
            },
            Side::Right => {
                (if keys.right_up {
                    1i64
                } else {
                    0i64
                }) - (if keys.right_down {
                    1i64
                } else {
                    0i64
                })
            },
        };
        let x = if matches!(p.side, Side::Left) {
            -paddle_x
        } else {
            paddle_x
        };
        proof {
            assert(-1 <= dir <= 1);
            assert(-speed <= dir * speed <= speed) by (nonlinear_arith)
                requires
                    -1 <= dir <= 1,
                    0 <= speed,
            ;
        }
        let y = clamp_i64(p.y + dir * speed, -max_y, max_y);
        paddles.set(i, Paddle { side: p.side, x, y });
        i = i + 1;
    }
}

/// Paddle hits that trigger a particle burst throw 7 sparks.
pub const PADDLE_BURST_COUNT: u32 = 7;

/// Base lifetime of a paddle-hit spark, in milliseconds.
pub const PADDLE_BURST_LIFETIME_MS: u64 = 400;

/// Wall bounces throw 5 gray sparks.
pub const WALL_BURST_COUNT: u32 = 5;

/// Base lifetime of a wall-bounce spark, in milliseconds.
pub const WALL_BURST_LIFETIME_MS: u64 = 300;

/// Coordinate bound that holds mid-tick, after integration moved the ball
/// but before the goal check pulls it back; far below `i64` overflow.
pub const TICK_COORD_LIMIT: i64 = 2_000_000_000_000_000_000;

/// Which paddle a touch steers: the left paddle for the left half of the
/// window, the right paddle otherwise.
pub open spec fn touch_target(e: TouchEvent, width: i64) -> Side {
    if e.x < width / 2 {
        Side::Left
    } else {
        Side::Right
    }
}

/// Screen-space to world-space: the touch y grows downward from the top
/// edge, world y grows upward from the centre.
pub open spec fn touch_world_y(e: TouchEvent, half_h: i64) -> int {
    half_h - e.y
}

/// `i` is the first index of `ps` holding a paddle of `side`.
pub open spec fn is_first_of_side(ps: Seq<Paddle>, side: Side, i: int) -> bool {
    &&& 0 <= i < ps.len()
    &&& ps[i].side == side
    &&& forall|k: int| 0 <= k < i ==> (#[trigger] ps[k]).side != side
}

/// The first index of `ps` holding a paddle of `side`, `-1` where none.
pub open spec fn first_of_side(ps: Seq<Paddle>, side: Side) -> int {
    if exists|i: int| is_first_of_side(ps, side, i) {
        choose|i: int| is_first_of_side(ps, side, i)
    } else {
        -1
    }
}

/// At most one index is first, so a found first index is the spec's.
proof fn lemma_first_of_side(ps: Seq<Paddle>, side: Side, i: int)
    requires
        is_first_of_side(ps, side, i),
    ensures
        first_of_side(ps, side) == i,
{
    let c = choose|j: int| is_first_of_side(ps, side, j);
    assert(is_first_of_side(ps, side, c));
}

/// No index of `ps` holds `side`, so the spec's first index is `-1`.
proof fn lemma_no_first_of_side(ps: Seq<Paddle>, side: Side)
    requires
        forall|k: int| 0 <= k < ps.len() ==> (#[trigger] ps[k]).side != side,
    ensures
        first_of_side(ps, side) == -1,
{
    if exists|i: int| is_first_of_side(ps, side, i) {
        let c = choose|i: int| is_first_of_side(ps, side, i);
        assert(ps[c].side == side);
    }
}

/// One touch event applied to the paddles: a moved touch drags the first
/// paddle of its half of the screen to the touch height, clamped; any
/// other phase, or a half without a paddle, changes nothing.
pub open spec fn apply_touch(ps: Seq<Paddle>, e: TouchEvent, width: i64, half_h: i64)
    -> Seq<Paddle> {
    if e.phase != TouchPhase::Moved {
        ps
    } else {
        let side = touch_target(e, width);
        let idx = first_of_side(ps, side);
        if idx < 0 {
            ps
        } else {
            ps.update(
                idx,
                Paddle {
                    side: ps[idx].side,
                    x: ps[idx].x,
                    y: clamp_spec(
                        touch_world_y(e, half_h),
                        -paddle_max_y(half_h),
                        paddle_max_y(half_h),
                    ) as i64,
                },
            )
        }
    }
}

/// The frame's touch events applied in order.
pub open spec fn apply_touches(ps: Seq<Paddle>, events: Seq<TouchEvent>, width: i64, half_h: i64)
    -> Seq<Paddle>
    decreases events.len(),
{
    if events.len() == 0 {
        ps
    } else {
        apply_touch(
            apply_touches(ps, events.drop_last(), width, half_h),
            events.last(),
            width,
            half_h,
        )
    }
}

/// Touch control: each moved touch drags the paddle of its half of the
/// screen to the touch height, clamped into the playfield.  Sides and
/// horizontal pins never change, and a paddle already inside the clamp
/// band stays inside it.
pub fn move_paddles_with_touch(
    paddles: &mut Vec<Paddle>,
    events: &Vec<TouchEvent>,
    width: i64,
    height: i64,
)
    requires
        0 <= width <= 2 * HALF_EXTENT_LIMIT,
        PADDLE_HEIGHT <= height <= 2 * HALF_EXTENT_LIMIT,
        forall|i: int|
            0 <= i < events@.len() ==> abs_spec(#[trigger] events@[i].y as int) <= COORD_LIMIT,
    ensures
        final(paddles)@ == apply_touches(old(paddles)@, events@, width, (height / 2) as i64),
{
    let (_half_w, half_h) = crate::get_window_dimensions(width, height);
    let max_y = half_h - PADDLE_HEIGHT / 2;

    let mut i: usize = 0;
    while i < events.len()
        invariant
            0 <= i <= events@.len(),
            0 <= width <= 2 * HALF_EXTENT_LIMIT,
            PADDLE_HEIGHT / 2 <= half_h <= HALF_EXTENT_LIMIT,
            half_h == height / 2,
            max_y == paddle_max_y(half_h),
            forall|j: int|
                0 <= j < events@.len() ==> abs_spec(#[trigger] events@[j].y as int) <= COORD_LIMIT,
            paddles@ == apply_touches(
                old(paddles)@,
                events@.subrange(0, i as int),
                width,
                half_h,
            ),
        decreases events@.len() - i,
    {
        let e = events[i];
        let ghost prefix = events@.subrange(0, i as int);
        let ghost prefix1 = events@.subrange(0, i as int + 1);
        proof {
            assert(prefix1.drop_last() =~= prefix);
            assert(prefix1.last() == events@[i as int]);
        }
        if matches!(e.phase, TouchPhase::Moved) {
            let world_y = half_h - e.y;
            let target_left = e.x < width / 2;
            let ghost side = touch_target(e, width);
            let ghost ps_before = paddles@;

            let mut j: usize = 0;
            let mut found = false;
            while j < paddles.len()
                invariant_except_break
                    0 <= j <= paddles@.len(),
                    PADDLE_HEIGHT / 2 <= half_h <= HALF_EXTENT_LIMIT,
                    max_y == paddle_max_y(half_h),
                    abs_spec(e.y as int) <= COORD_LIMIT,
                    world_y == half_h - e.y,
                    e.phase == TouchPhase::Moved,
                    side == touch_target(e, width),
                    target_left == (side is Left),
                    !found,
                    paddles@ == ps_before,
                    forall|k: int| 0 <= k < j ==> (#[trigger] ps_before[k]).side != side,
                ensures
                    found ==> paddles@ == apply_touch(ps_before, e, width, half_h),
                    !found ==> paddles@ == ps_before && (forall|k: int|
                        0 <= k < ps_before.len() ==> (#[trigger] ps_before[k]).side != side),
                decreases paddles@.len() - j,
            {
                let p = paddles[j];
                let hit = match p.side {
                    Side::Left => target_left,
                    Side::Right => !target_left,
                };
                if hit {
                    let y = clamp_i64(world_y, -max_y, max_y);
                    paddles.set(j, Paddle { side: p.side, x: p.x, y });
                    proof {
                        lemma_first_of_side(ps_before, side, j as int);
                        assert(paddles@ =~= apply_touch(ps_before, e, width, half_h));
                    }
                    found = true;
                    break;
                }
                j = j + 1;
            }
            proof {
                if !found {
                    lemma_no_first_of_side(ps_before, side);
                }
                assert(paddles@ == apply_touch(ps_before, e, width, half_h));
            }
        }
        i = i + 1;
    }
    proof {
        assert(events@.subrange(0, events@.len() as int) =~= events@);
    }
}

/// Touch control keeps every paddle inside the playfield: paddles whose
/// centre already satisfies the clamp band still do after any sequence
/// of touch events, and the dragged ones land inside it by construction.
pub proof fn lemma_touch_clamp_invariant(
    ps: Seq<Paddle>,
    events: Seq<TouchEvent>,
    width: i64,
    half_h: i64,
)
    requires
        PADDLE_HEIGHT / 2 <= half_h,
        forall|i: int|
            0 <= i < ps.len() ==> abs_spec(#[trigger] ps[i].y as int) <= paddle_max_y(half_h),
    ensures
        apply_touches(ps, events, width, half_h).len() == ps.len(),
        forall|i: int|
            0 <= i < ps.len() ==> abs_spec(
                #[trigger] apply_touches(ps, events, width, half_h)[i].y as int,
            ) <= paddle_max_y(half_h),
    decreases events.len(),
{
    if events.len() > 0 {
        lemma_touch_clamp_invariant(ps, events.drop_last(), width, half_h);
    }
}

/// Distance covered in `dt_ms` at `v` world units per second, truncated
/// toward zero.
pub open spec fn vel_delta(v: i64, dt_ms: u64) -> int {
    div_down(v * dt_ms, 1000)
}

/// Position integration: the ball advances by velocity times the frame
/// delta.
pub open spec fn ball_integrate(b: Ball, dt_ms: u64) -> Ball {
    Ball {
        x: (b.x + vel_delta(b.velocity.x, dt_ms)) as i64,
        y: (b.y + vel_delta(b.velocity.y, dt_ms)) as i64,
        velocity: b.velocity,
        hit_streak: b.hit_streak,
        color: b.color,
    }
}

/// Highest y the ball's centre may reach before it counts as touching the
/// top or bottom wall.
pub open spec fn ball_max_y(half_h: i64) -> int {
    half_h - BALL_RADIUS
}

/// Whether the ball sits beyond the top or bottom wall.
pub open spec fn wall_hit(b: Ball, half_h: i64) -> bool {
    b.y < -ball_max_y(half_h) || b.y > ball_max_y(half_h)
}

/// A wall bounce: vertical velocity flips, the ball is clamped back into
/// bounds, the rally streak resets, and the tint reverts to normal.
pub open spec fn ball_after_wall(b: Ball, half_h: i64) -> Ball {
    Ball {
        x: b.x,
        y: clamp_spec(b.y as int, -ball_max_y(half_h), ball_max_y(half_h)) as i64,
        velocity: Velocity { x: b.velocity.x, y: (-b.velocity.y) as i64 },
        hit_streak: HitStreak { count: 0 },
        color: normal_ball_color_spec(),
    }
}

/// The gray spark burst a wall bounce requests, at the bounced ball's
/// position.
pub open spec fn wall_burst(b: Ball) -> ParticleRequest {
    ParticleRequest {
        x: b.x,
        y: b.y,
        color: wall_spark_color_spec(),
        count: WALL_BURST_COUNT,
        base_lifetime_ms: WALL_BURST_LIFETIME_MS,
    }
}

/// The ball touches the paddle and is moving toward it: close enough
/// horizontally, within the paddle's vertical extent (padded by the ball
/// radius), and travelling toward the paddle's side of the field.
pub open spec fn paddle_collision(b: Ball, p: Paddle) -> bool {
    &&& abs_spec(b.x - p.x) < PADDLE_WIDTH / 2 + BALL_RADIUS
    &&& p.y - PADDLE_HEIGHT / 2 - BALL_RADIUS <= b.y <= p.y + PADDLE_HEIGHT / 2 + BALL_RADIUS
    &&& ((b.velocity.x > 0 && p.x > 0) || (b.velocity.x < 0 && p.x < 0))
}

/// Vertical steering from the contact offset: the farther from the
/// paddle's centre the ball strikes, the harder it is deflected, up to
/// three quarters of the vertical speed cap at the paddle's edge.
pub open spec fn deflection(paddle_y: i64, ball_y: i64) -> int {
    div_down((paddle_y - ball_y) * (MAX_BALL_SPEED_Y / 4 * 3), PADDLE_HEIGHT / 2)
}

/// A paddle hit.  The ball is corrected to sit flush against the paddle
/// face (so a fast ball cannot tunnel through), its horizontal velocity
/// is reflected, accelerated and capped, its vertical velocity is halved
/// and steered by the contact offset, and the rally streak advances: the
/// streak reaching [`FRENZY_HIT_COUNT`] boosts both components by 3/2
/// (re-capped), paints the ball in the frenzy tint and resets the streak;
/// any other hit leaves the ball in its normal tint.
pub open spec fn ball_after_paddle(b: Ball, p: Paddle) -> Ball {
    let flush_x = if b.velocity.x > 0 {
        p.x - (PADDLE_WIDTH / 2 + BALL_RADIUS)
    } else {
        p.x + (PADDLE_WIDTH / 2 + BALL_RADIUS)
    };
    let vx = clamp_spec(
        -scale_spec(b.velocity.x as int, BALL_ACCEL_NUMER as int, BALL_ACCEL_DENOM as int),
        -MAX_BALL_SPEED_X as int,
        MAX_BALL_SPEED_X as int,
    );
    let vy = clamp_spec(
        div_down(b.velocity.y as int, 2) - deflection(p.y, b.y),
        -MAX_BALL_SPEED_Y as int,
        MAX_BALL_SPEED_Y as int,
    );
    let streak = b.hit_streak.count + 1;
    if streak >= FRENZY_HIT_COUNT {
        Ball {
            x: flush_x as i64,
            y: b.y,
            velocity: Velocity {
                x: clamp_spec(
                    scale_spec(vx, FRENZY_SPEED_NUMER as int, FRENZY_SPEED_DENOM as int),
                    -MAX_BALL_SPEED_X as int,
                    MAX_BALL_SPEED_X as int,
                ) as i64,
                y: clamp_spec(
                    scale_spec(vy, FRENZY_SPEED_NUMER as int, FRENZY_SPEED_DENOM as int),
                    -MAX_BALL_SPEED_Y as int,
                    MAX_BALL_SPEED_Y as int,
                ) as i64,
            },
            hit_streak: HitStreak { count: 0 },
            color: frenzy_ball_color_spec(),
        }
    } else {
        Ball {
            x: flush_x as i64,
            y: b.y,
            velocity: Velocity { x: vx as i64, y: vy as i64 },
            hit_streak: HitStreak { count: streak as u32 },
            color: normal_ball_color_spec(),
        }
    }
}

/// The paddle-colored spark burst a hit requests, at the corrected ball
/// position (paddles are white).
pub open spec fn paddle_burst(b: Ball) -> ParticleRequest {
    ParticleRequest {
        x: b.x,
        y: b.y,
        color: white_color_spec(),
        count: PADDLE_BURST_COUNT,
        base_lifetime_ms: PADDLE_BURST_LIFETIME_MS,
    }
}

/// The ball checked against each paddle in order, collecting the burst
/// requests of the hits on the way.
pub open spec fn ball_through_paddles(b: Ball, ps: Seq<Paddle>) -> (Ball, Seq<ParticleRequest>)
    decreases ps.len(),
{
    if ps.len() == 0 {
        (b, Seq::empty())
    } else {
        let r = ball_through_paddles(b, ps.drop_last());
        if paddle_collision(r.0, ps.last()) {
            let nb = ball_after_paddle(r.0, ps.last());
            (nb, r.1.push(paddle_burst(nb)))
        } else {
            r
        }
    }
}

/// One full ball tick: integrate, bounce off the walls, then resolve the
/// paddles; the wall burst, if any, precedes the paddle bursts.
pub open spec fn ball_tick(b: Ball, ps: Seq<Paddle>, dt_ms: u64, half_h: i64) -> (
    Ball,
    Seq<ParticleRequest>,
) {
    let b1 = ball_integrate(b, dt_ms);
    if wall_hit(b1, half_h) {
        let b2 = ball_after_wall(b1, half_h);
        let r = ball_through_paddles(b2, ps);
        (r.0, seq![wall_burst(b2)] + r.1)
    } else {
        let r = ball_through_paddles(b1, ps);
        r
    }
}

/// Every ball ticked in order, their burst requests concatenated.
pub open spec fn balls_tick(bs: Seq<Ball>, ps: Seq<Paddle>, dt_ms: u64, half_h: i64) -> (
    Seq<Ball>,
    Seq<ParticleRequest>,
)
    decreases bs.len(),
{
    if bs.len() == 0 {
        (Seq::empty(), Seq::empty())
    } else {
        let r = balls_tick(bs.drop_last(), ps, dt_ms, half_h);
        let t = ball_tick(bs.last(), ps, dt_ms, half_h);
        (r.0.push(t.0), r.1 + t.1)
    }
}

/// The coordinate, speed and streak bounds a ball meets between ticks.
pub open spec fn ball_bounds_ok(b: Ball) -> bool {
    &&& abs_spec(b.x as int) <= COORD_LIMIT
    &&& abs_spec(b.y as int) <= COORD_LIMIT
    &&& abs_spec(b.velocity.x as int) <= SPEED_LIMIT
    &&& abs_spec(b.velocity.y as int) <= SPEED_LIMIT
    &&& b.hit_streak.count < u32::MAX
}

/// The coordinate bounds a paddle meets.
pub open spec fn paddle_bounds_ok(p: Paddle) -> bool {
    abs_spec(p.x as int) <= COORD_LIMIT && abs_spec(p.y as int) <= COORD_LIMIT
}

/// The rally streak only climbs across consecutive paddle hits, until a
/// reset: a hit short of the frenzy threshold raises the count by exactly
/// one, the hit that reaches the threshold resets it to zero (after the
/// boost), and a wall bounce or a goal resets it to zero as well.
pub proof fn lemma_streak_progression(b: Ball, p: Paddle, side: Side, half_w: i64, half_h: i64,
    vy: i64)
    ensures
        b.hit_streak.count + 1 < FRENZY_HIT_COUNT ==> ball_after_paddle(b, p).hit_streak.count
            == b.hit_streak.count + 1,
        b.hit_streak.count + 1 >= FRENZY_HIT_COUNT ==> ball_after_paddle(b, p).hit_streak.count
            == 0,
        ball_after_wall(b, half_h).hit_streak.count == 0,
        served_ball(side, half_w, vy).hit_streak.count == 0,
{
}

/// Both velocity components within the hard speed caps.
pub open spec fn ball_speed_ok(b: Ball) -> bool {
    abs_spec(b.velocity.x as int) <= MAX_BALL_SPEED_X && abs_spec(b.velocity.y as int)
        <= MAX_BALL_SPEED_Y
}

/// One paddle hit, exactly as [`ball_after_paddle`] describes it.
pub fn apply_paddle_hit(b: Ball, p: &Paddle) -> (r: Ball)
    requires
        paddle_collision(b, *p),
        abs_spec(b.x as int) <= TICK_COORD_LIMIT,
        abs_spec(b.y as int) <= TICK_COORD_LIMIT,
        abs_spec(b.velocity.x as int) <= SPEED_LIMIT,
        abs_spec(b.velocity.y as int) <= SPEED_LIMIT,
        b.hit_streak.count < u32::MAX,
        paddle_bounds_ok(*p),
    ensures
        r == ball_after_paddle(b, *p),
{
    let flush_x = if b.velocity.x > 0 {
        p.x - (PADDLE_WIDTH / 2 + BALL_RADIUS)
    } else {
        p.x + (PADDLE_WIDTH / 2 + BALL_RADIUS)
    };

    let accel = scale_i64(b.velocity.x, BALL_ACCEL_NUMER, BALL_ACCEL_DENOM);
    proof {
        lemma_div_down_bound(b.velocity.x * BALL_ACCEL_NUMER, BALL_ACCEL_DENOM as int);
    }
    let vx = clamp_i64(-accel, -MAX_BALL_SPEED_X, MAX_BALL_SPEED_X);

    let halved = div_trunc(b.velocity.y, 2);
    proof {
        lemma_div_down_bound(b.velocity.y as int, 2);
    }
    let steer_scale = MAX_BALL_SPEED_Y / 4 * 3;
    proof {
        assert(-(PADDLE_HEIGHT / 2 + BALL_RADIUS) <= p.y - b.y <= PADDLE_HEIGHT / 2
            + BALL_RADIUS);
        assert(-33000 <= (p.y - b.y) * steer_scale <= 33000) by (nonlinear_arith)
            requires
                -55 <= p.y - b.y <= 55,
                steer_scale == 600,
        ;
    }
    let steer_num = (p.y - b.y) * steer_scale;
    let steer = div_trunc(steer_num, PADDLE_HEIGHT / 2);
    proof {
        lemma_div_down_bound(steer_num as int, PADDLE_HEIGHT as int / 2);
    }
    let vy = clamp_i64(halved - steer, -MAX_BALL_SPEED_Y, MAX_BALL_SPEED_Y);

    let streak = b.hit_streak.count + 1;
    if streak >= FRENZY_HIT_COUNT {
        let fvx = clamp_i64(
            scale_i64(vx, FRENZY_SPEED_NUMER, FRENZY_SPEED_DENOM),
            -MAX_BALL_SPEED_X,
            MAX_BALL_SPEED_X,
        );
        let fvy = clamp_i64(
            scale_i64(vy, FRENZY_SPEED_NUMER, FRENZY_SPEED_DENOM),
            -MAX_BALL_SPEED_Y,
            MAX_BALL_SPEED_Y,
        );
        Ball {
            x: flush_x,
            y: b.y,
            velocity: Velocity { x: fvx, y: fvy },
            hit_streak: HitStreak { count: 0 },
            color: crate::color::frenzy_ball_color(),
        }
    } else {
        Ball {
            x: flush_x,
            y: b.y,
            velocity: Velocity { x: vx, y: vy },
            hit_streak: HitStreak { count: streak },
            color: normal_ball_color(),
        }
    }
}

/// Resolving the paddles keeps the ball's height, caps both velocity
/// components at the hard limits or their incoming magnitude, and leaves
/// the streak either untouched or strictly below the frenzy threshold.
proof fn lemma_through_paddles_props(b: Ball, ps: Seq<Paddle>)
    requires
        forall|i: int| 0 <= i < ps.len() ==> paddle_bounds_ok(#[trigger] ps[i]),
    ensures
        ({
            let r = ball_through_paddles(b, ps).0;
            &&& r.y == b.y
            &&& abs_spec(r.x as int) <= vstd::math::max(
                abs_spec(b.x as int),
                (COORD_LIMIT + PADDLE_WIDTH / 2 + BALL_RADIUS) as int,
            )
            &&& abs_spec(r.velocity.x as int) <= vstd::math::max(
                abs_spec(b.velocity.x as int),
                MAX_BALL_SPEED_X as int,
            )
            &&& abs_spec(r.velocity.y as int) <= vstd::math::max(
                abs_spec(b.velocity.y as int),
                MAX_BALL_SPEED_Y as int,
            )
            &&& (r.hit_streak.count < FRENZY_HIT_COUNT || r.hit_streak.count
                == b.hit_streak.count)
        }),
    decreases ps.len(),
{
    if ps.len() > 0 {
        assert(forall|i: int|
            0 <= i < ps.drop_last().len() ==> paddle_bounds_ok(#[trigger] ps.drop_last()[i]));
        lemma_through_paddles_props(b, ps.drop_last());
    }
}

/// One ball's full tick: height ends inside the wall band, each velocity
/// component ends capped by the hard limit or its incoming magnitude, and
/// the streak is untouched or strictly below the frenzy threshold.
proof fn lemma_ball_tick_props(b: Ball, ps: Seq<Paddle>, dt_ms: u64, half_h: i64)
    requires
        BALL_RADIUS <= half_h <= HALF_EXTENT_LIMIT,
        dt_ms <= FRAME_DT_LIMIT_MS,
        ball_bounds_ok(b),
        forall|i: int| 0 <= i < ps.len() ==> paddle_bounds_ok(#[trigger] ps[i]),
    ensures
        ({
            let t = ball_tick(b, ps, dt_ms, half_h).0;
            &&& abs_spec(t.y as int) <= ball_max_y(half_h)
            &&& abs_spec(t.velocity.x as int) <= vstd::math::max(
                abs_spec(b.velocity.x as int),
                MAX_BALL_SPEED_X as int,
            )
            &&& abs_spec(t.velocity.y as int) <= vstd::math::max(
                abs_spec(b.velocity.y as int),
                MAX_BALL_SPEED_Y as int,
            )
            &&& (t.hit_streak.count < FRENZY_HIT_COUNT || t.hit_streak.count
                == b.hit_streak.count)
        }),
{
    assert(b.velocity.y * dt_ms <= SPEED_LIMIT * FRAME_DT_LIMIT_MS && -(SPEED_LIMIT
        * FRAME_DT_LIMIT_MS) <= b.velocity.y * dt_ms) by (nonlinear_arith)
        requires
            abs_spec(b.velocity.y as int) <= SPEED_LIMIT,
            0 <= dt_ms <= FRAME_DT_LIMIT_MS,
    ;
    lemma_div_down_bound(b.velocity.y * dt_ms, 1000);
    let b1 = ball_integrate(b, dt_ms);
    if wall_hit(b1, half_h) {
        let b2 = ball_after_wall(b1, half_h);
        lemma_through_paddles_props(b2, ps);
    } else {
        lemma_through_paddles_props(b1, ps);
    }
}

/// Ticking every ball gives one ball per incoming ball, pointwise.
proof fn lemma_balls_tick_index(bs: Seq<Ball>, ps: Seq<Paddle>, dt_ms: u64, half_h: i64)
    ensures
        balls_tick(bs, ps, dt_ms, half_h).0.len() == bs.len(),
        forall|i: int|
            0 <= i < bs.len() ==> balls_tick(bs, ps, dt_ms, half_h).0[i] == ball_tick(
                #[trigger] bs[i],
                ps,
                dt_ms,
                half_h,
            ).0,
    decreases bs.len(),
{
    if bs.len() > 0 {
        lemma_balls_tick_index(bs.drop_last(), ps, dt_ms, half_h);
        assert forall|i: int|
            0 <= i < bs.len() implies balls_tick(bs, ps, dt_ms, half_h).0[i] == ball_tick(
            #[trigger] bs[i],
            ps,
            dt_ms,
            half_h,
        ).0 by {
            if i < bs.len() - 1 {
                assert(bs.drop_last()[i] == bs[i]);
                assert(balls_tick(bs, ps, dt_ms, half_h).0[i] == balls_tick(
                    bs.drop_last(),
                    ps,
                    dt_ms,
                    half_h,
                ).0[i]);
            } else {
                assert(bs.last() == bs[i]);
            }
        }
    }
}

/// One ball's tick: integrate, bounce, resolve paddles; burst requests
/// are appended to `requests` in the order they arise.
pub fn step_ball(
    b: Ball,
    paddles: &Vec<Paddle>,
    dt_ms: u64,
    half_h: i64,
    requests: &mut Vec<ParticleRequest>,
) -> (nb: Ball)
    requires
        BALL_RADIUS <= half_h <= HALF_EXTENT_LIMIT,
        dt_ms <= FRAME_DT_LIMIT_MS,
        ball_bounds_ok(b),
        forall|i: int| 0 <= i < paddles@.len() ==> paddle_bounds_ok(#[trigger] paddles@[i]),
    ensures
        nb == ball_tick(b, paddles@, dt_ms, half_h).0,
        final(requests)@ == old(requests)@ + ball_tick(b, paddles@, dt_ms, half_h).1,
{
    proof {
        assert(b.velocity.x * dt_ms <= SPEED_LIMIT * FRAME_DT_LIMIT_MS && -(SPEED_LIMIT
            * FRAME_DT_LIMIT_MS) <= b.velocity.x * dt_ms) by (nonlinear_arith)
            requires
                abs_spec(b.velocity.x as int) <= SPEED_LIMIT,
                0 <= dt_ms <= FRAME_DT_LIMIT_MS,
        ;
        assert(b.velocity.y * dt_ms <= SPEED_LIMIT * FRAME_DT_LIMIT_MS && -(SPEED_LIMIT
            * FRAME_DT_LIMIT_MS) <= b.velocity.y * dt_ms) by (nonlinear_arith)
            requires
                abs_spec(b.velocity.y as int) <= SPEED_LIMIT,
                0 <= dt_ms <= FRAME_DT_LIMIT_MS,
        ;
        lemma_div_down_bound(b.velocity.x * dt_ms, 1000);
        lemma_div_down_bound(b.velocity.y * dt_ms, 1000);
    }
    let dx = div_trunc(b.velocity.x * (dt_ms as i64), 1000);
    let dy = div_trunc(b.velocity.y * (dt_ms as i64), 1000);
    let mut cur = Ball {
        x: b.x + dx,
        y: b.y + dy,
        velocity: b.velocity,
        hit_streak: b.hit_streak,
        color: b.color,
    };
    proof {
        assert(cur == ball_integrate(b, dt_ms));
    }

    let max_y = half_h - BALL_RADIUS;
    if cur.y < -max_y || cur.y > max_y {
        let ny = clamp_i64(cur.y, -max_y, max_y);
        cur = Ball {
            x: cur.x,
            y: ny,
            velocity: Velocity { x: cur.velocity.x, y: -cur.velocity.y },
            hit_streak: HitStreak { count: 0 },
            color: normal_ball_color(),
        };
        requests.push(
            ParticleRequest {
                x: cur.x,
                y: cur.y,
                color: crate::color::wall_spark_color(),
                count: WALL_BURST_COUNT,
                base_lifetime_ms: WALL_BURST_LIFETIME_MS,
            },
        );
    }

    let ghost base = cur;
    let ghost reqs0 = requests@;
    let mut j: usize = 0;
    while j < paddles.len()
        invariant
            0 <= j <= paddles@.len(),
            forall|i: int| 0 <= i < paddles@.len() ==> paddle_bounds_ok(#[trigger] paddles@[i]),
            cur == ball_through_paddles(base, paddles@.subrange(0, j as int)).0,
            requests@ == reqs0 + ball_through_paddles(base, paddles@.subrange(0, j as int)).1,
            abs_spec(base.x as int) <= TICK_COORD_LIMIT,
            abs_spec(base.y as int) <= TICK_COORD_LIMIT,
            abs_spec(base.velocity.x as int) <= SPEED_LIMIT,
            abs_spec(base.velocity.y as int) <= SPEED_LIMIT,
            base.hit_streak.count < u32::MAX,
        decreases paddles@.len() - j,
    {
        proof {
            assert(forall|i: int|
                0 <= i < paddles@.subrange(0, j as int).len() ==> paddle_bounds_ok(
                    #[trigger] paddles@.subrange(0, j as int)[i],
                ));
            lemma_through_paddles_props(base, paddles@.subrange(0, j as int));
            assert(abs_spec(cur.x as int) <= TICK_COORD_LIMIT);
            assert(abs_spec(cur.y as int) <= TICK_COORD_LIMIT);
            assert(abs_spec(cur.velocity.x as int) <= SPEED_LIMIT);
            assert(abs_spec(cur.velocity.y as int) <= SPEED_LIMIT);
            assert(cur.hit_streak.count < u32::MAX);
            assert(paddles@.subrange(0, j as int + 1).drop_last() =~= paddles@.subrange(
                0,
                j as int,
            ));
            assert(paddles@.subrange(0, j as int + 1).last() == paddles@[j as int]);
        }
        let p = paddles[j];
        let diff = cur.x - p.x;
        let adx = if diff < 0 {
            -diff
        } else {
            diff
        };
        let collide_x = adx < PADDLE_WIDTH / 2 + BALL_RADIUS;
        let collide_y = cur.y >= p.y - PADDLE_HEIGHT / 2 - BALL_RADIUS && cur.y <= p.y
            + PADDLE_HEIGHT / 2 + BALL_RADIUS;
        let towards = (cur.velocity.x > 0 && p.x > 0) || (cur.velocity.x < 0 && p.x < 0);
        if collide_x && collide_y && towards {
            cur = apply_paddle_hit(cur, &p);
            requests.push(
                ParticleRequest {
                    x: cur.x,
                    y: cur.y,
                    color: crate::color::white_color(),
                    count: PADDLE_BURST_COUNT,
                    base_lifetime_ms: PADDLE_BURST_LIFETIME_MS,
                },
            );
        }
        j = j + 1;
    }
    proof {
        assert(paddles@.subrange(0, paddles@.len() as int) =~= paddles@);
        assert(final(requests)@ =~= old(requests)@ + ball_tick(b, paddles@, dt_ms, half_h).1);
    }
    cur
}

/// The Ball Simulator's tick.  Every ball is integrated by the frame
/// delta, bounced off the walls, and resolved against each paddle, and
/// the particle bursts of the tick's collisions come back as requests.
/// A ball whose velocity met the hard caps before still meets them after.
pub fn move_ball(balls: &mut Vec<Ball>, paddles: &Vec<Paddle>, dt_ms: u64, half_h: i64) -> (requests:
    Vec<ParticleRequest>)
    requires
        BALL_RADIUS <= half_h <= HALF_EXTENT_LIMIT,
        dt_ms <= FRAME_DT_LIMIT_MS,
        forall|i: int| 0 <= i < old(balls)@.len() ==> ball_bounds_ok(#[trigger] old(balls)@[i]),
        forall|i: int| 0 <= i < paddles@.len() ==> paddle_bounds_ok(#[trigger] paddles@[i]),
    ensures
        final(balls)@ == balls_tick(old(balls)@, paddles@, dt_ms, half_h).0,
        requests@ == balls_tick(old(balls)@, paddles@, dt_ms, half_h).1,
        forall|i: int|
            0 <= i < old(balls)@.len() ==> {
                let t = #[trigger] final(balls)@[i];
                let o = old(balls)@[i];
                &&& abs_spec(t.y as int) <= ball_max_y(half_h)
                &&& abs_spec(t.velocity.x as int) <= vstd::math::max(
                    abs_spec(o.velocity.x as int),
                    MAX_BALL_SPEED_X as int,
                )
                &&& abs_spec(t.velocity.y as int) <= vstd::math::max(
                    abs_spec(o.velocity.y as int),
                    MAX_BALL_SPEED_Y as int,
                )
                &&& (t.hit_streak.count < FRENZY_HIT_COUNT || t.hit_streak.count
                    == o.hit_streak.count)
            },
        forall|i: int|
            0 <= i < old(balls)@.len() ==> ball_speed_ok(old(balls)@[i]) ==> ball_speed_ok(
                #[trigger] final(balls)@[i],
            ),
{
    let mut requests: Vec<ParticleRequest> = Vec::new();
    let mut i: usize = 0;
    while i < balls.len()
        invariant
            0 <= i <= balls@.len(),
            balls@.len() == old(balls)@.len(),
            BALL_RADIUS <= half_h <= HALF_EXTENT_LIMIT,
            dt_ms <= FRAME_DT_LIMIT_MS,
            forall|k: int| 0 <= k < old(balls)@.len() ==> ball_bounds_ok(#[trigger] old(balls)@[k]),
            forall|k: int| 0 <= k < paddles@.len() ==> paddle_bounds_ok(#[trigger] paddles@[k]),
            forall|k: int| i <= k < balls@.len() ==> #[trigger] balls@[k] == old(balls)@[k],
            forall|k: int|
                0 <= k < i ==> #[trigger] balls@[k] == ball_tick(
                    old(balls)@[k],
                    paddles@,
                    dt_ms,
                    half_h,
                ).0,
            requests@ == balls_tick(
                old(balls)@.subrange(0, i as int),
                paddles@,
                dt_ms,
                half_h,
            ).1,
        decreases balls@.len() - i,
    {
        proof {
            assert(old(balls)@.subrange(0, i as int + 1).drop_last() =~= old(balls)@.subrange(
                0,
                i as int,
            ));
            assert(old(balls)@.subrange(0, i as int + 1).last() == old(balls)@[i as int]);
        }
        let b = balls[i];
        let nb = step_ball(b, paddles, dt_ms, half_h, &mut requests);
        balls.set(i, nb);
        i = i + 1;
    }
    proof {
        assert(old(balls)@.subrange(0, old(balls)@.len() as int) =~= old(balls)@);
        lemma_balls_tick_index(old(balls)@, paddles@, dt_ms, half_h);
        assert(final(balls)@ =~= balls_tick(old(balls)@, paddles@, dt_ms, half_h).0);
        assert forall|k: int| 0 <= k < old(balls)@.len() implies {
            let t = #[trigger] final(balls)@[k];
            let o = old(balls)@[k];
            &&& abs_spec(t.y as int) <= ball_max_y(half_h)
            &&& abs_spec(t.velocity.x as int) <= vstd::math::max(
                abs_spec(o.velocity.x as int),
                MAX_BALL_SPEED_X as int,
            )
            &&& abs_spec(t.velocity.y as int) <= vstd::math::max(
                abs_spec(o.velocity.y as int),
                MAX_BALL_SPEED_Y as int,
            )
            &&& (t.hit_streak.count < FRENZY_HIT_COUNT || t.hit_streak.count
                == o.hit_streak.count)
        } by {
            lemma_ball_tick_props(old(balls)@[k], paddles@, dt_ms, half_h);
        }
    }
    requests
}

/// How far past the half-width the ball's centre must travel for a goal.
pub open spec fn goal_limit(half_w: i64) -> int {
    half_w + PADDLE_MARGIN
}

/// The side credited for the ball's position, if it has crossed a goal
/// line: leaving past the left edge credits Right, past the right edge
/// credits Left.
pub open spec fn goal_side(b: Ball, half_w: i64) -> Option<Side> {
    if b.x < -goal_limit(half_w) {
        Some(Side::Right)
    } else if b.x > goal_limit(half_w) {
        Some(Side::Left)
    } else {
        None
    }
}

/// The serve's horizontal speed is the half-width over this divisor.
pub const SERVE_SPEED_DIVISOR: i64 = 2;

/// The serve's vertical speed is drawn uniformly from plus/minus the
/// half-height over this divisor — half of the quarter-window range.
pub const SERVE_Y_LIMIT_DIVISOR: i64 = 4;

/// Serve direction: toward the player who did not score.
pub open spec fn serve_vx(scorer: Side, half_w: i64) -> int {
    match scorer {
        Side::Left => half_w / SERVE_SPEED_DIVISOR,
        Side::Right => -(half_w / SERVE_SPEED_DIVISOR),
    }
}

/// How a goal leaves the ball, given the drawn vertical speed `vy`:
/// centred, served toward the conceding side, streak and tint reset.
pub open spec fn served_ball(scorer: Side, half_w: i64, vy: i64) -> Ball {
    Ball {
        x: 0,
        y: 0,
        velocity: Velocity { x: serve_vx(scorer, half_w) as i64, y: vy },
        hit_streak: HitStreak { count: 0 },
        color: normal_ball_color_spec(),
    }
}

/// What the goal check promises of each ball: one that crossed no goal
/// line is untouched; a scoring one is re-served, with only the vertical
/// speed left to the random draw.
pub open spec fn ball_goal_post(o: Ball, t: Ball, half_w: i64, half_h: i64) -> bool {
    match goal_side(o, half_w) {
        None => t == o,
        Some(side) => {
            &&& t == served_ball(side, half_w, t.velocity.y)
            &&& -(half_h / SERVE_Y_LIMIT_DIVISOR) <= t.velocity.y <= half_h
                / SERVE_Y_LIMIT_DIVISOR
        },
    }
}

/// `i` is the first index of `ss` holding the score display of `side`.
pub open spec fn is_first_score_of_side(ss: Seq<ScoreDisplayView>, side: Side, i: int) -> bool {
    &&& 0 <= i < ss.len()
    &&& ss[i].side == side
    &&& forall|k: int| 0 <= k < i ==> (#[trigger] ss[k]).side != side
}

/// The first index of `ss` holding the display of `side`, `-1` where none.
pub open spec fn first_score_of_side(ss: Seq<ScoreDisplayView>, side: Side) -> int {
    if exists|i: int| is_first_score_of_side(ss, side, i) {
        choose|i: int| is_first_score_of_side(ss, side, i)
    } else {
        -1
    }
}

/// At most one index is first, so a found first index is the spec's.
proof fn lemma_first_score_of_side(ss: Seq<ScoreDisplayView>, side: Side, i: int)
    requires
        is_first_score_of_side(ss, side, i),
    ensures
        first_score_of_side(ss, side) == i,
{
    let c = choose|j: int| is_first_score_of_side(ss, side, j);
    assert(is_first_score_of_side(ss, side, c));
}

/// No display of `side` exists, so the spec's first index is `-1`.
proof fn lemma_no_first_score_of_side(ss: Seq<ScoreDisplayView>, side: Side)
    requires
        forall|k: int| 0 <= k < ss.len() ==> (#[trigger] ss[k]).side != side,
    ensures
        first_score_of_side(ss, side) == -1,
{
    if exists|i: int| is_first_score_of_side(ss, side, i) {
        let c = choose|i: int| is_first_score_of_side(ss, side, i);
        assert(ss[c].side == side);
    }
}

/// A goal credited to a display: the value grows by one, the text follows
/// it, and a fresh celebration recording the current color is attached.
pub open spec fn celebrate_score(s: ScoreDisplayView, scorer: Side) -> ScoreDisplayView {
    ScoreDisplayView {
        value: (s.value + 1) as u32,
        side: s.side,
        text: decimal_digits(s.value + 1),
        color: s.color,
        celebration: Some(
            ScoreCelebration {
                timer: CountdownTimer { duration_ms: CELEBRATION_DURATION_MS, elapsed_ms: 0 },
                original_color: s.color,
                scored_side: scorer,
            },
        ),
    }
}

/// A goal applied to the score displays: the first display of the
/// scorer's side is credited; without one, nothing changes.
pub open spec fn apply_goal_to_scores(ss: Seq<ScoreDisplayView>, scorer: Side) -> Seq<
    ScoreDisplayView,
> {
    let idx = first_score_of_side(ss, scorer);
    if idx < 0 {
        ss
    } else {
        ss.update(idx, celebrate_score(ss[idx], scorer))
    }
}

/// The score displays after every ball's goal crossing is credited, in
/// ball order.
pub open spec fn goals_scores(bs: Seq<Ball>, ss: Seq<ScoreDisplayView>, half_w: i64) -> Seq<
    ScoreDisplayView,
>
    decreases bs.len(),
{
    if bs.len() == 0 {
        ss
    } else {
        let prev = goals_scores(bs.drop_last(), ss, half_w);
        match goal_side(bs.last(), half_w) {
            Some(side) => apply_goal_to_scores(prev, side),
            None => prev,
        }
    }
}

/// Crediting goals only ever raises a value, by at most one per ball, and
/// never moves, adds or removes a display.
proof fn lemma_goals_scores_bounds(bs: Seq<Ball>, ss: Seq<ScoreDisplayView>, half_w: i64)
    requires
        forall|k: int|
            0 <= k < ss.len() ==> (#[trigger] ss[k]).value + bs.len() <= u32::MAX,
    ensures
        goals_scores(bs, ss, half_w).len() == ss.len(),
        forall|k: int|
            0 <= k < ss.len() ==> {
                let r = #[trigger] goals_scores(bs, ss, half_w)[k];
                &&& r.side == ss[k].side
                &&& ss[k].value <= r.value <= ss[k].value + bs.len()
            },
    decreases bs.len(),
{
    if bs.len() > 0 {
        lemma_goals_scores_bounds(bs.drop_last(), ss, half_w);
        let prev = goals_scores(bs.drop_last(), ss, half_w);
        match goal_side(bs.last(), half_w) {
            Some(side) => {
                let idx = first_score_of_side(prev, side);
                if idx >= 0 {
                    assert(is_first_score_of_side(prev, side, choose|i: int|
                        is_first_score_of_side(prev, side, i)));
                }
            },
            None => {},
        }
    }
}

/// Crediting goals keeps every display well formed: the shown text still
/// equals the decimal rendering of the (possibly raised) value.
pub proof fn lemma_goals_scores_wf(bs: Seq<Ball>, ss: Seq<ScoreDisplayView>, half_w: i64)
    requires
        crate::world::scores_wf(ss),
        forall|k: int|
            0 <= k < ss.len() ==> (#[trigger] ss[k]).value + bs.len() <= u32::MAX,
    ensures
        crate::world::scores_wf(goals_scores(bs, ss, half_w)),
    decreases bs.len(),
{
    if bs.len() > 0 {
        lemma_goals_scores_wf(bs.drop_last(), ss, half_w);
        lemma_goals_scores_bounds(bs.drop_last(), ss, half_w);
        let prev = goals_scores(bs.drop_last(), ss, half_w);
        match goal_side(bs.last(), half_w) {
            Some(side) => {
                let idx = first_score_of_side(prev, side);
                if idx >= 0 {
                    assert(is_first_score_of_side(prev, side, choose|i: int|
                        is_first_score_of_side(prev, side, i)));
                }
            },
            None => {},
        }
    }
}

/// The Scoring & Serve Manager.  Each ball past a goal line credits the
/// opposite side's score (value, text and celebration flash together) and
/// is re-served from the centre toward the conceder, with a random
/// vertical speed inside the serve band.  Balls in play are untouched.
pub fn check_new_goal(
    balls: &mut Vec<Ball>,
    scores: &mut Vec<ScoreDisplay>,
    half_w: i64,
    half_h: i64,
)
    requires
        0 <= half_w <= HALF_EXTENT_LIMIT,
        0 <= half_h <= HALF_EXTENT_LIMIT,
        forall|i: int|
            0 <= i < old(scores)@.len() ==> (#[trigger] old(scores)@[i]).score.value + old(
                balls,
            )@.len() <= u32::MAX,
    ensures
        final(balls)@.len() == old(balls)@.len(),
        final(scores)@.len() == old(scores)@.len(),
        forall|i: int|
            0 <= i < old(balls)@.len() ==> ball_goal_post(
                old(balls)@[i],
                #[trigger] final(balls)@[i],
                half_w,
                half_h,
            ),
        final(scores)@.map_values(|s: ScoreDisplay| s@) == goals_scores(
            old(balls)@,
            old(scores)@.map_values(|s: ScoreDisplay| s@),
            half_w,
        ),
{
    let ghost ss0 = old(scores)@.map_values(|s: ScoreDisplay| s@);
    let limit = half_w + PADDLE_MARGIN;
    let mut i: usize = 0;
    while i < balls.len()
        invariant
            0 <= i <= balls@.len(),
            balls@.len() == old(balls)@.len(),
            scores@.len() == old(scores)@.len(),
            0 <= half_w <= HALF_EXTENT_LIMIT,
            0 <= half_h <= HALF_EXTENT_LIMIT,
            limit == goal_limit(half_w),
            ss0 == old(scores)@.map_values(|s: ScoreDisplay| s@),
            ss0.len() == old(scores)@.len(),
            forall|k: int|
                0 <= k < ss0.len() ==> (#[trigger] ss0[k]).value + old(balls)@.len() <= u32::MAX,
            forall|k: int| i <= k < balls@.len() ==> #[trigger] balls@[k] == old(balls)@[k],
            forall|k: int|
                0 <= k < i ==> ball_goal_post(old(balls)@[k], #[trigger] balls@[k], half_w, half_h),
            scores@.map_values(|s: ScoreDisplay| s@) == goals_scores(
                old(balls)@.subrange(0, i as int),
                ss0,
                half_w,
            ),
        decreases balls@.len() - i,
    {
        proof {
            assert(old(balls)@.subrange(0, i as int + 1).drop_last() =~= old(balls)@.subrange(
                0,
                i as int,
            ));
            assert(old(balls)@.subrange(0, i as int + 1).last() == old(balls)@[i as int]);
            lemma_goals_scores_bounds(old(balls)@.subrange(0, i as int), ss0, half_w);
        }
        let b = balls[i];
        let scorer: Option<Side> = if b.x < -limit {
            Some(Side::Right)
        } else if b.x > limit {
            Some(Side::Left)
        } else {
            None
        };
        if let Some(side) = scorer {
            let ghost ss_mid = scores@.map_values(|s: ScoreDisplay| s@);
            let mut j: usize = 0;
            let mut found = false;
            while j < scores.len()
                invariant_except_break
                    0 <= j <= scores@.len(),
                    !found,
                    scores@.map_values(|s: ScoreDisplay| s@) == ss_mid,
                    scores@.len() == ss_mid.len(),
                    forall|k: int| 0 <= k < j ==> (#[trigger] ss_mid[k]).side != side,
                    forall|k: int| 0 <= k < ss_mid.len() ==> (#[trigger] ss_mid[k]).value < u32::MAX,
                ensures
                    scores@.len() == ss_mid.len(),
                    found ==> scores@.map_values(|s: ScoreDisplay| s@) == apply_goal_to_scores(
                        ss_mid,
                        side,
                    ),
                    !found ==> scores@.map_values(|s: ScoreDisplay| s@) == ss_mid && (forall|
                        k: int,
                    |
                        0 <= k < ss_mid.len() ==> (#[trigger] ss_mid[k]).side != side),
                decreases scores@.len() - j,
            {
                let matches_side = match (scores[j].score.side, side) {
                    (Side::Left, Side::Left) => true,
                    (Side::Right, Side::Right) => true,
                    _ => false,
                };
                if matches_side {
                    let value = scores[j].score.value;
                    let color = scores[j].color;
                    let new_text = u32_to_decimal(value + 1);
                    scores.set(
                        j,
                        ScoreDisplay {
                            score: Score { value: value + 1, side },
                            text: new_text,
                            color,
                            celebration: Some(
                                ScoreCelebration {
                                    timer: CountdownTimer::new(CELEBRATION_DURATION_MS),
                                    original_color: color,
                                    scored_side: side,
                                },
                            ),
                        },
                    );
                    proof {
                        lemma_first_score_of_side(ss_mid, side, j as int);
                        assert(scores@.map_values(|s: ScoreDisplay| s@) =~~= apply_goal_to_scores(
                            ss_mid,
                            side,
                        ));
                    }
                    found = true;
                    break;
                }
                proof {
                    assert(ss_mid[j as int].side != side);
                }
                j = j + 1;
            }
            proof {
                if !found {
                    lemma_no_first_score_of_side(ss_mid, side);
                }
                assert(scores@.map_values(|s: ScoreDisplay| s@) == apply_goal_to_scores(
                    ss_mid,
                    side,
                ));
            }

            let vy_limit = half_h / SERVE_Y_LIMIT_DIVISOR;
            let vy = sample_inclusive(-vy_limit, vy_limit);
            let serve_x = half_w / SERVE_SPEED_DIVISOR;
            let vx = if matches!(side, Side::Left) {
                serve_x
            } else {
                -serve_x
            };
            balls.set(
                i,
                Ball {
                    x: 0,
                    y: 0,
                    velocity: Velocity { x: vx, y: vy },
                    hit_streak: HitStreak { count: 0 },
                    color: normal_ball_color(),
                },
            );
        }
        i = i + 1;
    }
    proof {
        assert(old(balls)@.subrange(0, old(balls)@.len() as int) =~= old(balls)@);
    }
}

/// The score value that ends the match.
pub const WIN_SCORE: u32 = 10;

/// Whether some score display shows the winning value.
pub open spec fn win_reached(ss: Seq<ScoreDisplayView>) -> bool {
    exists|i: int| 0 <= i < ss.len() && (#[trigger] ss[i]).value == WIN_SCORE
}

/// `i` is the first index of `ss` showing the winning value.
pub open spec fn is_first_winner(ss: Seq<ScoreDisplayView>, i: int) -> bool {
    &&& 0 <= i < ss.len()
    &&& ss[i].value == WIN_SCORE
    &&& forall|k: int| 0 <= k < i ==> (#[trigger] ss[k]).value != WIN_SCORE
}

/// The first index of `ss` showing the winning value, `-1` where none.
pub open spec fn winner_index(ss: Seq<ScoreDisplayView>) -> int {
    if exists|i: int| is_first_winner(ss, i) {
        choose|i: int| is_first_winner(ss, i)
    } else {
        -1
    }
}

/// At most one index is the first winner, so a found one is the spec's.
proof fn lemma_winner_index(ss: Seq<ScoreDisplayView>, i: int)
    requires
        is_first_winner(ss, i),
    ensures
        winner_index(ss) == i,
{
    let c = choose|j: int| is_first_winner(ss, j);
    assert(is_first_winner(ss, c));
}

/// The end-of-match text: who won, and how to restart.
pub open spec fn winner_text(side: Side) -> Seq<char> {
    if side is Left {
        "P1 wins!"@
    } else {
        "P2 wins!"@
    }
}

/// The two labels the win check spawns.
pub open spec fn game_over_messages(side: Side) -> Seq<TextLabelView> {
    seq![
        TextLabelView { text: winner_text(side), color: white_color_spec() },
        TextLabelView { text: "Press R to restart"@, color: white_color_spec() },
    ]
}

/// The world after the win check: nothing changes until a score shows the
/// winning value; then every match entity is torn down and exactly the
/// two end-of-match labels stand, while in-flight particles keep fading.
pub open spec fn game_over_spec(w: WorldView) -> WorldView {
    if win_reached(w.scores) {
        WorldView {
            paddles: Seq::empty(),
            balls: Seq::empty(),
            scores: Seq::empty(),
            borders: Seq::empty(),
            messages: game_over_messages(w.scores[winner_index(w.scores)].side),
            particles: w.particles,
        }
    } else {
        w
    }
}

/// The win check cannot fire twice: a world it has already torn down has
/// no score displays left, so running it again changes nothing.
pub proof fn lemma_game_over_idempotent(w: WorldView)
    ensures
        game_over_spec(game_over_spec(w)) == game_over_spec(w),
{
    if win_reached(w.scores) {
        assert(!win_reached(game_over_spec(w).scores));
    }
}

/// The Match Lifecycle Manager's win check.  A score reaching
/// [`WIN_SCORE`] ends the match: every paddle, ball, border, score
/// display and message is despawned and exactly two text labels appear,
/// naming the winner and the restart key.
pub fn game_over(world: &mut GameWorld)
    ensures
        final(world)@ == game_over_spec(old(world)@),
{
    let ghost ss = old(world)@.scores;
    let mut winner: Option<Side> = None;
    let mut j: usize = 0;
    while j < world.scores.len()
        invariant_except_break
            0 <= j <= world.scores@.len(),
            *world == *old(world),
            ss == old(world)@.scores,
            winner is None,
            forall|k: int| 0 <= k < j ==> (#[trigger] ss[k]).value != WIN_SCORE,
        ensures
            *world == *old(world),
            ss == old(world)@.scores,
            match winner {
                Some(side) => 0 <= winner_index(ss) < ss.len() && side == ss[winner_index(
                    ss,
                )].side && win_reached(ss),
                None => !win_reached(ss),
            },
        decreases world.scores@.len() - j,
    {
        if world.scores[j].score.value == WIN_SCORE {
            winner = Some(world.scores[j].score.side);
            proof {
                lemma_winner_index(ss, j as int);
            }
            break;
        }
        j = j + 1;
    }

    if let Some(side) = winner {
        world.messages.clear();
        world.paddles.clear();
        world.balls.clear();
        world.scores.clear();
        world.borders.clear();
        let win_label = if matches!(side, Side::Left) {
            "P1 wins!"
        } else {
            "P2 wins!"
        };
        world.messages.push(
            TextLabel { text: String::from_str(win_label), color: white_color() },
        );
        world.messages.push(
            TextLabel { text: String::from_str("Press R to restart"), color: white_color() },
        );
        proof {
            assert(world@ =~~= game_over_spec(old(world)@));
        }
    }
}

/// Whether this frame restarts the match: the restart key fires at any
/// time; touch input fires only once the match is over.
pub open spec fn restart_triggered(
    restart_pressed: bool,
    touch_active: bool,
    ss: Seq<ScoreDisplayView>,
) -> bool {
    restart_pressed || (touch_active && win_reached(ss))
}

/// The world after the restart check: when triggered, every match entity
/// (including the end-of-match text and the border) is despawned and a
/// fresh match is set up; in-flight particles keep fading.
pub open spec fn restart_spec(
    w: WorldView,
    restart_pressed: bool,
    touch_active: bool,
    half_w: i64,
    half_h: i64,
) -> WorldView {
    if restart_triggered(restart_pressed, touch_active, w.scores) {
        crate::setup::setup_spec(
            WorldView {
                paddles: Seq::empty(),
                balls: Seq::empty(),
                scores: Seq::empty(),
                borders: Seq::empty(),
                messages: Seq::empty(),
                particles: w.particles,
            },
            half_w,
            half_h,
        )
    } else {
        w
    }
}

/// The Match Lifecycle Manager's restart check.  The restart key restarts
/// at any time; any fresh touch restarts once a score shows the winning
/// value.  A restart despawns everything but the in-flight particles and
/// re-runs the match setup.
pub fn restart_game(
    world: &mut GameWorld,
    restart_pressed: bool,
    touch_active: bool,
    half_w: i64,
    half_h: i64,
)
    requires
        0 <= half_w <= HALF_EXTENT_LIMIT,
        0 <= half_h <= HALF_EXTENT_LIMIT,
    ensures
        final(world)@ == restart_spec(old(world)@, restart_pressed, touch_active, half_w, half_h),
{
    let ghost ss = old(world)@.scores;
    let mut won = false;
    let mut j: usize = 0;
    while j < world.scores.len()
        invariant_except_break
            0 <= j <= world.scores@.len(),
            *world == *old(world),
            ss == old(world)@.scores,
            !won,
            forall|k: int| 0 <= k < j ==> (#[trigger] ss[k]).value != WIN_SCORE,
        ensures
            *world == *old(world),
            ss == old(world)@.scores,
            won == win_reached(ss),
        decreases world.scores@.len() - j,
    {
        if world.scores[j].score.value == WIN_SCORE {
            proof {
                assert(0 <= j < ss.len() && ss[j as int].value == WIN_SCORE);
            }
            won = true;
            break;
        }
        j = j + 1;
    }

    let triggered = restart_pressed || (touch_active && won);
    if triggered {
        world.scores.clear();
        world.messages.clear();
        world.paddles.clear();
        world.balls.clear();
        world.borders.clear();
        crate::setup::setup_game(world, half_w, half_h);
        proof {
            assert(world@ =~~= restart_spec(
                old(world)@,
                restart_pressed,
                touch_active,
                half_w,
                half_h,
            ));
        }
    }
}

} // verus!
