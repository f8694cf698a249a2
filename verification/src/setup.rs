//! Match setup: the entities a fresh match starts with.
//!
//! Setup appends to the world it is given — at first launch the world is
//! empty, and on restart the lifecycle manager has already cleared the
//! stale entities (in-flight particles survive and simply keep fading).

use vstd::prelude::*;

use crate::color::{normal_ball_color, normal_ball_color_spec, white_color, white_color_spec};
use crate::text::{decimal_digits, u32_to_decimal};
use crate::world::{
    Ball, Border, GameWorld, HitStreak, Paddle, Score, ScoreDisplay, ScoreDisplayView, Side,
    Velocity, WorldView,
};
use crate::{BALL_RADIUS, HALF_EXTENT_LIMIT, PADDLE_MARGIN};

verus! {

/// Length of one dash of the center line.
pub const BORDER_DASH_LENGTH: i64 = 5;

/// Gap between two dashes of the center line.
pub const BORDER_DASH_SPACING: i64 = 5;

/// The paddle a fresh match gives `side`, centred vertically and pinned
/// at the horizontal margin.
pub open spec fn initial_paddle(side: Side, half_w: i64) -> Paddle {
    Paddle {
        side,
        x: if side is Left {
            (PADDLE_MARGIN - half_w) as i64
        } else {
            (half_w - PADDLE_MARGIN) as i64
        },
        y: 0,
    }
}

/// The ball a fresh match starts with: centred, served diagonally at a
/// quarter of the window per second, normal tint, no streak.
pub open spec fn initial_ball(half_w: i64, half_h: i64) -> Ball {
    Ball {
        x: 0,
        y: 0,
        velocity: Velocity { x: (half_w / 2) as i64, y: (half_h / 2) as i64 },
        hit_streak: HitStreak { count: 0 },
        color: normal_ball_color_spec(),
    }
}

/// A zeroed score display for `side`.
pub open spec fn initial_score(side: Side) -> ScoreDisplayView {
    ScoreDisplayView {
        value: 0,
        side,
        text: decimal_digits(0),
        color: white_color_spec(),
        celebration: None,
    }
}

/// A fresh score display is well formed: it shows "0" for value zero.
pub proof fn lemma_initial_score_wf(side: Side)
    ensures
        crate::world::score_display_wf(initial_score(side)),
{
}

/// How many dashes the center line needs to span three half-heights.
pub open spec fn border_dash_count(half_h: i64) -> int {
    (3 * half_h + BORDER_DASH_LENGTH + BORDER_DASH_SPACING - 1) / (BORDER_DASH_LENGTH
        + BORDER_DASH_SPACING)
}

/// The `i`-th dash of the center line, counted from the top.
pub open spec fn border_dash(half_h: i64, i: int) -> Border {
    Border {
        x: 0,
        y: ((3 * half_h) / 2 - (BORDER_DASH_LENGTH + BORDER_DASH_SPACING) * i) as i64,
    }
}

/// The dashed center line of a fresh match.
pub open spec fn initial_borders(half_h: i64) -> Seq<Border> {
    Seq::new(border_dash_count(half_h) as nat, |i: int| border_dash(half_h, i))
}

/// The world after setup has appended a fresh match to `w`.
pub open spec fn setup_spec(w: WorldView, half_w: i64, half_h: i64) -> WorldView {
    WorldView {
        paddles: w.paddles + seq![
            initial_paddle(Side::Left, half_w),
            initial_paddle(Side::Right, half_w),
        ],
        balls: w.balls + seq![initial_ball(half_w, half_h)],
        scores: w.scores + seq![initial_score(Side::Left), initial_score(Side::Right)],
        borders: w.borders + initial_borders(half_h),
        messages: w.messages,
        particles: w.particles,
    }
}

/// Spawn a fresh match into `world`: two paddles centred vertically at the
/// horizontal margins, a centred ball with a quarter-window-scaled serve,
/// two zeroed score displays, and the dashed center line.
pub fn setup_game(world: &mut GameWorld, half_w: i64, half_h: i64)
    requires
        0 <= half_w <= HALF_EXTENT_LIMIT,
        0 <= half_h <= HALF_EXTENT_LIMIT,
    ensures
        final(world)@ == setup_spec(old(world)@, half_w, half_h),
{
    let paddle_x = half_w - PADDLE_MARGIN;

    world.paddles.push(Paddle { side: Side::Left, x: -paddle_x, y: 0 });
    world.paddles.push(Paddle { side: Side::Right, x: paddle_x, y: 0 });

    world.balls.push(
        Ball {
            x: 0,
            y: 0,
            velocity: Velocity { x: half_w / 2, y: half_h / 2 },
            hit_streak: HitStreak { count: 0 },
            color: normal_ball_color(),
        },
    );

    world.scores.push(
        ScoreDisplay {
            score: Score { value: 0, side: Side::Left },
            text: u32_to_decimal(0),
            color: white_color(),
            celebration: None,
        },
    );
    world.scores.push(
        ScoreDisplay {
            score: Score { value: 0, side: Side::Right },
            text: u32_to_decimal(0),
            color: white_color(),
            celebration: None,
        },
    );

    proof {
        assert(world@.paddles =~= setup_spec(old(world)@, half_w, half_h).paddles);
        assert(world@.balls =~= setup_spec(old(world)@, half_w, half_h).balls);
        assert(world@.scores =~~= setup_spec(old(world)@, half_w, half_h).scores);
    }

    let step = BORDER_DASH_LENGTH + BORDER_DASH_SPACING;
    let num_dashes = (3 * half_h + step - 1) / step;
    proof {
        assert(step * num_dashes <= 3 * half_h + step - 1) by {
            vstd::arithmetic::div_mod::lemma_fundamental_div_mod(
                3 * half_h + step - 1,
                step as int,
            );
        }
    }
    let top = (3 * half_h) / 2;
    let mut i: i64 = 0;
    while i < num_dashes
        invariant
            0 <= i <= num_dashes,
            step * num_dashes <= 3 * half_h + step - 1,
            step == BORDER_DASH_LENGTH + BORDER_DASH_SPACING,
            num_dashes == border_dash_count(half_h),
            top == (3 * half_h) / 2,
            0 <= half_h <= HALF_EXTENT_LIMIT,
            world@.borders == old(world)@.borders + Seq::new(
                i as nat,
                |j: int| border_dash(half_h, j),
            ),
            world@.paddles == setup_spec(old(world)@, half_w, half_h).paddles,
            world@.balls == setup_spec(old(world)@, half_w, half_h).balls,
            world@.scores == setup_spec(old(world)@, half_w, half_h).scores,
            world@.messages == old(world)@.messages,
            world@.particles == old(world)@.particles,
        decreases num_dashes - i,
    {
        world.borders.push(Border { x: 0, y: top - step * i });
        proof {
            assert(Seq::new((i + 1) as nat, |j: int| border_dash(half_h, j)) =~= Seq::new(
                i as nat,
                |j: int| border_dash(half_h, j),
            ).push(border_dash(half_h, i as int)));
        }
        i = i + 1;
    }

    proof {
        assert(world@ =~~= setup_spec(old(world)@, half_w, half_h));
    }
}

} // verus!
