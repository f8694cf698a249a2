//! Display colors, held as plain integers.
//!
//! Each channel is stored in thousandths: `1000` is full intensity, `0`
//! none.  Only a handful of fixed tints matter to the simulation — the
//! ball's normal and frenzy tints, the particle and celebration colors —
//! plus an alpha channel that particle fade-out writes each tick.

use vstd::prelude::*;

verus! {

/// Full intensity of one color channel, in thousandths.
pub const CHANNEL_FULL: i64 = 1000;

/// An RGBA color with channels in thousandths.
#[derive(Clone, Copy, PartialEq, Eq, Structural, Debug)]
pub struct ColorMilli {
    pub red: i64,
    pub green: i64,
    pub blue: i64,
    pub alpha: i64,
}

impl ColorMilli {
    /// An opaque color from three channels in thousandths.
    pub fn rgb(red: i64, green: i64, blue: i64) -> (c: ColorMilli)
        ensures
            c == (ColorMilli { red, green, blue, alpha: CHANNEL_FULL as i64 }),
    {
        ColorMilli { red, green, blue, alpha: CHANNEL_FULL }
    }

    /// The same color with the alpha channel replaced.
    pub open spec fn with_alpha_spec(self, alpha: int) -> ColorMilli {
        ColorMilli { alpha: alpha as i64, ..self }
    }

    /// Replace the alpha channel.
    pub fn with_alpha(self, alpha: i64) -> (c: ColorMilli)
        ensures
            c == self.with_alpha_spec(alpha as int),
    {
        ColorMilli { alpha, ..self }
    }
}

/// The ball's everyday tint: electric yellow.
pub open spec fn normal_ball_color_spec() -> ColorMilli {
    ColorMilli { red: 1000, green: 1000, blue: 0, alpha: 1000 }
}

/// The ball's everyday tint.
pub fn normal_ball_color() -> (c: ColorMilli)
    ensures
        c == normal_ball_color_spec(),
{
    ColorMilli { red: 1000, green: 1000, blue: 0, alpha: 1000 }
}

/// The ball's frenzy tint: bright white.
pub open spec fn frenzy_ball_color_spec() -> ColorMilli {
    ColorMilli { red: 1000, green: 1000, blue: 1000, alpha: 1000 }
}

/// The ball's frenzy tint.
pub fn frenzy_ball_color() -> (c: ColorMilli)
    ensures
        c == frenzy_ball_color_spec(),
{
    ColorMilli { red: 1000, green: 1000, blue: 1000, alpha: 1000 }
}

/// Plain white, used for paddles, scores and end-of-match text.
pub open spec fn white_color_spec() -> ColorMilli {
    ColorMilli { red: 1000, green: 1000, blue: 1000, alpha: 1000 }
}

/// Plain white.
pub fn white_color() -> (c: ColorMilli)
    ensures
        c == white_color_spec(),
{
    ColorMilli { red: 1000, green: 1000, blue: 1000, alpha: 1000 }
}

/// The gray sparks a wall bounce throws off.
pub open spec fn wall_spark_color_spec() -> ColorMilli {
    ColorMilli { red: 700, green: 700, blue: 700, alpha: 1000 }
}

/// The gray sparks a wall bounce throws off.
pub fn wall_spark_color() -> (c: ColorMilli)
    ensures
        c == wall_spark_color_spec(),
{
    ColorMilli { red: 700, green: 700, blue: 700, alpha: 1000 }
}

/// The tint a score display flashes while its celebration runs.
pub open spec fn celebration_text_color_spec() -> ColorMilli {
    ColorMilli { red: 1000, green: 1000, blue: 1000, alpha: 1000 }
}

/// The tint a score display flashes while its celebration runs.
pub fn celebration_text_color() -> (c: ColorMilli)
    ensures
        c == celebration_text_color_spec(),
{
    ColorMilli { red: 1000, green: 1000, blue: 1000, alpha: 1000 }
}

} // verus!
