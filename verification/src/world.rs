//! The match state: one plain struct per entity kind, gathered in an arena.
//!
//! Positions are world units with the origin at the playfield centre, the
//! y axis pointing up.  Velocities are world units per second.  Each
//! transient entity (particle, score celebration) carries its own
//! countdown; everything else lives from match setup to teardown.

use vstd::prelude::*;

use crate::color::ColorMilli;
use crate::text::{decimal_digits, parse_decimal_spec};
use crate::timer::CountdownTimer;

verus! {

/// Which player an entity belongs to.
#[derive(Clone, Copy, PartialEq, Eq, Structural, Debug)]
pub enum Side {
    Left,
    Right,
}

/// A player's paddle: its side and the centre of its sprite.
#[derive(Clone, Copy, PartialEq, Eq, Structural, Debug)]
pub struct Paddle {
    pub side: Side,
    pub x: i64,
    pub y: i64,
}

/// A 2D velocity in world units per second.
#[derive(Clone, Copy, PartialEq, Eq, Structural, Debug)]
pub struct Velocity {
    pub x: i64,
    pub y: i64,
}

/// Consecutive paddle hits since the last reset (wall bounce, frenzy
/// trigger, or goal).
#[derive(Clone, Copy, PartialEq, Eq, Structural, Debug, Default)]
pub struct HitStreak {
    pub count: u32,
}

/// The ball: position, velocity, rally streak, and display tint.
#[derive(Clone, Copy, PartialEq, Eq, Structural, Debug)]
pub struct Ball {
    pub x: i64,
    pub y: i64,
    pub velocity: Velocity,
    pub hit_streak: HitStreak,
    pub color: ColorMilli,
}

/// One player's score.
#[derive(Clone, Copy, PartialEq, Eq, Structural, Debug)]
pub struct Score {
    pub value: u32,
    pub side: Side,
}

/// The short color flash a score display wears right after a goal.
#[derive(Clone, Copy, PartialEq, Eq, Structural, Debug)]
pub struct ScoreCelebration {
    pub timer: CountdownTimer,
    pub original_color: ColorMilli,
    pub scored_side: Side,
}

/// A score together with its on-screen text, kept in sync as a decimal
/// string, and an optional running celebration flash.
#[derive(Debug)]
pub struct ScoreDisplay {
    pub score: Score,
    pub text: String,
    pub color: ColorMilli,
    pub celebration: Option<ScoreCelebration>,
}

/// One dash of the center line decoration.
#[derive(Clone, Copy, PartialEq, Eq, Structural, Debug)]
pub struct Border {
    pub x: i64,
    pub y: i64,
}

/// A free-floating text element (the end-of-match messages).
#[derive(Debug)]
pub struct TextLabel {
    pub text: String,
    pub color: ColorMilli,
}

/// A fading spark: position, tint (alpha falls as it ages), lifetime.
#[derive(Clone, Copy, PartialEq, Eq, Structural, Debug)]
pub struct Particle {
    pub x: i64,
    pub y: i64,
    pub color: ColorMilli,
    pub lifetime: CountdownTimer,
}

/// A request to spawn a burst of particles at a collision point.
#[derive(Clone, Copy, PartialEq, Eq, Structural, Debug)]
pub struct ParticleRequest {
    pub x: i64,
    pub y: i64,
    pub color: ColorMilli,
    pub count: u32,
    pub base_lifetime_ms: u64,
}

/// The spec-level value of a [`ScoreDisplay`].
#[verifier::ext_equal]
pub ghost struct ScoreDisplayView {
    pub value: u32,
    pub side: Side,
    pub text: Seq<char>,
    pub color: ColorMilli,
    pub celebration: Option<ScoreCelebration>,
}

impl View for ScoreDisplay {
    type V = ScoreDisplayView;

    open spec fn view(&self) -> ScoreDisplayView {
        ScoreDisplayView {
            value: self.score.value,
            side: self.score.side,
            text: self.text@,
            color: self.color,
            celebration: self.celebration,
        }
    }
}

/// The spec-level value of a [`TextLabel`].
#[verifier::ext_equal]
pub ghost struct TextLabelView {
    pub text: Seq<char>,
    pub color: ColorMilli,
}

impl View for TextLabel {
    type V = TextLabelView;

    open spec fn view(&self) -> TextLabelView {
        TextLabelView { text: self.text@, color: self.color }
    }
}

/// The whole match state, one list per entity kind.
#[derive(Debug)]
pub struct GameWorld {
    pub paddles: Vec<Paddle>,
    pub balls: Vec<Ball>,
    pub scores: Vec<ScoreDisplay>,
    pub borders: Vec<Border>,
    pub messages: Vec<TextLabel>,
    pub particles: Vec<Particle>,
}

/// The spec-level value of the whole match state.
#[verifier::ext_equal]
pub ghost struct WorldView {
    pub paddles: Seq<Paddle>,
    pub balls: Seq<Ball>,
    pub scores: Seq<ScoreDisplayView>,
    pub borders: Seq<Border>,
    pub messages: Seq<TextLabelView>,
    pub particles: Seq<Particle>,
}

impl View for GameWorld {
    type V = WorldView;

    open spec fn view(&self) -> WorldView {
        WorldView {
            paddles: self.paddles@,
            balls: self.balls@,
            scores: self.scores@.map_values(|s: ScoreDisplay| s@),
            borders: self.borders@,
            messages: self.messages@.map_values(|t: TextLabel| t@),
            particles: self.particles@,
        }
    }
}

impl GameWorld {
    /// An empty world, before any match has been set up.
    pub fn new() -> (w: GameWorld)
        ensures
            w@.paddles.len() == 0,
            w@.balls.len() == 0,
            w@.scores.len() == 0,
            w@.borders.len() == 0,
            w@.messages.len() == 0,
            w@.particles.len() == 0,
    {
        GameWorld {
            paddles: Vec::new(),
            balls: Vec::new(),
            scores: Vec::new(),
            borders: Vec::new(),
            messages: Vec::new(),
            particles: Vec::new(),
        }
    }
}

/// A score display is well formed when its text is exactly the decimal
/// rendering of its value — so parsing the text gives the value back.
pub open spec fn score_display_wf(s: ScoreDisplayView) -> bool {
    s.text == decimal_digits(s.value as int)
}

/// Every score display of the world shows its own value.
pub open spec fn scores_wf(scores: Seq<ScoreDisplayView>) -> bool {
    forall|i: int| 0 <= i < scores.len() ==> score_display_wf(#[trigger] scores[i])
}

/// A well-formed score display round-trips: the number parsed back from
/// its shown text is exactly the score value.
pub proof fn lemma_score_display_round_trip(s: ScoreDisplayView)
    requires
        score_display_wf(s),
    ensures
        parse_decimal_spec(s.text) == Some(s.value as int),
{
    crate::text::lemma_decimal_round_trip(s.value as int);
}

} // verus!
