//! Transient visual feedback: fading particles and score-flash timers.
//!
//! Both kinds of entity are single-shot countdowns.  A particle's alpha
//! falls linearly with its remaining life and the particle disappears on
//! expiry; a score celebration forces the display into the flash tint
//! while it runs and restores the recorded color when it elapses.

use vstd::prelude::*;

use crate::color::{celebration_text_color, celebration_text_color_spec, ColorMilli, CHANNEL_FULL};
use crate::math::abs_spec;
use crate::rng::sample_inclusive;
use crate::timer::CountdownTimer;
use crate::world::{Particle, ParticleRequest, ScoreCelebration, ScoreDisplay, ScoreDisplayView};

verus! {

/// How long a score display flashes after a goal, in milliseconds.
pub const CELEBRATION_DURATION_MS: u64 = 500;

/// Floor on a spawned particle's lifetime, so none is zero-length.
pub const PARTICLE_MIN_LIFETIME_MS: u64 = 100;

/// Per-particle lifetime jitter: up to a tenth of the base lifetime,
/// either way, drawn uniformly.
pub const LIFETIME_JITTER_DIVISOR: u64 = 10;

/// Bound on a particle lifetime, far above any burst's base lifetime;
/// it only keeps the alpha arithmetic inside `u64`.
pub const PARTICLE_DURATION_LIMIT_MS: u64 = 1_000_000_000_000;

/// A particle advanced by `dt_ms` without expiring: its countdown has
/// ticked and its alpha is the remaining-life fraction, in thousandths.
pub open spec fn particle_tick(p: Particle, dt_ms: u64) -> Particle {
    let t = p.lifetime.tick_spec(dt_ms);
    Particle {
        x: p.x,
        y: p.y,
        color: p.color.with_alpha_spec(
            CHANNEL_FULL * (t.duration_ms - t.elapsed_ms) / t.duration_ms as int,
        ),
        lifetime: t,
    }
}

/// All particles advanced by `dt_ms`, the expired ones removed, the order
/// of the survivors kept.
pub open spec fn particles_step(ps: Seq<Particle>, dt_ms: u64) -> Seq<Particle>
    decreases ps.len(),
{
    if ps.len() == 0 {
        Seq::empty()
    } else {
        let rest = particles_step(ps.drop_last(), dt_ms);
        if ps.last().lifetime.expires_after_spec(dt_ms) {
            rest
        } else {
            rest.push(particle_tick(ps.last(), dt_ms))
        }
    }
}

/// Advance every particle by the frame delta: each expired particle is
/// removed, each survivor fades to the fraction of life it has left.
pub fn manage_particles(particles: &mut Vec<Particle>, dt_ms: u64)
    requires
        forall|i: int|
            0 <= i < old(particles)@.len() ==> {
                let t = (#[trigger] old(particles)@[i]).lifetime;
                t.elapsed_ms <= t.duration_ms <= PARTICLE_DURATION_LIMIT_MS
            },
    ensures
        final(particles)@ == particles_step(old(particles)@, dt_ms),
{
    let mut kept: Vec<Particle> = Vec::new();
    let mut i: usize = 0;
    while i < particles.len()
        invariant
            0 <= i <= particles@.len(),
            particles@ == old(particles)@,
            forall|k: int|
                0 <= k < particles@.len() ==> {
                    let t = (#[trigger] particles@[k]).lifetime;
                    t.elapsed_ms <= t.duration_ms <= PARTICLE_DURATION_LIMIT_MS
                },
            kept@ == particles_step(particles@.subrange(0, i as int), dt_ms),
        decreases particles@.len() - i,
    {
        proof {
            assert(particles@.subrange(0, i as int + 1).drop_last() =~= particles@.subrange(
                0,
                i as int,
            ));
            assert(particles@.subrange(0, i as int + 1).last() == particles@[i as int]);
        }
        let mut p = particles[i];
        proof {
            assert(p.lifetime.elapsed_ms <= p.lifetime.duration_ms <= PARTICLE_DURATION_LIMIT_MS);
        }
        let expired = p.lifetime.tick(dt_ms);
        if !expired {
            let remaining = p.lifetime.duration_ms - p.lifetime.elapsed_ms;
            proof {
                assert(p.lifetime.duration_ms <= PARTICLE_DURATION_LIMIT_MS);
                assert(remaining <= PARTICLE_DURATION_LIMIT_MS);
                assert((CHANNEL_FULL as u64) * remaining <= 1000 * PARTICLE_DURATION_LIMIT_MS)
                    by (nonlinear_arith)
                    requires
                        remaining <= PARTICLE_DURATION_LIMIT_MS,
                ;
            }
            let alpha = (CHANNEL_FULL as u64) * remaining / p.lifetime.duration_ms;
            p = Particle {
                x: p.x,
                y: p.y,
                color: p.color.with_alpha(alpha as i64),
                lifetime: p.lifetime,
            };
            kept.push(p);
        }
        i = i + 1;
    }
    proof {
        assert(particles@.subrange(0, particles@.len() as int) =~= particles@);
    }
    *particles = kept;
}

/// A burst of `count` particles at `(x, y)` in `color`, each living for
/// the base lifetime jittered by up to a tenth either way (uniformly at
/// random) and floored at [`PARTICLE_MIN_LIFETIME_MS`].
pub fn spawn_particle_burst(
    particles: &mut Vec<Particle>,
    x: i64,
    y: i64,
    color: ColorMilli,
    count: u32,
    base_lifetime_ms: u64,
)
    requires
        base_lifetime_ms <= PARTICLE_DURATION_LIMIT_MS / 2,
    ensures
        final(particles)@.len() == old(particles)@.len() + count,
        forall|i: int|
            0 <= i < old(particles)@.len() ==> #[trigger] final(particles)@[i] == old(
                particles,
            )@[i],
        forall|i: int|
            old(particles)@.len() <= i < final(particles)@.len() ==> {
                let p = #[trigger] final(particles)@[i];
                &&& p.x == x
                &&& p.y == y
                &&& p.color == color
                &&& p.lifetime.elapsed_ms == 0
                &&& vstd::math::max(
                    base_lifetime_ms - base_lifetime_ms / LIFETIME_JITTER_DIVISOR,
                    PARTICLE_MIN_LIFETIME_MS as int,
                ) <= p.lifetime.duration_ms <= vstd::math::max(
                    base_lifetime_ms + base_lifetime_ms / LIFETIME_JITTER_DIVISOR,
                    PARTICLE_MIN_LIFETIME_MS as int,
                )
            },
{
    let jitter_limit = base_lifetime_ms / LIFETIME_JITTER_DIVISOR;
    let mut n: u32 = 0;
    while n < count
        invariant
            0 <= n <= count,
            jitter_limit == base_lifetime_ms / LIFETIME_JITTER_DIVISOR,
            base_lifetime_ms <= PARTICLE_DURATION_LIMIT_MS / 2,
            jitter_limit <= base_lifetime_ms,
            particles@.len() == old(particles)@.len() + n,
            forall|i: int|
                0 <= i < old(particles)@.len() ==> #[trigger] particles@[i] == old(particles)@[i],
            forall|i: int|
                old(particles)@.len() <= i < particles@.len() ==> {
                    let p = #[trigger] particles@[i];
                    &&& p.x == x
                    &&& p.y == y
                    &&& p.color == color
                    &&& p.lifetime.elapsed_ms == 0
                    &&& vstd::math::max(
                        base_lifetime_ms - base_lifetime_ms / LIFETIME_JITTER_DIVISOR,
                        PARTICLE_MIN_LIFETIME_MS as int,
                    ) <= p.lifetime.duration_ms <= vstd::math::max(
                        base_lifetime_ms + base_lifetime_ms / LIFETIME_JITTER_DIVISOR,
                        PARTICLE_MIN_LIFETIME_MS as int,
                    )
                },
        decreases count - n,
    {
        let jitter = sample_inclusive(-(jitter_limit as i64), jitter_limit as i64);
        let jittered = (base_lifetime_ms as i64) + jitter;
        let lifetime_ms = if jittered < PARTICLE_MIN_LIFETIME_MS as i64 {
            PARTICLE_MIN_LIFETIME_MS
        } else {
            jittered as u64
        };
        particles.push(
            Particle { x, y, color, lifetime: CountdownTimer::new(lifetime_ms) },
        );
        n = n + 1;
    }
}

/// A score display advanced by `dt_ms`: no celebration leaves it alone; a
/// running one forces the flash tint; one that just elapsed restores the
/// recorded color and removes itself.
pub open spec fn celebration_step(s: ScoreDisplayView, dt_ms: u64) -> ScoreDisplayView {
    match s.celebration {
        None => s,
        Some(c) => {
            if c.timer.expires_after_spec(dt_ms) {
                ScoreDisplayView { color: c.original_color, celebration: None, ..s }
            } else {
                ScoreDisplayView {
                    color: celebration_text_color_spec(),
                    celebration: Some(
                        ScoreCelebration {
                            timer: c.timer.tick_spec(dt_ms),
                            original_color: c.original_color,
                            scored_side: c.scored_side,
                        },
                    ),
                    ..s
                }
            }
        },
    }
}

/// A celebration tick never touches the value or the text, so it keeps
/// every score display well formed.
pub proof fn lemma_celebration_keeps_wf(s: ScoreDisplayView, dt_ms: u64)
    requires
        crate::world::score_display_wf(s),
    ensures
        crate::world::score_display_wf(celebration_step(s, dt_ms)),
{
}

/// Advance every score celebration by the frame delta: elapsed flashes
/// restore their recorded color and disappear; running ones keep the
/// display in the flash tint.  Values and texts are untouched.
pub fn manage_score_celebration(scores: &mut Vec<ScoreDisplay>, dt_ms: u64)
    requires
        forall|i: int|
            0 <= i < old(scores)@.len() ==> match (#[trigger] old(scores)@[i]).celebration {
                Some(c) => c.timer.elapsed_ms <= c.timer.duration_ms,
                None => true,
            },
    ensures
        final(scores)@.len() == old(scores)@.len(),
        forall|i: int|
            0 <= i < old(scores)@.len() ==> #[trigger] final(scores)@[i]@ == celebration_step(
                old(scores)@[i]@,
                dt_ms,
            ),
{
    let mut i: usize = 0;
    while i < scores.len()
        invariant
            0 <= i <= scores@.len(),
            scores@.len() == old(scores)@.len(),
            forall|k: int|
                0 <= k < old(scores)@.len() ==> match (#[trigger] old(scores)@[k]).celebration {
                    Some(c) => c.timer.elapsed_ms <= c.timer.duration_ms,
                    None => true,
                },
            forall|k: int| i <= k < scores@.len() ==> #[trigger] scores@[k] == old(scores)@[k],
            forall|k: int|
                0 <= k < i ==> #[trigger] scores@[k]@ == celebration_step(old(scores)@[k]@, dt_ms),
        decreases scores@.len() - i,
    {
        let has_celebration = scores[i].celebration.is_some();
        if has_celebration {
            let entry = &scores[i];
            let score = entry.score;
            let text = entry.text.clone();
            let color = entry.color;
            let celebration = entry.celebration;
            match celebration {
                Some(c) => {
                    let mut timer = c.timer;
                    let expired = timer.tick(dt_ms);
                    if expired {
                        scores.set(
                            i,
                            ScoreDisplay {
                                score,
                                text,
                                color: c.original_color,
                                celebration: None,
                            },
                        );
                    } else {
                        scores.set(
                            i,
                            ScoreDisplay {
                                score,
                                text,
                                color: celebration_text_color(),
                                celebration: Some(
                                    ScoreCelebration {
                                        timer,
                                        original_color: c.original_color,
                                        scored_side: c.scored_side,
                                    },
                                ),
                            },
                        );
                    }
                },
                None => {},
            }
        }
        i = i + 1;
    }
}

} // verus!
