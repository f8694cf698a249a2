//! Checks of the transient effects: particle fade-out and score flashes.

use pong::color::{celebration_text_color, white_color, ColorMilli};
use pong::effects_system::{manage_particles, manage_score_celebration, spawn_particle_burst};
use pong::setup::setup_game;
use pong::systems::check_new_goal;
use pong::world::{GameWorld, Particle, Velocity};

#[test]
fn burst_spawns_count_particles_with_jittered_lifetimes() {
    let mut particles: Vec<Particle> = Vec::new();
    let color = ColorMilli { red: 700, green: 700, blue: 700, alpha: 1000 };
    spawn_particle_burst(&mut particles, 5, -3, color, 7, 400);
    assert_eq!(particles.len(), 7);
    for p in &particles {
        assert_eq!(p.x, 5);
        assert_eq!(p.y, -3);
        assert_eq!(p.color, color);
        assert_eq!(p.lifetime.elapsed_ms, 0);
        // base 400 ms, jittered by up to a tenth either way
        assert!(p.lifetime.duration_ms >= 360 && p.lifetime.duration_ms <= 440);
    }
}

#[test]
fn tiny_base_lifetime_is_floored() {
    let mut particles: Vec<Particle> = Vec::new();
    let color = ColorMilli { red: 0, green: 0, blue: 0, alpha: 1000 };
    spawn_particle_burst(&mut particles, 0, 0, color, 20, 100);
    for p in &particles {
        assert!(p.lifetime.duration_ms >= 100 && p.lifetime.duration_ms <= 110);
    }
}

#[test]
fn particle_fades_to_half_and_expires() {
    // Scenario: a particle spawned with base lifetime 0.3 s.
    let mut particles: Vec<Particle> = Vec::new();
    let color = ColorMilli { red: 1000, green: 1000, blue: 1000, alpha: 1000 };
    spawn_particle_burst(&mut particles, 0, 0, color, 1, 300);
    let total = particles[0].lifetime.duration_ms;
    assert!(total >= 270 && total <= 330);

    // at 150 ms it is still present, with alpha about a half
    manage_particles(&mut particles, 150);
    assert_eq!(particles.len(), 1);
    let alpha = particles[0].color.alpha;
    let expected = 1000 * (total as i64 - 150) / total as i64;
    assert_eq!(alpha, expected);
    assert!(alpha >= 444 && alpha <= 546);
    assert_eq!(particles[0].color.red, 1000); // fade touches only alpha

    // past the jittered total lifetime it is gone
    manage_particles(&mut particles, 400);
    assert!(particles.is_empty());
}

#[test]
fn mixed_particles_expire_independently() {
    let short = Particle {
        x: 0,
        y: 0,
        color: ColorMilli { red: 0, green: 0, blue: 0, alpha: 1000 },
        lifetime: pong::timer::CountdownTimer::new(100),
    };
    let long = Particle {
        x: 1,
        y: 1,
        color: ColorMilli { red: 0, green: 0, blue: 0, alpha: 1000 },
        lifetime: pong::timer::CountdownTimer::new(1000),
    };
    let mut particles = vec![short, long];
    manage_particles(&mut particles, 200);
    assert_eq!(particles.len(), 1);
    assert_eq!(particles[0].x, 1);
    assert_eq!(particles[0].color.alpha, 800);
}

#[test]
fn celebration_flashes_then_restores_color() {
    let mut world = GameWorld::new();
    setup_game(&mut world, 400, 300);
    world.paddles.clear();
    world.balls[0].velocity = Velocity { x: 400, y: 0 };
    world.balls[0].x = 500; // already past the goal line

    check_new_goal(&mut world.balls, &mut world.scores, 400, 300);
    let c = world.scores[0].celebration.expect("goal attaches a celebration");
    assert_eq!(c.timer.duration_ms, 500);
    assert_eq!(c.original_color, white_color());

    // while the flash runs, the display wears the celebration tint
    manage_score_celebration(&mut world.scores, 200);
    assert_eq!(world.scores[0].color, celebration_text_color());
    assert!(world.scores[0].celebration.is_some());
    assert_eq!(world.scores[0].text, "1"); // value and text untouched

    // on expiry the recorded color comes back and the marker is removed
    manage_score_celebration(&mut world.scores, 300);
    assert_eq!(world.scores[0].color, white_color());
    assert!(world.scores[0].celebration.is_none());

    // a later tick with no celebration changes nothing
    manage_score_celebration(&mut world.scores, 100);
    assert_eq!(world.scores[0].color, white_color());
}
