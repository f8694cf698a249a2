//! End-to-end checks of the simulation systems on concrete matches.

use pong::color::{frenzy_ball_color, normal_ball_color, white_color};
use pong::input::{KeyboardState, TouchEvent, TouchPhase};
use pong::setup::setup_game;
use pong::systems::{
    apply_paddle_hit, check_new_goal, game_over, move_ball, move_paddles_with_keyboard,
    move_paddles_with_touch, restart_game,
};
use pong::world::{Ball, GameWorld, HitStreak, Paddle, Side, Velocity};
use pong::get_window_dimensions;

fn fresh_world(half_w: i64, half_h: i64) -> GameWorld {
    let mut world = GameWorld::new();
    setup_game(&mut world, half_w, half_h);
    world
}

#[test]
fn window_dimensions_are_halved() {
    assert_eq!(get_window_dimensions(800, 600), (400, 300));
    assert_eq!(get_window_dimensions(801, 601), (400, 300));
    assert_eq!(get_window_dimensions(0, 0), (0, 0));
}

#[test]
fn setup_spawns_the_whole_match() {
    let world = fresh_world(400, 300);
    assert_eq!(world.paddles.len(), 2);
    assert_eq!(world.paddles[0].side, Side::Left);
    assert_eq!(world.paddles[0].x, -350);
    assert_eq!(world.paddles[0].y, 0);
    assert_eq!(world.paddles[1].side, Side::Right);
    assert_eq!(world.paddles[1].x, 350);
    assert_eq!(world.balls.len(), 1);
    assert_eq!(world.balls[0].x, 0);
    assert_eq!(world.balls[0].y, 0);
    assert_eq!(world.balls[0].velocity.x, 200);
    assert_eq!(world.balls[0].velocity.y, 150);
    assert_eq!(world.balls[0].hit_streak.count, 0);
    assert_eq!(world.scores.len(), 2);
    assert_eq!(world.scores[0].score.value, 0);
    assert_eq!(world.scores[0].text, "0");
    assert_eq!(world.scores[1].score.value, 0);
    assert_eq!(world.scores[1].text, "0");
    // ceil(3 * 300 / 10) dashes, from 450 downward in steps of 10
    assert_eq!(world.borders.len(), 90);
    assert_eq!(world.borders[0].y, 450);
    assert_eq!(world.borders[1].y, 440);
    assert!(world.messages.is_empty());
    assert!(world.particles.is_empty());
}

#[test]
fn keyboard_moves_and_clamps_paddles() {
    let mut paddles = vec![
        Paddle { side: Side::Left, x: 0, y: 0 },
        Paddle { side: Side::Right, x: 0, y: 240 },
    ];
    let keys = KeyboardState { left_up: true, left_down: false, right_up: true, right_down: false };
    // step = 300 * 3 / 100 = 9; clamp band is +-(300 - 50) = +-250
    move_paddles_with_keyboard(&mut paddles, &keys, 400, 300);
    assert_eq!(paddles[0].y, 9);
    assert_eq!(paddles[0].x, -350);
    assert_eq!(paddles[1].y, 249);
    assert_eq!(paddles[1].x, 350);
    move_paddles_with_keyboard(&mut paddles, &keys, 400, 300);
    assert_eq!(paddles[1].y, 250); // clamped at the band edge

    // both keys held cancel out; a lone down key moves down
    let both = KeyboardState { left_up: true, left_down: true, right_up: false, right_down: true };
    move_paddles_with_keyboard(&mut paddles, &both, 400, 300);
    assert_eq!(paddles[0].y, 18);
    assert_eq!(paddles[1].y, 241);
}

#[test]
fn touch_drags_the_matching_paddle() {
    let mut paddles = vec![
        Paddle { side: Side::Left, x: -350, y: 0 },
        Paddle { side: Side::Right, x: 350, y: 0 },
    ];
    // screen (100, 50) is the left half; world y = 300 - 50 = 250
    let events = vec![
        TouchEvent { x: 100, y: 50, phase: TouchPhase::Moved },
        TouchEvent { x: 700, y: 580, phase: TouchPhase::Moved },
        TouchEvent { x: 700, y: 0, phase: TouchPhase::Started },
    ];
    move_paddles_with_touch(&mut paddles, &events, 800, 600);
    assert_eq!(paddles[0].y, 250);
    // 300 - 580 = -280, clamped to -250; the Started event changes nothing
    assert_eq!(paddles[1].y, -250);
}

#[test]
fn wall_bounce_reflects_resets_and_sparks() {
    let mut balls = vec![Ball {
        x: 0,
        y: 290,
        velocity: Velocity { x: 0, y: 100 },
        hit_streak: HitStreak { count: 2 },
        color: frenzy_ball_color(),
    }];
    let paddles = vec![];
    // dt 100 ms at 100 units/s moves the ball 10 up: past 295
    let requests = move_ball(&mut balls, &paddles, 100, 300);
    assert_eq!(balls[0].y, 295);
    assert_eq!(balls[0].velocity.y, -100);
    assert_eq!(balls[0].hit_streak.count, 0);
    assert_eq!(balls[0].color, normal_ball_color());
    assert_eq!(requests.len(), 1);
    assert_eq!(requests[0].count, 5);
    assert_eq!(requests[0].base_lifetime_ms, 300);
    assert_eq!(requests[0].x, 0);
    assert_eq!(requests[0].y, 295);
}

#[test]
fn ball_crossing_the_right_goal_scores_for_left() {
    // Scenario: ball at the centre moving right at 200/s, half-width 400.
    let mut world = fresh_world(400, 300);
    world.paddles.clear(); // nothing in the ball's way
    world.balls[0].velocity = Velocity { x: 200, y: 0 };

    let mut goals = 0;
    for _ in 0..60 {
        move_ball(&mut world.balls, &world.paddles, 100, 300);
        let before = world.scores[0].score.value;
        check_new_goal(&mut world.balls, &mut world.scores, 400, 300);
        if world.scores[0].score.value > before {
            goals += 1;
            break;
        }
    }
    assert_eq!(goals, 1);
    assert_eq!(world.scores[0].score.value, 1);
    assert_eq!(world.scores[0].score.side, Side::Left);
    assert_eq!(world.scores[0].text, "1");
    assert!(world.scores[0].celebration.is_some());
    assert_eq!(world.scores[1].score.value, 0);
    // the ball is re-served from the centre toward the conceding side:
    // Left scored, so the serve goes right, at a quarter window per second
    assert_eq!(world.balls[0].x, 0);
    assert_eq!(world.balls[0].y, 0);
    assert!(world.balls[0].velocity.x > 0);
    assert_eq!(world.balls[0].velocity.x, 200);
    assert!(world.balls[0].velocity.y >= -75 && world.balls[0].velocity.y <= 75);
    assert_eq!(world.balls[0].hit_streak.count, 0);
    assert_eq!(world.balls[0].color, normal_ball_color());
}

#[test]
fn center_hit_halves_vertical_speed_without_bias() {
    // Scenario: the ball strikes the right paddle at its exact centre.
    let ball = Ball {
        x: 344,
        y: 0,
        velocity: Velocity { x: 200, y: 100 },
        hit_streak: HitStreak { count: 0 },
        color: normal_ball_color(),
    };
    let paddle = Paddle { side: Side::Right, x: 350, y: 0 };
    let hit = apply_paddle_hit(ball, &paddle);
    assert_eq!(hit.velocity.y, 50); // old 100 * 0.5, no deflection at offset 0
    assert_eq!(hit.velocity.x, -220); // reflected and scaled by 11/10
    assert_eq!(hit.x, 340); // flush against the paddle face
    assert_eq!(hit.hit_streak.count, 1);

    // the same hit resolved through the full ball tick
    let mut balls = vec![ball];
    let paddles = vec![paddle];
    let requests = move_ball(&mut balls, &paddles, 0, 300);
    assert_eq!(balls[0], hit);
    assert_eq!(requests.len(), 1);
    assert_eq!(requests[0].count, 7);
    assert_eq!(requests[0].base_lifetime_ms, 400);
}

#[test]
fn third_consecutive_hit_triggers_frenzy() {
    // Scenario: three paddle hits with no wall bounce or goal between.
    let right = Paddle { side: Side::Right, x: 350, y: 0 };
    let left = Paddle { side: Side::Left, x: -350, y: 0 };

    let b0 = Ball {
        x: 344,
        y: 0,
        velocity: Velocity { x: 200, y: 0 },
        hit_streak: HitStreak { count: 0 },
        color: normal_ball_color(),
    };
    let r1 = apply_paddle_hit(b0, &right);
    assert_eq!(r1.hit_streak.count, 1);
    assert_eq!(r1.velocity.x, -220);
    assert_eq!(r1.color, normal_ball_color());

    let b1 = Ball { x: -344, y: 0, ..r1 };
    let r2 = apply_paddle_hit(b1, &left);
    assert_eq!(r2.hit_streak.count, 2);
    assert_eq!(r2.velocity.x, 242);
    assert_eq!(r2.color, normal_ball_color());

    let b2 = Ball { x: 344, y: 0, ..r2 };
    let r3 = apply_paddle_hit(b2, &right);
    // the third hit reflects to -266, then the frenzy boost scales by 3/2
    assert_eq!(r3.velocity.x, -399);
    assert_eq!(r3.hit_streak.count, 0);
    assert_eq!(r3.color, frenzy_ball_color());
}

#[test]
fn off_center_hit_deflects_toward_the_offset() {
    // striking 25 units below the paddle centre steers the ball downward:
    // vy = 100/2 - ((0 - (-25)) * 600 / 50) = 50 - 300 = -250
    let ball = Ball {
        x: 344,
        y: -25,
        velocity: Velocity { x: 200, y: 100 },
        hit_streak: HitStreak { count: 0 },
        color: normal_ball_color(),
    };
    let paddle = Paddle { side: Side::Right, x: 350, y: 0 };
    let hit = apply_paddle_hit(ball, &paddle);
    assert_eq!(hit.velocity.y, -250);
    assert_eq!(hit.y, -25); // the hit never moves the ball vertically

    // an extreme offset is clamped at the vertical speed cap
    let edge = Ball { y: 54, velocity: Velocity { x: 200, y: -790 }, ..ball };
    let hit = apply_paddle_hit(edge, &paddle);
    // -790/2 - ((0 - 54) * 12) = -395 + 648 = 253
    assert_eq!(hit.velocity.y, 253);
    assert!(hit.velocity.y.abs() <= 800);
}

#[test]
fn right_scorer_serves_left() {
    let mut world = fresh_world(400, 300);
    world.paddles.clear();
    world.balls[0].x = -451; // past the left goal line
    world.balls[0].velocity = Velocity { x: -200, y: 0 };
    check_new_goal(&mut world.balls, &mut world.scores, 400, 300);
    assert_eq!(world.scores[1].score.value, 1);
    assert_eq!(world.scores[1].score.side, Side::Right);
    assert_eq!(world.scores[1].text, "1");
    assert_eq!(world.scores[0].score.value, 0);
    assert_eq!(world.balls[0].velocity.x, -200); // served toward the left player
}

#[test]
fn ball_in_play_is_left_alone_by_the_goal_check() {
    let mut world = fresh_world(400, 300);
    let before = world.balls[0];
    check_new_goal(&mut world.balls, &mut world.scores, 400, 300);
    assert_eq!(world.balls[0], before);
    assert_eq!(world.scores[0].score.value, 0);
    assert_eq!(world.scores[1].score.value, 0);
    assert!(world.scores[0].celebration.is_none());
}

#[test]
fn hit_after_frenzy_reverts_to_normal_tint() {
    let right = Paddle { side: Side::Right, x: 350, y: 0 };
    let ball = Ball {
        x: 344,
        y: 0,
        velocity: Velocity { x: 200, y: 0 },
        hit_streak: HitStreak { count: 0 },
        color: frenzy_ball_color(), // stale frenzy tint from an earlier rally
    };
    let hit = apply_paddle_hit(ball, &right);
    assert_eq!(hit.hit_streak.count, 1);
    assert_eq!(hit.color, normal_ball_color());
}

#[test]
fn free_flight_only_integrates() {
    let mut balls = vec![Ball {
        x: 10,
        y: -20,
        velocity: Velocity { x: 300, y: -400 },
        hit_streak: HitStreak { count: 1 },
        color: normal_ball_color(),
    }];
    let paddles = vec![
        Paddle { side: Side::Left, x: -350, y: 0 },
        Paddle { side: Side::Right, x: 350, y: 0 },
    ];
    let requests = move_ball(&mut balls, &paddles, 50, 300);
    // 50 ms at (300, -400) units/s moves the ball by (15, -20)
    assert_eq!(balls[0].x, 25);
    assert_eq!(balls[0].y, -40);
    assert_eq!(balls[0].velocity, Velocity { x: 300, y: -400 });
    assert_eq!(balls[0].hit_streak.count, 1);
    assert!(requests.is_empty());
}

#[test]
fn touch_without_paddles_is_a_no_op() {
    let mut paddles: Vec<Paddle> = Vec::new();
    let events = vec![TouchEvent { x: 100, y: 50, phase: TouchPhase::Moved }];
    move_paddles_with_touch(&mut paddles, &events, 800, 600);
    assert!(paddles.is_empty());
}

#[test]
fn speed_stays_capped_under_repeated_hits() {
    let right = Paddle { side: Side::Right, x: 350, y: 0 };
    let left = Paddle { side: Side::Left, x: -350, y: 0 };
    let mut ball = Ball {
        x: 344,
        y: 0,
        velocity: Velocity { x: 790, y: 790 },
        hit_streak: HitStreak { count: 0 },
        color: normal_ball_color(),
    };
    for i in 0..20 {
        let toward_right = ball.velocity.x > 0;
        let paddle = if toward_right { &right } else { &left };
        ball.x = if toward_right { 344 } else { -344 };
        ball.y = paddle.y;
        ball = apply_paddle_hit(ball, paddle);
        assert!(ball.velocity.x.abs() <= 800, "hit {i}: vx out of cap");
        assert!(ball.velocity.y.abs() <= 800, "hit {i}: vy out of cap");
    }
}

#[test]
fn win_tears_down_and_restart_rebuilds() {
    // Scenario: a score reaches 10.
    let mut world = fresh_world(400, 300);
    world.scores[0].score.value = 10;
    world.scores[0].text = String::from("10");

    game_over(&mut world);
    assert!(world.paddles.is_empty());
    assert!(world.balls.is_empty());
    assert!(world.scores.is_empty());
    assert!(world.borders.is_empty());
    assert_eq!(world.messages.len(), 2);
    assert_eq!(world.messages[0].text, "P1 wins!");
    assert_eq!(world.messages[1].text, "Press R to restart");
    assert_eq!(world.messages[0].color, white_color());

    // running the win check again spawns no duplicate text
    game_over(&mut world);
    assert_eq!(world.messages.len(), 2);

    // the restart key rebuilds the full match
    restart_game(&mut world, true, false, 400, 300);
    assert_eq!(world.paddles.len(), 2);
    assert_eq!(world.balls.len(), 1);
    assert_eq!(world.scores.len(), 2);
    assert_eq!(world.scores[0].score.value, 0);
    assert_eq!(world.scores[0].text, "0");
    assert_eq!(world.scores[1].score.value, 0);
    assert_eq!(world.borders.len(), 90);
    assert!(world.messages.is_empty());
}

#[test]
fn right_winner_is_named_p2() {
    let mut world = fresh_world(400, 300);
    world.scores[1].score.value = 10;
    world.scores[1].text = String::from("10");
    game_over(&mut world);
    assert_eq!(world.messages[0].text, "P2 wins!");
}

#[test]
fn touch_restarts_only_after_game_over() {
    let mut world = fresh_world(400, 300);
    // touch during play does nothing
    restart_game(&mut world, false, true, 400, 300);
    assert_eq!(world.paddles.len(), 2);
    assert_eq!(world.messages.len(), 0);
    assert_eq!(world.borders.len(), 90);

    // once a score shows the winning value, touch restarts
    world.scores[1].score.value = 10;
    world.scores[1].text = String::from("10");
    restart_game(&mut world, false, true, 400, 300);
    assert_eq!(world.scores[0].score.value, 0);
    assert_eq!(world.scores[1].score.value, 0);
    assert_eq!(world.paddles.len(), 2);
    assert_eq!(world.balls.len(), 1);
    assert_eq!(world.borders.len(), 90);
}

#[test]
fn game_over_without_winner_changes_nothing() {
    let mut world = fresh_world(400, 300);
    world.scores[0].score.value = 9;
    world.scores[0].text = String::from("9");
    game_over(&mut world);
    assert_eq!(world.paddles.len(), 2);
    assert_eq!(world.balls.len(), 1);
    assert_eq!(world.scores.len(), 2);
    assert_eq!(world.messages.len(), 0);
}
