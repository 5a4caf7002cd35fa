use space_invaders::game::GameState;
use space_invaders::world::{Blast, Bullet, Controls, EnemyKind, Particle, Rgb, Screen, Spark};

fn screen() -> Screen {
    Screen { width: 800_000, height: 600_000 }
}

fn idle() -> Controls {
    Controls { left: false, right: false, fire: false }
}

/// `batches` batches of ten sparks each.
fn sparks(batches: usize) -> Vec<Spark> {
    let mut v = Vec::new();
    for _ in 0..batches {
        for i in 0..10i64 {
            v.push(Spark { vx: 100_000 - i * 10_000, vy: i * 5_000, dr: -200 + i * 40, dg: 0, db: 200, lifetime: 500_000 + i * 100_000 });
        }
    }
    v
}

fn player_bullet(x: i64, y: i64) -> Bullet {
    Bullet { x, y, w: 4_000, h: 10_000, vy: -500_000, from_player: true }
}

fn enemy_bullet(x: i64, y: i64) -> Bullet {
    Bullet { x, y, w: 4_000, h: 10_000, vy: 200_000, from_player: false }
}

#[test]
fn fresh_game() {
    let s = GameState::new();
    assert_eq!(s.wave, 1);
    assert_eq!(s.lives, 3);
    assert_eq!(s.score, 0);
    assert!(!s.game_over);
    assert_eq!(s.enemies.len(), 50);
    assert!(s.enemies.iter().all(|e| e.alive));
    assert_eq!(s.player.x, 400_000);
    assert_eq!(s.player.y, 550_000);
    assert_eq!(s.enemies[0].kind, EnemyKind::Strong);
    assert_eq!(s.enemies[19].kind, EnemyKind::Strong);
    assert_eq!(s.enemies[20].kind, EnemyKind::Fast);
    assert_eq!(s.enemies[39].kind, EnemyKind::Fast);
    assert_eq!(s.enemies[40].kind, EnemyKind::Basic);
    assert_eq!((s.enemies[13].x, s.enemies[13].y), (50_000 + 3 * 70_000, 50_000 + 50_000));
    assert_eq!(s.enemies[0].speed, 60_000);
}

#[test]
fn player_hit_on_strong_enemy() {
    let mut s = GameState::new();
    s.bullets.push(player_bullet(60_000, 60_000));
    s.check_collisions(&sparks(1));
    assert!(!s.enemies[0].alive);
    assert_eq!(s.enemies.iter().filter(|e| !e.alive).count(), 1);
    assert_eq!(s.score, 30);
    assert!(s.bullets.is_empty());
    assert_eq!(s.lives, 3);
    assert_eq!(s.particles.len(), 10);
    assert!(s.particles.iter().all(|p| p.x == 70_000 && p.y == 65_000 && p.max_lifetime == 1_000_000));
    assert_eq!(s.particles[0].color, Rgb { r: 700, g: 160, b: 420 });
    assert_eq!(s.particles[3].vx, 70_000);
    assert_eq!(s.particles[3].lifetime, 800_000);
}

#[test]
fn enemy_hit_on_player() {
    let mut s = GameState::new();
    s.bullets.push(enemy_bullet(410_000, 555_000));
    s.check_collisions(&sparks(1));
    assert_eq!(s.lives, 2);
    assert!(s.bullets.is_empty());
    assert_eq!(s.score, 0);
    assert_eq!(s.particles.len(), 10);
    assert!(s.particles.iter().all(|p| p.x == 425_000 && p.y == 565_000));
    assert_eq!(s.particles[9].color, Rgb { r: 1160, g: 1000, b: 1200 });
}

#[test]
fn every_enemy_bullet_costs_a_life() {
    let mut s = GameState::new();
    s.bullets.push(enemy_bullet(410_000, 555_000));
    s.bullets.push(player_bullet(5_000, 5_000));
    s.bullets.push(enemy_bullet(420_000, 556_000));
    s.check_collisions(&sparks(3));
    assert_eq!(s.lives, 1);
    assert_eq!(s.bullets, vec![player_bullet(5_000, 5_000)]);
    assert_eq!(s.particles.len(), 20);
}

#[test]
fn explosion_batch_from_given_sparks() {
    let mut s = GameState::new();
    let blast = Blast { x: 1_000, y: 2_000, color: Rgb { r: 500, g: 500, b: 500 } };
    s.create_explosion(blast, &sparks(2), 10);
    assert_eq!(s.particles.len(), 10);
    assert_eq!(s.particles[1], Particle { x: 1_000, y: 2_000, vx: 90_000, vy: 5_000, color: Rgb { r: 340, g: 500, b: 700 }, lifetime: 600_000, max_lifetime: 1_000_000 });
}

#[test]
fn two_bullets_on_one_enemy_both_score() {
    let mut s = GameState::new();
    s.bullets.push(player_bullet(60_000, 60_000));
    s.bullets.push(player_bullet(65_000, 62_000));
    s.bullets.push(player_bullet(5_000, 5_000));
    s.check_collisions(&sparks(3));
    assert_eq!(s.score, 60);
    assert_eq!(s.particles.len(), 20);
    assert_eq!(s.bullets, vec![player_bullet(5_000, 5_000)]);
}

#[test]
fn scores_by_kind() {
    let mut s = GameState::new();
    // row 2 is Fast, row 4 is Basic
    s.bullets.push(player_bullet(s.enemies[20].x + 1_000, s.enemies[20].y + 1_000));
    s.bullets.push(player_bullet(s.enemies[40].x + 1_000, s.enemies[40].y + 1_000));
    s.check_collisions(&sparks(2));
    assert_eq!(s.score, 30);
    assert_eq!(s.particles[0].color, Rgb { r: 790, g: 980, b: 200 });
    assert_eq!(s.particles[10].color, Rgb { r: -200, g: 470, b: 1150 });
}

#[test]
fn dead_enemy_is_not_hit() {
    let mut s = GameState::new();
    s.enemies[0].alive = false;
    s.bullets.push(player_bullet(60_000, 60_000));
    s.check_collisions(&sparks(1));
    assert_eq!(s.score, 0);
    assert_eq!(s.bullets.len(), 1);
}

#[test]
fn touching_edges_do_not_overlap() {
    let mut s = GameState::new();
    // right edge of the bullet on the left edge of the enemy
    s.bullets.push(player_bullet(46_000, 60_000));
    s.check_collisions(&sparks(1));
    assert_eq!(s.score, 0);
    assert!(space_invaders::world::rectangles_overlap(0, 0, 10, 10, 9, 9, 10, 10));
    assert!(!space_invaders::world::rectangles_overlap(0, 0, 10, 10, 10, 0, 10, 10));
}

#[test]
fn cleared_wave_respawns() {
    let mut s = GameState::new();
    for e in s.enemies.iter_mut() {
        e.alive = false;
    }
    s.check_game_state();
    assert_eq!(s.wave, 2);
    assert_eq!(s.enemies.len(), 50);
    assert!(s.enemies.iter().all(|e| e.alive));
    assert!(s.enemies.iter().all(|e| e.speed == 70_000));
    assert_eq!(s.score, 100);
    assert!(!s.game_over);
    s.check_game_state();
    assert_eq!(s.wave, 2);
    assert_eq!(s.score, 100);
}

#[test]
fn no_lives_ends_the_game() {
    let mut s = GameState::new();
    s.lives = 0;
    s.check_game_state();
    assert!(s.game_over);
    let before = (s.player, s.enemies.clone(), s.bullets.clone(), s.score, s.lives, s.wave);
    for _ in 0..5 {
        s.advance(16_000, screen(), Controls { left: true, right: false, fire: true }, &sparks(60));
        assert!(s.game_over);
    }
    assert_eq!(before, (s.player, s.enemies.clone(), s.bullets.clone(), s.score, s.lives, s.wave));
    let s = GameState::new();
    assert!(!s.game_over);
    assert_eq!(s.lives, 3);
}

#[test]
fn overrun_ends_the_game() {
    let mut s = GameState::new();
    s.enemies[45].y = 520_000;
    s.check_game_state();
    assert!(s.game_over);
    let mut t = GameState::new();
    t.enemies[45].y = 519_999;
    t.check_game_state();
    assert!(!t.game_over);
    let mut u = GameState::new();
    u.enemies[45].y = 540_000;
    u.enemies[45].alive = false;
    u.check_game_state();
    assert!(!u.game_over);
}

#[test]
fn zero_time_changes_nothing() {
    let mut s = GameState::new();
    s.advance(16_000, screen(), idle(), &sparks(60));
    let before = (s.player, s.enemies.clone(), s.bullets.clone(), s.score, s.lives);
    s.advance(0, screen(), idle(), &sparks(60));
    assert_eq!(before, (s.player, s.enemies.clone(), s.bullets.clone(), s.score, s.lives));
    s.advance(0, screen(), Controls { left: false, right: false, fire: true }, &sparks(60));
    assert_eq!(s.bullets.len(), before.2.len() + 1);
    assert_eq!(s.player, before.0);
    assert_eq!(s.enemies, before.1);
}

#[test]
fn player_stays_on_screen() {
    let mut s = GameState::new();
    s.advance(2_000_000, screen(), Controls { left: true, right: false, fire: false }, &sparks(60));
    assert_eq!(s.player.x, 0);
    s.advance(1_000_000, screen(), Controls { left: false, right: true, fire: false }, &sparks(60));
    assert_eq!(s.player.x, 300_000);
    let mut t = GameState::new();
    t.update_player(3_000_000, screen(), Controls { left: false, right: true, fire: false });
    assert_eq!(t.player.x, 750_000);
    t.update_player(100_000, screen(), Controls { left: true, right: true, fire: false });
    assert_eq!(t.player.x, 750_000);
    t.update_player(0, Screen { width: 600_000, height: 600_000 }, idle());
    assert_eq!(t.player.x, 550_000);
}

#[test]
fn player_shot_goes_up() {
    let mut s = GameState::new();
    s.update_player(0, screen(), Controls { left: false, right: false, fire: true });
    assert_eq!(s.bullets, vec![Bullet { x: 423_000, y: 550_000, w: 4_000, h: 10_000, vy: -500_000, from_player: true }]);
    s.update_bullets(10_000, screen());
    assert_eq!(s.bullets[0].y, 545_000);
}

#[test]
fn enemy_shot_goes_down_from_alive_enemy() {
    let mut s = GameState::new();
    for e in s.enemies.iter_mut() {
        e.alive = false;
    }
    s.enemy_shoot();
    assert!(s.bullets.is_empty());
    s.enemies[17].alive = true;
    s.enemy_shoot();
    let e = s.enemies[17];
    assert_eq!(s.bullets, vec![Bullet { x: e.x + 18_000, y: e.y + 30_000, w: 4_000, h: 10_000, vy: 200_000, from_player: false }]);
    let mut t = GameState::new();
    for _ in 0..20 {
        t.enemy_shoot();
    }
    assert_eq!(t.bullets.len(), 20);
    for b in t.bullets.iter() {
        assert!(b.vy > 0 && !b.from_player);
        assert!(t.enemies.iter().any(|e| e.x + 18_000 == b.x && e.y + 30_000 == b.y));
    }
}

#[test]
fn enemy_fire_waits_for_interval() {
    let mut s = GameState::new();
    s.update_enemies(1_500_000, screen());
    assert!(s.bullets.is_empty());
    assert_eq!(s.shoot_timer, 1_500_000);
    s.update_enemies(500_000, screen());
    assert!(s.bullets.is_empty());
    assert_eq!(s.shoot_timer, 2_000_000);
    s.update_enemies(1, screen());
    assert_eq!(s.bullets.len(), 1);
    assert_eq!(s.shoot_timer, 0);
}

#[test]
fn offscreen_bullets_are_culled() {
    let mut s = GameState::new();
    s.bullets.push(player_bullet(100_000, 5_000));
    s.bullets.push(enemy_bullet(100_000, 605_000));
    s.bullets.push(player_bullet(100_000, 300_000));
    s.update_bullets(40_000, screen());
    // first moves to -15_000, second to 613_000, both outside the margin
    assert_eq!(s.bullets, vec![player_bullet(100_000, 280_000)]);
    let mut t = GameState::new();
    t.bullets.push(player_bullet(100_000, -9_000));
    t.bullets.push(player_bullet(100_000, -10_000));
    t.update_bullets(0, screen());
    assert_eq!(t.bullets, vec![player_bullet(100_000, -9_000)]);
}

#[test]
fn formation_moves_and_turns() {
    let mut s = GameState::new();
    s.update_enemies(1_000_000, screen());
    assert_eq!(s.enemies[0].x, 110_000);
    assert_eq!(s.enemies[0].y, 50_000);
    assert_eq!(s.direction, 1);
    // right-most column now reaches the right side of a narrower screen
    let narrow = Screen { width: 780_000, height: 600_000 };
    s.update_enemies(1_000, narrow);
    assert_eq!(s.enemies[0].x, 110_000);
    assert_eq!(s.enemies[0].y, 80_000);
    assert_eq!(s.direction, -1);
    s.update_enemies(500_000, narrow);
    assert_eq!(s.enemies[0].x, 80_000);
    assert_eq!(s.enemies[0].y, 80_000);
}

#[test]
fn dead_enemies_do_not_move() {
    let mut s = GameState::new();
    s.enemies[3].alive = false;
    s.update_enemies(1_000_000, screen());
    assert_eq!(s.enemies[3].x, 50_000 + 3 * 70_000);
    assert_eq!(s.enemies[4].x, 50_000 + 4 * 70_000 + 60_000);
}

#[test]
fn particles_age_and_slow() {
    let mut s = GameState::new();
    s.particles.push(Particle { x: 1_000, y: 2_000, vx: 100_000, vy: -50_000, color: Rgb { r: 1, g: 2, b: 3 }, lifetime: 600_000, max_lifetime: 1_000_000 });
    s.particles.push(Particle { x: 0, y: 0, vx: 0, vy: 0, color: Rgb { r: 1, g: 2, b: 3 }, lifetime: 100_000, max_lifetime: 1_000_000 });
    s.update_particles(100_000);
    assert_eq!(s.particles, vec![Particle { x: 11_000, y: -3_000, vx: 98_000, vy: -49_000, color: Rgb { r: 1, g: 2, b: 3 }, lifetime: 500_000, max_lifetime: 1_000_000 }]);
    s.update_particles(0);
    assert_eq!(s.particles[0].x, 11_000);
    assert_eq!(s.particles[0].vx, 96_040);
}

#[test]
fn displacement_rounds_toward_zero() {
    assert_eq!(space_invaders::world::displace(300_000, 16_667), 5_000);
    assert_eq!(space_invaders::world::displace(-7, 1_000_000), -7);
    assert_eq!(space_invaders::world::displace(-3, 500_000), -1);
    assert_eq!(space_invaders::world::damped(-99), -97);
}

#[test]
fn enemy_bullets_reach_the_player() {
    let mut s = GameState::new();
    s.bullets.push(enemy_bullet(410_000, 530_000));
    s.advance(100_000, screen(), idle(), &sparks(60));
    assert_eq!(s.lives, 2);
    assert!(s.bullets.iter().all(|b| b.from_player || b.y < 500_000));
    assert_eq!(s.particles.len(), 10);
}

#[test]
fn restart_resets_everything() {
    let mut s = GameState::new();
    s.lives = 0;
    s.score = 470;
    s.wave = 4;
    s.check_game_state();
    assert!(s.game_over);
    s.restart();
    assert!(!s.game_over);
    assert_eq!((s.lives, s.score, s.wave, s.direction, s.shoot_timer), (3, 0, 1, 1, 0));
    assert_eq!(s.enemies.len(), 50);
    assert!(s.bullets.is_empty() && s.particles.is_empty());
}

#[test]
fn fire_from_picks_among_alive_in_order() {
    let mut s = GameState::new();
    s.enemies[0].alive = false;
    s.enemies[2].alive = false;
    assert_eq!(s.alive_count(), 48);
    s.fire_from(1);
    let e = s.enemies[3];
    assert_eq!(s.bullets, vec![Bullet { x: e.x + 18_000, y: e.y + 30_000, w: 4_000, h: 10_000, vy: 200_000, from_player: false }]);
    s.fire_from(0);
    assert_eq!(s.bullets[1].x, s.enemies[1].x + 18_000);
}
