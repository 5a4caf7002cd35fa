use vstd::prelude::*;
use crate::chance::pick_below;
use crate::laws::law_shots_only_culled;
use crate::world::{
    abs, color_of, damp, damped, displace, kind_of_row, lemma_shift_bound, points_of,
    rectangles_overlap, overlap, shift, white, Blast, Bullet, Controls, Enemy,
    EnemyKind, Particle, Player, Rgb, Screen, Spark, BURST, COLS, COL_SPACING, CULL_MARGIN,
    ENEMY_BASE_SPEED, ENEMY_H, ENEMY_SHOT_VY, ENEMY_SPEED_LIM, ENEMY_W,
    ENEMY_WAVE_SPEED, FIRE_INTERVAL, GRID_ORIGIN, MAX_LIFETIME, MUZZLE, PLAYER_H,
    PLAYER_SHOT_VY, PLAYER_SPEED, PLAYER_START_X, PLAYER_START_Y, PLAYER_W, ROSTER, ROWS,
    ROW_SPACING, SCREEN_LIM, SHOT_H, SHOT_W, SIZE_LIM, SPARK_SPEED_MAX, STEP_DOWN,
    COORD_LIM, WAVE_BONUS,
};

verus! {

/// The whole simulation: one player, the enemy formation, projectiles,
/// particles, and counters.
pub struct GameState {
    pub player: Player,
    pub enemies: Vec<Enemy>,
    pub bullets: Vec<Bullet>,
    pub particles: Vec<Particle>,
    pub score: u64,
    pub lives: i64,
    pub game_over: bool,
    pub wave: u32,
    /// Horizontal direction of the formation: `1` or `-1`.
    pub direction: i64,
    /// Time accumulated toward the next enemy volley.
    pub shoot_timer: u64,
}

pub open spec fn clamp(v: int, lo: int, hi: int) -> int {
    if v < lo {
        lo
    } else if v > hi {
        hi
    } else {
        v
    }
}

/// The `i`-th enemy of a fresh formation in the given wave.
pub open spec fn grid_enemy(i: int, wave: int) -> Enemy {
    Enemy {
        x: (GRID_ORIGIN + (i % COLS as int) * COL_SPACING) as i64,
        y: (GRID_ORIGIN + (i / COLS as int) * ROW_SPACING) as i64,
        w: ENEMY_W,
        h: ENEMY_H,
        speed: (ENEMY_BASE_SPEED + wave * ENEMY_WAVE_SPEED) as i64,
        alive: true,
        kind: kind_of_row(i / COLS as int),
    }
}

pub open spec fn is_grid(es: Seq<Enemy>, wave: int) -> bool {
    es.len() == ROSTER && forall|i: int| 0 <= i < ROSTER ==> #[trigger] es[i] == grid_enemy(i, wave)
}

pub open spec fn any_alive(es: Seq<Enemy>) -> bool {
    exists|i: int| 0 <= i < es.len() && (#[trigger] es[i]).alive
}

/// Some alive enemy's bottom edge has reached the player's top edge.
pub open spec fn overrun(es: Seq<Enemy>, p: Player) -> bool {
    exists|i: int| 0 <= i < es.len() && (#[trigger] es[i]).alive && es[i].y + es[i].h >= p.y
}

pub open spec fn player_shot(p: Player) -> Bullet {
    Bullet {
        x: (p.x + p.w / 2 - MUZZLE) as i64,
        y: p.y,
        w: SHOT_W,
        h: SHOT_H,
        vy: PLAYER_SHOT_VY,
        from_player: true,
    }
}

pub open spec fn enemy_shot(e: Enemy) -> Bullet {
    Bullet {
        x: (e.x + e.w / 2 - MUZZLE) as i64,
        y: (e.y + e.h) as i64,
        w: SHOT_W,
        h: SHOT_H,
        vy: ENEMY_SHOT_VY,
        from_player: false,
    }
}

/// Player's horizontal position after the movement input, before clamping.
pub open spec fn steered_x(p: Player, c: Controls, dt: int) -> int {
    p.x - (if c.left { shift(p.speed as int, dt) } else { 0 })
        + (if c.right { shift(p.speed as int, dt) } else { 0 })
}

pub open spec fn moved_shot(b: Bullet, dt: int) -> Bullet {
    Bullet { y: (b.y + shift(b.vy as int, dt)) as i64, ..b }
}

pub open spec fn on_screen(b: Bullet, screen: Screen) -> bool {
    -CULL_MARGIN < b.y < screen.height + CULL_MARGIN
}

/// Projectiles moved by `dt`, without those that left the screen.
pub open spec fn advanced_shots(bs: Seq<Bullet>, dt: int, screen: Screen) -> Seq<Bullet>
    decreases bs.len(),
{
    if bs.len() == 0 {
        Seq::empty()
    } else {
        let m = moved_shot(bs.last(), dt);
        advanced_shots(bs.drop_last(), dt, screen) + if on_screen(m, screen) {
            seq![m]
        } else {
            Seq::empty()
        }
    }
}

/// Some alive enemy touches the side of the screen it is heading to.
pub open spec fn at_edge(es: Seq<Enemy>, dir: int, width: int) -> bool {
    exists|i: int|
        0 <= i < es.len() && (#[trigger] es[i]).alive && ((es[i].x <= 0 && dir < 0) || (es[i].x
            + es[i].w >= width && dir > 0))
}

/// An enemy after one formation step: alive ones descend when the formation
/// turns, and otherwise move sideways in its direction.
pub open spec fn marched(e: Enemy, down: bool, dir: int, dt: int) -> Enemy {
    if !e.alive {
        e
    } else if down {
        Enemy { y: (e.y + STEP_DOWN) as i64, ..e }
    } else if dir > 0 {
        Enemy { x: (e.x + shift(e.speed as int, dt)) as i64, ..e }
    } else {
        Enemy { x: (e.x - shift(e.speed as int, dt)) as i64, ..e }
    }
}

pub open spec fn moved_particle(p: Particle, dt: int) -> Particle {
    Particle {
        x: (p.x + shift(p.vx as int, dt)) as i64,
        y: (p.y + shift(p.vy as int, dt)) as i64,
        vx: damp(p.vx as int) as i64,
        vy: damp(p.vy as int) as i64,
        lifetime: (p.lifetime - dt) as i64,
        ..p
    }
}

/// Particles moved, aged and slowed by one tick, without the expired ones.
pub open spec fn advanced_particles(ps: Seq<Particle>, dt: int) -> Seq<Particle>
    decreases ps.len(),
{
    if ps.len() == 0 {
        Seq::empty()
    } else {
        let m = moved_particle(ps.last(), dt);
        advanced_particles(ps.drop_last(), dt) + if m.lifetime > 0 {
            seq![m]
        } else {
            Seq::empty()
        }
    }
}

/// A projectile fired by the player meets an alive enemy.
pub open spec fn hits(b: Bullet, e: Enemy) -> bool {
    e.alive && overlap(b.x as int, b.y as int, b.w as int, b.h as int, e.x as int, e.y as int, e.w as int, e.h as int)
}

/// Index of the first enemy from `j` on that the projectile hits; the
/// roster's length if none.
pub open spec fn first_hit_from(b: Bullet, es: Seq<Enemy>, j: int) -> int
    decreases es.len() - j,
{
    if j < 0 || j >= es.len() {
        es.len() as int
    } else if hits(b, es[j]) {
        j
    } else {
        first_hit_from(b, es, j + 1)
    }
}

/// The enemy that a projectile destroys this tick: the first one it hits if
/// the player fired it; otherwise, or when it hits none, the roster's length.
pub open spec fn target_of(b: Bullet, es: Seq<Enemy>) -> int {
    if b.from_player {
        first_hit_from(b, es, 0)
    } else {
        es.len() as int
    }
}

/// Indices of the alive enemies, in roster order.
pub open spec fn alive_indices(es: Seq<Enemy>) -> Seq<int>
    decreases es.len(),
{
    if es.len() == 0 {
        Seq::empty()
    } else {
        alive_indices(es.drop_last()) + if es.last().alive {
            seq![es.len() - 1]
        } else {
            Seq::empty()
        }
    }
}

/// An enemy projectile meets the player.
pub open spec fn strikes(b: Bullet, p: Player) -> bool {
    !b.from_player && overlap(b.x as int, b.y as int, b.w as int, b.h as int, p.x as int, p.y as int, p.w as int, p.h as int)
}

pub open spec fn center_blast(x: int, y: int, w: int, h: int, c: Rgb) -> Blast {
    Blast { x: (x + w / 2) as i64, y: (y + h / 2) as i64, color: c }
}

pub open spec fn enemy_blast(e: Enemy) -> Blast {
    center_blast(e.x as int, e.y as int, e.w as int, e.h as int, color_of(e.kind))
}

pub open spec fn player_blast(p: Player) -> Blast {
    center_blast(p.x as int, p.y as int, p.w as int, p.h as int, white())
}

/// Points scored by the first `n` projectiles.
pub open spec fn gain(bs: Seq<Bullet>, es: Seq<Enemy>, n: int) -> int
    decreases n,
{
    if n <= 0 {
        0
    } else {
        let t = target_of(bs[n - 1], es);
        gain(bs, es, n - 1) + if t < es.len() {
            points_of(es[t].kind) as int
        } else {
            0
        }
    }
}

/// Projectile `b` is spent this tick: it destroys an enemy or strikes the
/// player.
pub open spec fn spent(b: Bullet, es: Seq<Enemy>, p: Player) -> bool {
    target_of(b, es) < es.len() || strikes(b, p)
}

/// Explosions caused by the first `n` projectiles, one per spent
/// projectile, in projectile order.
pub open spec fn blasts_of(bs: Seq<Bullet>, es: Seq<Enemy>, p: Player, n: int) -> Seq<Blast>
    decreases n,
{
    if n <= 0 {
        Seq::empty()
    } else {
        let t = target_of(bs[n - 1], es);
        blasts_of(bs, es, p, n - 1) + if t < es.len() {
            seq![enemy_blast(es[t])]
        } else if strikes(bs[n - 1], p) {
            seq![player_blast(p)]
        } else {
            Seq::empty()
        }
    }
}

/// Number of the first `n` projectiles that strike the player.
pub open spec fn strike_count(bs: Seq<Bullet>, p: Player, n: int) -> int
    decreases n,
{
    if n <= 0 {
        0
    } else {
        strike_count(bs, p, n - 1) + if strikes(bs[n - 1], p) { 1int } else { 0 }
    }
}

/// The particles of a list of explosions: one batch per explosion, the
/// `k`-th batch made from sparks `BURST * k` to `BURST * k + BURST - 1`.
pub open spec fn bursts(bl: Seq<Blast>, sp: Seq<Spark>) -> Seq<Particle> {
    Seq::new((BURST * bl.len()) as nat, |i: int| spark_particle(bl[i / BURST as int], sp[i]))
}

/// Enemy `j` is destroyed by one of the first `n` projectiles.
pub open spec fn destroyed(bs: Seq<Bullet>, es: Seq<Enemy>, j: int, n: int) -> bool
    decreases n,
{
    if n <= 0 {
        false
    } else {
        destroyed(bs, es, j, n - 1) || target_of(bs[n - 1], es) == j
    }
}

/// The first `n` projectiles without the spent ones.
pub open spec fn survivors(bs: Seq<Bullet>, es: Seq<Enemy>, p: Player, n: int) -> Seq<Bullet>
    decreases n,
{
    if n <= 0 {
        Seq::empty()
    } else {
        survivors(bs, es, p, n - 1) + if spent(bs[n - 1], es, p) {
            Seq::empty()
        } else {
            seq![bs[n - 1]]
        }
    }
}

/// Addition that stops at the largest `u64`.
pub open spec fn sat_add(a: int, b: int) -> u64 {
    if a + b > u64::MAX {
        u64::MAX
    } else {
        (a + b) as u64
    }
}

/// The particle that a spark of an explosion becomes.
pub open spec fn spark_particle(b: Blast, s: Spark) -> Particle {
    Particle {
        x: b.x,
        y: b.y,
        vx: s.vx,
        vy: s.vy,
        color: Rgb { r: (b.color.r + s.dr) as i64, g: (b.color.g + s.dg) as i64, b: (b.color.b + s.db) as i64 },
        lifetime: s.lifetime,
        max_lifetime: MAX_LIFETIME,
    }
}

/// Player control: move by the held inputs, clamp to the screen, fire on a press.
pub open spec fn player_step(s: GameState, t: GameState, dt: u32, screen: Screen, controls: Controls) -> bool {
    &&& t.player == (Player {
        x: clamp(steered_x(s.player, controls, dt as int), 0, screen.width - s.player.w) as i64,
        ..s.player
    })
    &&& 0 <= t.player.x <= screen.width - t.player.w
    &&& t.bullets@ == if controls.fire {
        s.bullets@.push(player_shot(t.player))
    } else {
        s.bullets@
    }
    &&& t.enemies@ == s.enemies@
    &&& t.particles@ == s.particles@
    &&& t.score == s.score
    &&& t.lives == s.lives
    &&& t.game_over == s.game_over
    &&& t.wave == s.wave
    &&& t.direction == s.direction
    &&& t.shoot_timer == s.shoot_timer
}

/// Projectile advance: move, then cull those off screen.
pub open spec fn bullet_step(s: GameState, t: GameState, dt: u32, screen: Screen) -> bool {
    &&& t.bullets@ == advanced_shots(s.bullets@, dt as int, screen)
    &&& t.player == s.player
    &&& t.enemies@ == s.enemies@
    &&& t.particles@ == s.particles@
    &&& t.score == s.score
    &&& t.lives == s.lives
    &&& t.game_over == s.game_over
    &&& t.wave == s.wave
    &&& t.direction == s.direction
    &&& t.shoot_timer == s.shoot_timer
}

/// Formation movement, then enemy fire when the volley timer passes its interval.
pub open spec fn enemy_step(s: GameState, t: GameState, dt: u32, screen: Screen) -> bool {
    &&& t.enemies@.len() == s.enemies@.len()
    &&& forall|i: int| 0 <= i < s.enemies@.len() ==> #[trigger] t.enemies@[i] == marched(
        s.enemies@[i],
        at_edge(s.enemies@, s.direction as int, screen.width as int),
        s.direction as int,
        dt as int,
    )
    &&& t.direction == if at_edge(s.enemies@, s.direction as int, screen.width as int) {
        -s.direction
    } else {
        s.direction as int
    }
    &&& t.shoot_timer == if s.shoot_timer + dt > FIRE_INTERVAL {
        0
    } else {
        s.shoot_timer + dt
    }
    &&& s.shoot_timer + dt > FIRE_INTERVAL && alive_indices(t.enemies@).len() > 0 ==> exists|k: int|
        0 <= k < alive_indices(t.enemies@).len()
            && t.bullets@ == s.bullets@.push(
                enemy_shot(t.enemies@[#[trigger] alive_indices(t.enemies@)[k]]),
            )
    &&& !(s.shoot_timer + dt > FIRE_INTERVAL && alive_indices(t.enemies@).len() > 0)
        ==> t.bullets@ == s.bullets@
    &&& t.player == s.player
    &&& t.particles@ == s.particles@
    &&& t.score == s.score
    &&& t.lives == s.lives
    &&& t.game_over == s.game_over
    &&& t.wave == s.wave
}

/// Particle advance: move, age, slow, drop the expired.
pub open spec fn particle_step(s: GameState, t: GameState, dt: u32) -> bool {
    &&& t.particles@ == advanced_particles(s.particles@, dt as int)
    &&& t.player == s.player
    &&& t.enemies@ == s.enemies@
    &&& t.bullets@ == s.bullets@
    &&& t.score == s.score
    &&& t.lives == s.lives
    &&& t.game_over == s.game_over
    &&& t.wave == s.wave
    &&& t.direction == s.direction
    &&& t.shoot_timer == s.shoot_timer
}

/// Collision resolution, with the sparks of the explosions it causes.
pub open spec fn collision_step(s: GameState, t: GameState, sparks: Seq<Spark>) -> bool {
    &&& ({
        let bs = s.bullets@;
        let es = s.enemies@;
        let p = s.player;
        let n = bs.len() as int;
        &&& t.bullets@ == survivors(bs, es, p, n)
        &&& t.lives == s.lives - strike_count(bs, p, n)
        &&& t.score == sat_add(s.score as int, gain(bs, es, n))
        &&& t.enemies@.len() == es.len()
        &&& forall|j: int| 0 <= j < es.len() ==> #[trigger] t.enemies@[j] == (Enemy {
            alive: es[j].alive && !destroyed(bs, es, j, n),
            ..es[j]
        })
        &&& t.particles@ == s.particles@ + bursts(blasts_of(bs, es, p, n), sparks)
    })
    &&& t.player == s.player
    &&& t.game_over == s.game_over
    &&& t.wave == s.wave
    &&& t.direction == s.direction
    &&& t.shoot_timer == s.shoot_timer
}

/// Game-state check: end of game, wave clear, overrun.
pub open spec fn state_step(s: GameState, t: GameState) -> bool {
    &&& s.lives <= 0 ==> t.game_over
        && t.enemies@ == s.enemies@
        && t.wave == s.wave
        && t.score == s.score
    &&& s.lives > 0 && any_alive(s.enemies@) ==> t.enemies@ == s.enemies@
        && t.wave == s.wave
        && t.score == s.score
    &&& s.lives > 0 && !any_alive(s.enemies@) ==> is_grid(t.enemies@, s.wave + 1)
        && t.wave == s.wave + 1
        && t.score == sat_add(s.score as int, WAVE_BONUS as int)
    &&& s.lives > 0 ==> t.game_over == (s.game_over || overrun(t.enemies@, t.player))
    &&& !s.game_over ==> (t.game_over <==> (t.lives <= 0 || overrun(t.enemies@, t.player)))
    &&& t.player == s.player
    &&& t.bullets@ == s.bullets@
    &&& t.particles@ == s.particles@
    &&& t.lives == s.lives
    &&& t.direction == s.direction
    &&& t.shoot_timer == s.shoot_timer
}

impl GameState {
    /// Numeric bounds of every entity, which keep the arithmetic exact.
    pub open spec fn bounded(&self) -> bool {
        &&& self.player.bounded()
        &&& forall|i: int| 0 <= i < self.enemies@.len() ==> (#[trigger] self.enemies@[i]).bounded()
        &&& forall|i: int| 0 <= i < self.bullets@.len() ==> (#[trigger] self.bullets@[i]).bounded()
        &&& forall|i: int| 0 <= i < self.particles@.len() ==> (#[trigger] self.particles@[i]).bounded()
    }

    /// The invariant that every frame of a running game keeps.
    pub open spec fn wf(&self) -> bool {
        &&& self.bounded()
        &&& self.direction == 1 || self.direction == -1
        &&& self.shoot_timer <= FIRE_INTERVAL
        &&& self.enemies@.len() == ROSTER
        &&& !self.game_over ==> self.lives > 0 && !overrun(self.enemies@, self.player)
    }

    /// A fresh game: wave 1, three lives, no score, a full formation, the
    /// player near the bottom of the field.
    pub fn new() -> (s: GameState)
        ensures
            s.wf(),
            s.wave == 1,
            s.lives == 3,
            s.score == 0,
            !s.game_over,
            s.direction == 1,
            s.shoot_timer == 0,
            s.player == (Player { x: PLAYER_START_X, y: PLAYER_START_Y, w: PLAYER_W, h: PLAYER_H, speed: PLAYER_SPEED }),
            is_grid(s.enemies@, 1),
            s.bullets@.len() == 0,
            s.particles@.len() == 0,
    {
        let mut s = GameState {
            player: Player { x: PLAYER_START_X, y: PLAYER_START_Y, w: PLAYER_W, h: PLAYER_H, speed: PLAYER_SPEED },
            enemies: Vec::new(),
            bullets: Vec::new(),
            particles: Vec::new(),
            score: 0,
            lives: 3,
            game_over: false,
            wave: 1,
            direction: 1,
            shoot_timer: 0,
        };
        s.spawn_enemies();
        proof {
            assert forall|i: int| 0 <= i < s.enemies@.len() && (#[trigger] s.enemies@[i]).alive
                implies s.enemies@[i].y + s.enemies@[i].h < s.player.y by {
                assert(s.enemies@[i] == grid_enemy(i, 1));
            }
        }
        s
    }

    /// Starts over: the state becomes that of a fresh game.
    pub fn restart(&mut self)
        ensures
            final(self).wf(),
            final(self).wave == 1,
            final(self).lives == 3,
            final(self).score == 0,
            !final(self).game_over,
            final(self).direction == 1,
            final(self).shoot_timer == 0,
            final(self).player == (Player { x: PLAYER_START_X, y: PLAYER_START_Y, w: PLAYER_W, h: PLAYER_H, speed: PLAYER_SPEED }),
            is_grid(final(self).enemies@, 1),
            final(self).bullets@.len() == 0,
            final(self).particles@.len() == 0,
    {
        *self = GameState::new();
    }

    /// Replaces the formation by a fresh 5 x 10 grid whose speed grows with
    /// the current wave.
    pub fn spawn_enemies(&mut self)
        requires
            old(self).bounded(),
        ensures
            is_grid(final(self).enemies@, old(self).wave as int),
            final(self).bounded(),
            final(self).player == old(self).player,
            final(self).bullets@ == old(self).bullets@,
            final(self).particles@ == old(self).particles@,
            final(self).score == old(self).score,
            final(self).lives == old(self).lives,
            final(self).game_over == old(self).game_over,
            final(self).wave == old(self).wave,
            final(self).direction == old(self).direction,
            final(self).shoot_timer == old(self).shoot_timer,
    {
        self.enemies.clear();
        let speed: i64 = ENEMY_BASE_SPEED + (self.wave as i64) * ENEMY_WAVE_SPEED;
        let mut row: usize = 0;
        while row < ROWS
            invariant
                row <= ROWS,
                self.enemies@.len() == row * COLS,
                speed == ENEMY_BASE_SPEED + self.wave * ENEMY_WAVE_SPEED,
                forall|i: int| 0 <= i < self.enemies@.len() ==> #[trigger] self.enemies@[i] == grid_enemy(i, self.wave as int),
                self.player == old(self).player,
                self.bullets@ == old(self).bullets@,
                self.particles@ == old(self).particles@,
                self.score == old(self).score,
                self.lives == old(self).lives,
                self.game_over == old(self).game_over,
                self.wave == old(self).wave,
                self.direction == old(self).direction,
                self.shoot_timer == old(self).shoot_timer,
            decreases ROWS - row,
        {
            let kind = EnemyKind::of_row(row);
            let mut col: usize = 0;
            while col < COLS
                invariant
                    row < ROWS,
                    col <= COLS,
                    self.enemies@.len() == row * COLS + col,
                    speed == ENEMY_BASE_SPEED + self.wave * ENEMY_WAVE_SPEED,
                    kind == kind_of_row(row as int),
                    forall|i: int| 0 <= i < self.enemies@.len() ==> #[trigger] self.enemies@[i] == grid_enemy(i, self.wave as int),
                    self.player == old(self).player,
                    self.bullets@ == old(self).bullets@,
                    self.particles@ == old(self).particles@,
                    self.score == old(self).score,
                    self.lives == old(self).lives,
                    self.game_over == old(self).game_over,
                    self.wave == old(self).wave,
                    self.direction == old(self).direction,
                    self.shoot_timer == old(self).shoot_timer,
                decreases COLS - col,
            {
                let e = Enemy {
                    x: GRID_ORIGIN + (col as i64) * COL_SPACING,
                    y: GRID_ORIGIN + (row as i64) * ROW_SPACING,
                    w: ENEMY_W,
                    h: ENEMY_H,
                    speed,
                    alive: true,
                    kind,
                };
                proof {
                    let i = (row * COLS + col) as int;
                    assert(i % 10 == col as int && i / 10 == row as int) by (nonlinear_arith)
                        requires i == row * 10 + col, 0 <= col < 10, 0 <= row;
                    assert(e == grid_enemy(i, self.wave as int));
                }
                self.enemies.push(e);
                col = col + 1;
            }
            row = row + 1;
        }
        proof {
            assert forall|i: int| 0 <= i < self.enemies@.len() implies (#[trigger] self.enemies@[i]).bounded() by {
                assert(self.enemies@[i] == grid_enemy(i, self.wave as int));
                assert(0 <= i / 10 <= 4 && 0 <= i % 10 <= 9);
            }
        }
    }

    /// Moves the player by the held inputs, keeps it on screen, and fires on
    /// a press of the fire input.
    pub fn update_player(&mut self, dt: u32, screen: Screen, controls: Controls)
        requires
            old(self).bounded(),
            screen.valid(),
            old(self).player.w <= screen.width,
        ensures
            final(self).bounded(),
            player_step(*old(self), *final(self), dt, screen, controls),
    {
        let step = displace(self.player.speed, dt);
        proof {
            lemma_shift_bound(self.player.speed as int, dt as int, SIZE_LIM as int);
            assert(SIZE_LIM * dt <= SIZE_LIM * 0xffff_ffffi64) by (nonlinear_arith)
                requires 0 <= dt <= 0xffff_ffff;
        }
        let mut x = self.player.x;
        if controls.left {
            x = x - step;
        }
        if controls.right {
            x = x + step;
        }
        let hi = screen.width - self.player.w;
        if x < 0 {
            x = 0;
        } else if x > hi {
            x = hi;
        }
        self.player.x = x;
        if controls.fire {
            self.player_shoot();
        }
    }

    /// Adds an upward projectile at the player's horizontal center and top edge.
    pub fn player_shoot(&mut self)
        requires
            old(self).bounded(),
            0 <= old(self).player.x <= SCREEN_LIM,
        ensures
            final(self).bounded(),
            final(self).bullets@ == old(self).bullets@.push(player_shot(old(self).player)),
            final(self).player == old(self).player,
            final(self).enemies@ == old(self).enemies@,
            final(self).particles@ == old(self).particles@,
            final(self).score == old(self).score,
            final(self).lives == old(self).lives,
            final(self).game_over == old(self).game_over,
            final(self).wave == old(self).wave,
            final(self).direction == old(self).direction,
            final(self).shoot_timer == old(self).shoot_timer,
    {
        let b = Bullet {
            x: self.player.x + self.player.w / 2 - MUZZLE,
            y: self.player.y,
            w: SHOT_W,
            h: SHOT_H,
            vy: PLAYER_SHOT_VY,
            from_player: true,
        };
        self.bullets.push(b);
        proof {
            assert forall|i: int| 0 <= i < self.bullets@.len() implies (#[trigger] self.bullets@[i]).bounded() by {
                if i < old(self).bullets@.len() {
                    assert(self.bullets@[i] == old(self).bullets@[i]);
                }
            }
        }
    }

    /// Moves every projectile by its velocity and drops those that left the
    /// screen's height by more than a small margin.
    pub fn update_bullets(&mut self, dt: u32, screen: Screen)
        requires
            old(self).bounded(),
            screen.valid(),
        ensures
            final(self).bounded(),
            bullet_step(*old(self), *final(self), dt, screen),
    {
        let ghost bs = self.bullets@;
        let mut out: Vec<Bullet> = Vec::new();
        let mut i: usize = 0;
        while i < self.bullets.len()
            invariant
                bs == old(self).bullets@,
                self.bullets@ == bs,
                self.player == old(self).player,
                self.enemies@ == old(self).enemies@,
                self.particles@ == old(self).particles@,
                self.score == old(self).score,
                self.lives == old(self).lives,
                self.game_over == old(self).game_over,
                self.wave == old(self).wave,
                self.direction == old(self).direction,
                self.shoot_timer == old(self).shoot_timer,
                i <= bs.len(),
                screen.valid(),
                out@ == advanced_shots(bs.subrange(0, i as int), dt as int, screen),
                forall|k: int| 0 <= k < bs.len() ==> (#[trigger] bs[k]).bounded(),
                forall|k: int| 0 <= k < out@.len() ==> (#[trigger] out@[k]).bounded(),
            decreases bs.len() - i,
        {
            let b = self.bullets[i];
            assert(b.bounded());
            let d = displace(b.vy, dt);
            proof {
                lemma_shift_bound(b.vy as int, dt as int, SIZE_LIM as int);
                assert(SIZE_LIM * dt <= SIZE_LIM * 0xffff_ffffi64) by (nonlinear_arith)
                    requires 0 <= dt <= 0xffff_ffff;
            }
            let m = Bullet { y: b.y + d, ..b };
            proof {
                let pre = bs.subrange(0, i as int + 1);
                assert(pre.drop_last() =~= bs.subrange(0, i as int));
                assert(pre.last() == b);
            }
            if -CULL_MARGIN < m.y && m.y < screen.height + CULL_MARGIN {
                out.push(m);
            }
            i = i + 1;
        }
        proof {
            assert(bs.subrange(0, bs.len() as int) =~= bs);
        }
        self.bullets = out;
    }

    /// One formation step: if any alive enemy has reached the side it is
    /// heading to, all alive enemies descend and the direction flips;
    /// otherwise all alive enemies move sideways.
    pub fn move_formation(&mut self, dt: u32, screen: Screen)
        requires
            old(self).bounded(),
            screen.valid(),
            old(self).direction == 1 || old(self).direction == -1,
            forall|i: int| 0 <= i < old(self).enemies@.len() && (#[trigger] old(self).enemies@[i]).alive
                ==> old(self).enemies@[i].y <= COORD_LIM,
        ensures
            final(self).bounded(),
            final(self).enemies@.len() == old(self).enemies@.len(),
            forall|i: int| 0 <= i < old(self).enemies@.len() ==> #[trigger] final(self).enemies@[i] == marched(
                old(self).enemies@[i],
                at_edge(old(self).enemies@, old(self).direction as int, screen.width as int),
                old(self).direction as int,
                dt as int,
            ),
            final(self).direction == if at_edge(old(self).enemies@, old(self).direction as int, screen.width as int) {
                -old(self).direction
            } else {
                old(self).direction as int
            },
            final(self).player == old(self).player,
            final(self).bullets@ == old(self).bullets@,
            final(self).particles@ == old(self).particles@,
            final(self).score == old(self).score,
            final(self).lives == old(self).lives,
            final(self).game_over == old(self).game_over,
            final(self).wave == old(self).wave,
            final(self).shoot_timer == old(self).shoot_timer,
    {
        let ghost es = self.enemies@;
        let dir = self.direction;
        let mut down = false;
        let mut i: usize = 0;
        while i < self.enemies.len()
            invariant
                self.enemies@ == es,
                i <= es.len(),
                dir == self.direction,
                down == exists|j: int|
                    0 <= j < i && (#[trigger] es[j]).alive && ((es[j].x <= 0 && dir < 0) || (es[j].x
                        + es[j].w >= screen.width && dir > 0)),
                forall|k: int| 0 <= k < es.len() ==> (#[trigger] es[k]).bounded(),
            decreases es.len() - i,
        {
            let e = self.enemies[i];
            assert(e.bounded());
            if e.alive && ((e.x <= 0 && dir < 0) || (e.x + e.w >= screen.width && dir > 0)) {
                down = true;
            }
            i = i + 1;
        }
        assert(down == at_edge(es, dir as int, screen.width as int));
        let mut k: usize = 0;
        while k < self.enemies.len()
            invariant
                old(self).bounded(),
                screen.valid(),
                dir == 1 || dir == -1,
                dir == old(self).direction,
                es == old(self).enemies@,
                down == at_edge(es, dir as int, screen.width as int),
                self.enemies@.len() == es.len(),
                k <= es.len(),
                forall|j: int| 0 <= j < k ==> #[trigger] self.enemies@[j] == marched(es[j], down, dir as int, dt as int),
                forall|j: int| k <= j < es.len() ==> #[trigger] self.enemies@[j] == es[j],
                forall|j: int| 0 <= j < es.len() && (#[trigger] es[j]).alive ==> es[j].y <= COORD_LIM,
                self.player == old(self).player,
                self.bullets@ == old(self).bullets@,
                self.particles@ == old(self).particles@,
                self.score == old(self).score,
                self.lives == old(self).lives,
                self.game_over == old(self).game_over,
                self.wave == old(self).wave,
                self.shoot_timer == old(self).shoot_timer,
                self.direction == old(self).direction,
            decreases es.len() - k,
        {
            let e = self.enemies[k];
            assert(e == es[k as int]);
            assert(e.bounded());
            if e.alive {
                if down {
                    self.enemies.set(k, Enemy { y: e.y + STEP_DOWN, ..e });
                } else {
                    let d = displace(e.speed, dt);
                    proof {
                        lemma_shift_bound(e.speed as int, dt as int, ENEMY_SPEED_LIM as int);
                        assert(ENEMY_SPEED_LIM * dt <= ENEMY_SPEED_LIM * 0xffff_ffffi64) by (nonlinear_arith)
                            requires 0 <= dt <= 0xffff_ffff;
                        assert(d >= 0) by (nonlinear_arith)
                            requires d == shift(e.speed as int, dt as int), e.speed >= 0, dt >= 0;
                    }
                    if dir > 0 {
                        self.enemies.set(k, Enemy { x: e.x + d, ..e });
                    } else {
                        self.enemies.set(k, Enemy { x: e.x - d, ..e });
                    }
                }
            }
            k = k + 1;
        }
        if down {
            self.direction = -dir;
        }
        proof {
            assert forall|j: int| 0 <= j < self.enemies@.len() implies (#[trigger] self.enemies@[j]).bounded() by {
                assert(self.enemies@[j] == marched(es[j], down, dir as int, dt as int));
                assert(es[j].bounded());
                if es[j].alive && !down {
                    lemma_shift_bound(es[j].speed as int, dt as int, ENEMY_SPEED_LIM as int);
                    assert(ENEMY_SPEED_LIM * dt <= ENEMY_SPEED_LIM * 0xffff_ffffi64) by (nonlinear_arith)
                        requires 0 <= dt <= 0xffff_ffff;
                    if dir > 0 {
                        assert(!(es[j].x + es[j].w >= screen.width));
                    } else {
                        assert(!(es[j].x <= 0));
                    }
                }
            }
        }
    }

    /// Number of alive enemies.
    pub fn alive_count(&self) -> (r: usize)
        ensures
            r == alive_indices(self.enemies@).len(),
            r <= self.enemies@.len(),
    {
        let ghost es = self.enemies@;
        let mut c: usize = 0;
        let mut i: usize = 0;
        while i < self.enemies.len()
            invariant
                es == self.enemies@,
                i <= es.len(),
                c == alive_indices(es.take(i as int)).len(),
                c <= i,
            decreases es.len() - i,
        {
            assert(es.take(i as int + 1).drop_last() =~= es.take(i as int));
            if self.enemies[i].alive {
                c = c + 1;
            }
            i = i + 1;
        }
        assert(es.take(es.len() as int) =~= es);
        c
    }

    /// The enemy at position `pick` among the alive ones, in roster order,
    /// fires a downward projectile from its lower center.
    pub fn fire_from(&mut self, pick: usize)
        requires
            old(self).bounded(),
            pick < alive_indices(old(self).enemies@).len(),
        ensures
            final(self).bounded(),
            final(self).bullets@ == old(self).bullets@.push(
                enemy_shot(old(self).enemies@[alive_indices(old(self).enemies@)[pick as int]]),
            ),
            final(self).player == old(self).player,
            final(self).enemies@ == old(self).enemies@,
            final(self).particles@ == old(self).particles@,
            final(self).score == old(self).score,
            final(self).lives == old(self).lives,
            final(self).game_over == old(self).game_over,
            final(self).wave == old(self).wave,
            final(self).direction == old(self).direction,
            final(self).shoot_timer == old(self).shoot_timer,
    {
        let ghost es = self.enemies@;
        let mut alive: Vec<usize> = Vec::new();
        let mut i: usize = 0;
        while i < self.enemies.len()
            invariant
                self.enemies@ == es,
                i <= es.len(),
                alive@.len() == alive_indices(es.take(i as int)).len(),
                forall|k: int| 0 <= k < alive@.len() ==> #[trigger] alive@[k] == alive_indices(es.take(i as int))[k],
                forall|k: int| 0 <= k < alive@.len() ==> #[trigger] alive@[k] < i,
            decreases es.len() - i,
        {
            assert(es.take(i as int + 1).drop_last() =~= es.take(i as int));
            assert(es.take(i as int + 1).last() == es[i as int]);
            if self.enemies[i].alive {
                alive.push(i);
            }
            i = i + 1;
        }
        assert(es.take(es.len() as int) =~= es);
        let idx = alive[pick];
        let e = self.enemies[idx];
        assert(e.bounded());
        let b = Bullet {
            x: e.x + e.w / 2 - MUZZLE,
            y: e.y + e.h,
            w: SHOT_W,
            h: SHOT_H,
            vy: ENEMY_SHOT_VY,
            from_player: false,
        };
        self.bullets.push(b);
        proof {
            assert forall|k: int| 0 <= k < self.bullets@.len() implies (#[trigger] self.bullets@[k]).bounded() by {
                if k < old(self).bullets@.len() {
                    assert(self.bullets@[k] == old(self).bullets@[k]);
                }
            }
        }
    }

    /// Fires a downward projectile from the lower center of one alive enemy
    /// picked at random; does nothing when no enemy is alive.
    pub fn enemy_shoot(&mut self)
        requires
            old(self).bounded(),
            old(self).enemies@.len() <= 0x10_0000,
        ensures
            final(self).bounded(),
            alive_indices(old(self).enemies@).len() > 0 ==> exists|k: int|
                0 <= k < alive_indices(old(self).enemies@).len()
                    && final(self).bullets@ == old(self).bullets@.push(
                        enemy_shot(old(self).enemies@[#[trigger] alive_indices(old(self).enemies@)[k]]),
                    ),
            alive_indices(old(self).enemies@).len() == 0 ==> final(self).bullets@ == old(self).bullets@,
            final(self).player == old(self).player,
            final(self).enemies@ == old(self).enemies@,
            final(self).particles@ == old(self).particles@,
            final(self).score == old(self).score,
            final(self).lives == old(self).lives,
            final(self).game_over == old(self).game_over,
            final(self).wave == old(self).wave,
            final(self).direction == old(self).direction,
            final(self).shoot_timer == old(self).shoot_timer,
    {
        let count = self.alive_count();
        if count > 0 {
            let pick = pick_below(count);
            self.fire_from(pick);
        }
    }

    /// Moves the formation, then advances the volley timer; when it passes
    /// the interval an enemy fires and the timer restarts.
    pub fn update_enemies(&mut self, dt: u32, screen: Screen)
        requires
            old(self).bounded(),
            screen.valid(),
            old(self).direction == 1 || old(self).direction == -1,
            old(self).shoot_timer <= FIRE_INTERVAL,
            old(self).enemies@.len() <= 0x10_0000,
            forall|i: int| 0 <= i < old(self).enemies@.len() && (#[trigger] old(self).enemies@[i]).alive
                ==> old(self).enemies@[i].y <= COORD_LIM,
        ensures
            final(self).bounded(),
            enemy_step(*old(self), *final(self), dt, screen),
    {
        self.move_formation(dt, screen);
        self.shoot_timer = self.shoot_timer + dt as u64;
        if self.shoot_timer > FIRE_INTERVAL {
            self.enemy_shoot();
            self.shoot_timer = 0;
        }
    }

    /// Moves, ages and slows every particle and drops the expired ones.
    pub fn update_particles(&mut self, dt: u32)
        requires
            old(self).bounded(),
        ensures
            final(self).bounded(),
            particle_step(*old(self), *final(self), dt),
    {
        let ghost ps = self.particles@;
        let mut out: Vec<Particle> = Vec::new();
        let mut i: usize = 0;
        while i < self.particles.len()
            invariant
                self.particles@ == ps,
                ps == old(self).particles@,
                i <= ps.len(),
                out@ == advanced_particles(ps.subrange(0, i as int), dt as int),
                forall|k: int| 0 <= k < ps.len() ==> (#[trigger] ps[k]).bounded(),
                forall|k: int| 0 <= k < out@.len() ==> (#[trigger] out@[k]).bounded(),
                self.player == old(self).player,
                self.enemies@ == old(self).enemies@,
                self.bullets@ == old(self).bullets@,
                self.score == old(self).score,
                self.lives == old(self).lives,
                self.game_over == old(self).game_over,
                self.wave == old(self).wave,
                self.direction == old(self).direction,
                self.shoot_timer == old(self).shoot_timer,
            decreases ps.len() - i,
        {
            let p = self.particles[i];
            assert(p.bounded());
            let dx = displace(p.vx, dt);
            let dy = displace(p.vy, dt);
            proof {
                lemma_shift_bound(p.vx as int, dt as int, SPARK_SPEED_MAX as int);
                lemma_shift_bound(p.vy as int, dt as int, SPARK_SPEED_MAX as int);
                assert(SPARK_SPEED_MAX * dt <= SPARK_SPEED_MAX * 0xffff_ffffi64) by (nonlinear_arith)
                    requires 0 <= dt <= 0xffff_ffff;
            }
            let m = Particle {
                x: p.x + dx,
                y: p.y + dy,
                vx: damped(p.vx),
                vy: damped(p.vy),
                lifetime: p.lifetime - dt as i64,
                ..p
            };
            proof {
                let pre = ps.subrange(0, i as int + 1);
                assert(pre.drop_last() =~= ps.subrange(0, i as int));
                assert(pre.last() == p);
                assert(m == moved_particle(p, dt as int));
            }
            if m.lifetime > 0 {
                out.push(m);
            }
            i = i + 1;
        }
        proof {
            assert(ps.subrange(0, ps.len() as int) =~= ps);
        }
        self.particles = out;
    }

    /// Index of the first alive enemy that `b` overlaps, or the roster's
    /// length.
    pub fn first_hit(&self, b: &Bullet) -> (r: usize)
        requires
            self.bounded(),
            b.bounded(),
        ensures
            r == first_hit_from(*b, self.enemies@, 0),
    {
        let ghost es = self.enemies@;
        let mut r: usize = self.enemies.len();
        let mut j: usize = self.enemies.len();
        while j > 0
            invariant
                es == self.enemies@,
                j <= es.len(),
                r == first_hit_from(*b, es, j as int),
                self.bounded(),
                b.bounded(),
            decreases j,
        {
            j = j - 1;
            let e = self.enemies[j];
            assert(e.bounded());
            if e.alive && rectangles_overlap(b.x, b.y, b.w, b.h, e.x, e.y, e.w, e.h) {
                r = j;
            }
        }
        r
    }

    /// Resolves the hits of this tick. Each projectile of the player destroys
    /// the first alive enemy it overlaps, scoring its points; each enemy
    /// projectile that overlaps the player costs a life. Every such hit
    /// removes its projectile and leaves a batch of particles at the center
    /// of what was hit, made from the next `BURST` of the given sparks.
    pub fn check_collisions(&mut self, sparks: &Vec<Spark>)
        requires
            old(self).bounded(),
            old(self).lives - old(self).bullets@.len() >= i64::MIN,
            sparks@.len() >= BURST * old(self).bullets@.len(),
            forall|i: int| 0 <= i < sparks@.len() ==> (#[trigger] sparks@[i]).valid(),
        ensures
            final(self).bounded(),
            collision_step(*old(self), *final(self), sparks@),
    {
        let ghost bs = self.bullets@;
        let ghost es = self.enemies@;
        let ghost p = self.player;
        let n = self.bullets.len();
        let m = self.enemies.len();
        // the enemy each projectile destroys, or `m`
        let mut target: Vec<usize> = Vec::new();
        let mut i: usize = 0;
        while i < n
            invariant
                n == bs.len(),
                m == es.len(),
                i <= n,
                self.bullets@ == bs,
                self.enemies@ == es,
                self.bounded(),
                target@.len() == i,
                forall|k: int| 0 <= k < i ==> #[trigger] target@[k] == target_of(bs[k], es),
            decreases n - i,
        {
            let b = self.bullets[i];
            assert(b.bounded());
            if b.from_player {
                let t = self.first_hit(&b);
                target.push(t);
            } else {
                target.push(m);
            }
            i = i + 1;
        }
        let ns = sparks.len();
        let mut out: Vec<Bullet> = Vec::new();
        let mut used: usize = 0;
        let mut i: usize = 0;
        while i < n
            invariant
                ns == sparks@.len(),
                n == bs.len(),
                m == es.len(),
                i <= n,
                self.bullets@ == bs,
                self.enemies@.len() == m,
                self.player == p,
                p == old(self).player,
                sparks@.len() >= BURST * n,
                forall|k: int| 0 <= k < sparks@.len() ==> (#[trigger] sparks@[k]).valid(),
                target@.len() == n,
                forall|k: int| 0 <= k < n ==> #[trigger] target@[k] == target_of(bs[k], es),
                forall|j: int| 0 <= j < m ==> #[trigger] self.enemies@[j] == (Enemy {
                    alive: es[j].alive && !destroyed(bs, es, j, i as int),
                    ..es[j]
                }),
                forall|j: int| 0 <= j < m ==> (#[trigger] es[j]).bounded(),
                forall|k: int| 0 <= k < bs.len() ==> (#[trigger] bs[k]).bounded(),
                self.player.bounded(),
                forall|k: int| 0 <= k < self.particles@.len() ==> (#[trigger] self.particles@[k]).bounded(),
                self.score == sat_add(old(self).score as int, gain(bs, es, i as int)),
                self.lives == old(self).lives - strike_count(bs, p, i as int),
                old(self).lives - n >= i64::MIN,
                strike_count(bs, p, i as int) <= i,
                used == blasts_of(bs, es, p, i as int).len(),
                used <= i,
                self.particles@ == old(self).particles@ + bursts(blasts_of(bs, es, p, i as int), sparks@),
                out@ == survivors(bs, es, p, i as int),
                forall|k: int| 0 <= k < out@.len() ==> (#[trigger] out@[k]).bounded(),
                self.game_over == old(self).game_over,
                self.wave == old(self).wave,
                self.direction == old(self).direction,
                self.shoot_timer == old(self).shoot_timer,
            decreases n - i,
        {
            let t = target[i];
            let b = self.bullets[i];
            proof {
                assert(target_of(bs[i as int], es) <= m) by {
                    if bs[i as int].from_player {
                        lemma_first_hit_range(bs[i as int], es, 0);
                    }
                }
            }
            let ghost bl0 = blasts_of(bs, es, p, i as int);
            if t < m {
                let e = self.enemies[t];
                assert(es[t as int].bounded());
                self.enemies.set(t, Enemy { alive: false, ..e });
                let pts = e.kind.points();
                assert(pts > 0 && pts == points_of(es[t as int].kind)) by {
                    assert(e.kind == es[t as int].kind);
                    match e.kind {
                        EnemyKind::Basic => {},
                        EnemyKind::Fast => {},
                        EnemyKind::Strong => {},
                    }
                }
                let ghost g = gain(bs, es, i as int);
                let ghost a = old(self).score as int;
                assert(self.score == sat_add(a, g));
                assert(g >= 0) by {
                    lemma_gain_nonneg(bs, es, i as int);
                }
                if self.score > u64::MAX - pts {
                    self.score = u64::MAX;
                    assert(a + g + pts > u64::MAX);
                } else {
                    assert(a + g <= u64::MAX);
                    self.score = self.score + pts;
                }
                assert(self.score == sat_add(a, g + pts));
                assert(gain(bs, es, i as int + 1) == gain(bs, es, i as int) + points_of(es[t as int].kind));
                let blast = Blast { x: e.x + e.w / 2, y: e.y + e.h / 2, color: e.kind.color() };
                assert(blast == enemy_blast(es[t as int]));
                assert(blast.bounded()) by {
                    match e.kind {
                        EnemyKind::Basic => {},
                        EnemyKind::Fast => {},
                        EnemyKind::Strong => {},
                    }
                }
                self.create_explosion(blast, sparks, used * BURST);
                proof {
                    lemma_bursts_push(bl0, blast, sparks@);
                    assert(blasts_of(bs, es, p, i as int + 1) == bl0.push(blast));
                }
                used = used + 1;
            } else if !b.from_player && rectangles_overlap(
                b.x, b.y, b.w, b.h, self.player.x, self.player.y, self.player.w, self.player.h,
            ) {
                assert(strikes(bs[i as int], p));
                self.lives = self.lives - 1;
                let q = self.player;
                let blast = Blast { x: q.x + q.w / 2, y: q.y + q.h / 2, color: Rgb::white() };
                assert(blast == player_blast(p));
                self.create_explosion(blast, sparks, used * BURST);
                proof {
                    lemma_bursts_push(bl0, blast, sparks@);
                    assert(blasts_of(bs, es, p, i as int + 1) == bl0.push(blast));
                }
                used = used + 1;
            } else {
                out.push(b);
                assert(!spent(bs[i as int], es, p));
                assert(blasts_of(bs, es, p, i as int + 1) =~= bl0);
            }
            proof {
                assert(survivors(bs, es, p, i as int + 1) =~= survivors(bs, es, p, i as int) + if spent(bs[i as int], es, p) {
                    Seq::<Bullet>::empty()
                } else {
                    seq![bs[i as int]]
                });
                assert forall|k: int| 0 <= k < out@.len() implies (#[trigger] out@[k]).bounded() by {
                    if k == out@.len() - 1 && !spent(bs[i as int], es, p) {
                        assert(out@[k] == bs[i as int]);
                    }
                }
            }
            i = i + 1;
        }
        self.bullets = out;
        proof {
            assert forall|j: int| 0 <= j < m implies (#[trigger] self.enemies@[j]).bounded() by {
                assert(es[j].bounded());
            }
        }
    }

    /// Adds the batch of particles of one explosion, all at its point, each
    /// from one of the sparks `from` to `from + BURST - 1`, with the base
    /// color shifted by the spark's jitter.
    pub fn create_explosion(&mut self, blast: Blast, sparks: &Vec<Spark>, from: usize)
        requires
            old(self).bounded(),
            blast.bounded(),
            from + BURST <= sparks@.len(),
            forall|i: int| 0 <= i < sparks@.len() ==> (#[trigger] sparks@[i]).valid(),
        ensures
            final(self).bounded(),
            final(self).particles@ == old(self).particles@ + Seq::new(BURST as nat, |j: int| spark_particle(blast, sparks@[from + j])),
            final(self).player == old(self).player,
            final(self).enemies@ == old(self).enemies@,
            final(self).bullets@ == old(self).bullets@,
            final(self).score == old(self).score,
            final(self).lives == old(self).lives,
            final(self).game_over == old(self).game_over,
            final(self).wave == old(self).wave,
            final(self).direction == old(self).direction,
            final(self).shoot_timer == old(self).shoot_timer,
    {
        let ns = sparks.len();
        let mut i: usize = 0;
        while i < BURST
            invariant
                ns == sparks@.len(),
                i <= BURST,
                from + BURST <= sparks@.len(),
                blast.bounded(),
                forall|k: int| 0 <= k < sparks@.len() ==> (#[trigger] sparks@[k]).valid(),
                self.particles@ == old(self).particles@ + Seq::new(i as nat, |j: int| spark_particle(blast, sparks@[from + j])),
                forall|k: int| 0 <= k < self.particles@.len() ==> (#[trigger] self.particles@[k]).bounded(),
                self.player == old(self).player,
                self.enemies@ == old(self).enemies@,
                self.bullets@ == old(self).bullets@,
                self.score == old(self).score,
                self.lives == old(self).lives,
                self.game_over == old(self).game_over,
                self.wave == old(self).wave,
                self.direction == old(self).direction,
                self.shoot_timer == old(self).shoot_timer,
            decreases BURST - i,
        {
            let s = sparks[from + i];
            assert(s.valid());
            let q = Particle {
                x: blast.x,
                y: blast.y,
                vx: s.vx,
                vy: s.vy,
                color: Rgb { r: blast.color.r + s.dr, g: blast.color.g + s.dg, b: blast.color.b + s.db },
                lifetime: s.lifetime,
                max_lifetime: MAX_LIFETIME,
            };
            assert(q == spark_particle(blast, sparks@[from + i]));
            self.particles.push(q);
            proof {
                assert(Seq::new((i + 1) as nat, |j: int| spark_particle(blast, sparks@[from + j]))
                    =~= Seq::new(i as nat, |j: int| spark_particle(blast, sparks@[from + j])).push(q));
                assert(self.particles@ =~= old(self).particles@ + Seq::new((i + 1) as nat, |j: int| spark_particle(blast, sparks@[from + j])));
            }
            i = i + 1;
        }
    }

    /// Some enemy is alive.
    pub fn any_alive(&self) -> (r: bool)
        ensures
            r == any_alive(self.enemies@),
    {
        let mut i: usize = 0;
        while i < self.enemies.len()
            invariant
                i <= self.enemies@.len(),
                forall|j: int| 0 <= j < i ==> !(#[trigger] self.enemies@[j]).alive,
            decreases self.enemies@.len() - i,
        {
            if self.enemies[i].alive {
                return true;
            }
            i = i + 1;
        }
        false
    }

    /// Some alive enemy's bottom edge has reached the player's top edge.
    pub fn overrun(&self) -> (r: bool)
        requires
            self.bounded(),
        ensures
            r == overrun(self.enemies@, self.player),
    {
        let mut i: usize = 0;
        while i < self.enemies.len()
            invariant
                i <= self.enemies@.len(),
                self.bounded(),
                forall|j: int| 0 <= j < i ==> !((#[trigger] self.enemies@[j]).alive && self.enemies@[j].y + self.enemies@[j].h >= self.player.y),
            decreases self.enemies@.len() - i,
        {
            let e = self.enemies[i];
            assert(e.bounded());
            if e.alive && e.y + e.h >= self.player.y {
                return true;
            }
            i = i + 1;
        }
        false
    }

    /// Ends the game when no life is left. Otherwise a cleared formation
    /// starts the next wave, with a fresh grid and a bonus; and an enemy that
    /// has reached the player's height ends the game.
    pub fn check_game_state(&mut self)
        requires
            old(self).bounded(),
            old(self).wave < u32::MAX,
        ensures
            final(self).bounded(),
            state_step(*old(self), *final(self)),
    {
        if self.lives <= 0 {
            self.game_over = true;
        } else {
            if !self.any_alive() {
                self.wave = self.wave + 1;
                self.spawn_enemies();
                if self.score > u64::MAX - WAVE_BONUS {
                    self.score = u64::MAX;
                } else {
                    self.score = self.score + WAVE_BONUS;
                }
            }
            if self.overrun() {
                self.game_over = true;
            }
        }
    }

    /// One frame of the game, in order: player control, projectiles,
    /// formation and enemy fire, particles, hits, and the end-of-wave and
    /// end-of-game check. Does nothing once the game is over. The explosions
    /// of the hits take their particles from `sparks`, ten per explosion, in
    /// order; there must be enough for one explosion per projectile in play.
    ///
    /// With no elapsed time nothing moves: the player stays where it is when
    /// already on screen, the formation stays unless it is at a side, and,
    /// when no projectile is already on a target, score, lives and enemies
    /// are kept.
    #[verifier::spinoff_prover]
    pub fn advance(&mut self, dt: u32, screen: Screen, controls: Controls, sparks: &Vec<Spark>)
        requires
            old(self).wf(),
            screen.valid(),
            old(self).player.w <= screen.width,
            old(self).wave < u32::MAX,
            sparks@.len() >= BURST * (old(self).bullets@.len() + 2),
            forall|i: int| 0 <= i < sparks@.len() ==> (#[trigger] sparks@[i]).valid(),
        ensures
            final(self).wf(),
            old(self).game_over ==> final(self).player == old(self).player
                && final(self).enemies@ == old(self).enemies@
                && final(self).bullets@ == old(self).bullets@
                && final(self).particles@ == old(self).particles@
                && final(self).score == old(self).score
                && final(self).lives == old(self).lives
                && final(self).game_over
                && final(self).wave == old(self).wave
                && final(self).direction == old(self).direction
                && final(self).shoot_timer == old(self).shoot_timer,
            !old(self).game_over ==> exists|a: GameState, b: GameState, c: GameState, d: GameState, e: GameState|
                player_step(*old(self), a, dt, screen, controls)
                && bullet_step(a, b, dt, screen)
                && enemy_step(b, c, dt, screen)
                && particle_step(c, d, dt)
                && collision_step(d, e, sparks@)
                && state_step(e, *final(self)),
            !old(self).game_over ==> 0 <= final(self).player.x <= screen.width - final(self).player.w
                && final(self).player == (Player { x: final(self).player.x, ..old(self).player })
                && final(self).game_over == (final(self).lives <= 0 || overrun(final(self).enemies@, final(self).player))
                && final(self).score >= old(self).score
                && final(self).lives <= old(self).lives
                && (final(self).wave == old(self).wave || final(self).wave == old(self).wave + 1),
            !old(self).game_over && dt == 0 && 0 <= old(self).player.x && old(self).player.x <= screen.width - old(self).player.w
                ==> final(self).player == old(self).player,
            !old(self).game_over && dt == 0 && !at_edge(old(self).enemies@, old(self).direction as int, screen.width as int)
                && final(self).wave == old(self).wave ==> forall|j: int| 0 <= j < ROSTER ==>
                    (#[trigger] final(self).enemies@[j]).x == old(self).enemies@[j].x
                    && final(self).enemies@[j].y == old(self).enemies@[j].y,
            !old(self).game_over && dt == 0 && 0 <= old(self).player.x && old(self).player.x <= screen.width - old(self).player.w
                && !at_edge(old(self).enemies@, old(self).direction as int, screen.width as int)
                && any_alive(old(self).enemies@)
                && (forall|i: int| 0 <= i < old(self).bullets@.len() ==> #[trigger] target_of(old(self).bullets@[i], old(self).enemies@) >= ROSTER
                    && !strikes(old(self).bullets@[i], old(self).player))
                ==> final(self).score == old(self).score && final(self).lives == old(self).lives
                    && final(self).enemies@ == old(self).enemies@,
    {
        if self.game_over {
            return;
        }
        let ns = sparks.len();
        self.update_player(dt, screen, controls);
        let ghost sa = *self;
        let ghost fired = self.bullets@;
        proof {
            lemma_shift_bound(old(self).player.speed as int, dt as int, SIZE_LIM as int);
        }
        self.update_bullets(dt, screen);
        let ghost sb = *self;
        proof {
            law_shots_only_culled(fired, dt as int, screen);
        }
        let ghost before = self.enemies@;
        let ghost shots = self.bullets@;
        self.update_enemies(dt, screen);
        let ghost sc = *self;
        proof {
            if dt == 0 && !at_edge(before, old(self).direction as int, screen.width as int) {
                assert forall|j: int| 0 <= j < ROSTER implies (#[trigger] self.enemies@[j]).x == before[j].x
                    && self.enemies@[j].y == before[j].y by {
                    lemma_shift_bound(before[j].speed as int, 0, ENEMY_SPEED_LIM as int);
                    assert(self.enemies@[j] == marched(before[j], false, old(self).direction as int, 0));
                }
            }
        }
        let ghost moved = self.enemies@;
        self.update_particles(dt);
        let ghost pre = *self;
        let ghost es = old(self).enemies@;
        let ghost p = old(self).player;
        let ghost quiet = dt == 0 && 0 <= p.x && p.x <= screen.width - p.w
            && !at_edge(es, old(self).direction as int, screen.width as int) && any_alive(es)
            && (forall|i: int| 0 <= i < old(self).bullets@.len() ==> #[trigger] target_of(old(self).bullets@[i], es) >= ROSTER
                && !strikes(old(self).bullets@[i], p));
        assert(quiet ==> pre.enemies@ == es && pre.score == old(self).score && pre.lives == old(self).lives
            && pre.player == p
            && gain(pre.bullets@, es, pre.bullets@.len() as int) == 0
            && (forall|j: int| 0 <= j < es.len() ==> !#[trigger] destroyed(pre.bullets@, es, j, pre.bullets@.len() as int))
            && strike_count(pre.bullets@, p, pre.bullets@.len() as int) == 0) by {
            if quiet {
                lemma_shift_bound(p.speed as int, 0, SIZE_LIM as int);
                assert(self.player == p);
                assert forall|j: int| 0 <= j < ROSTER implies #[trigger] self.enemies@[j] == es[j] by {
                    lemma_shift_bound(es[j].speed as int, 0, ENEMY_SPEED_LIM as int);
                    assert(self.enemies@[j] == marched(es[j], false, old(self).direction as int, 0));
                }
                assert(self.enemies@ =~= es);
                assert(self.bullets@ == shots);
                assert(shots == advanced_shots(fired, 0, screen));
                lemma_quiet_shots(old(self).bullets@, fired, es, p, screen);
                let bs = self.bullets@;
                lemma_no_target(bs, es, p, bs.len() as int);
            }
        }
        self.check_collisions(sparks);
        let ghost se = *self;
        assert(quiet ==> self.enemies@ == es && self.score == old(self).score && self.lives == old(self).lives) by {
            if quiet {
                assert forall|j: int| 0 <= j < ROSTER implies #[trigger] self.enemies@[j] == es[j] by {
                    assert(!destroyed(pre.bullets@, es, j, pre.bullets@.len() as int));
                }
                assert(self.enemies@ =~= es);
            }
        }
        proof {
            lemma_gain_nonneg(pre.bullets@, pre.enemies@, pre.bullets@.len() as int);
            lemma_strike_count_nonneg(pre.bullets@, pre.player, pre.bullets@.len() as int);
        }
        let ghost mid = *self;
        self.check_game_state();
        assert(quiet ==> self.enemies@ == es && self.score == old(self).score && self.lives == old(self).lives) by {
            if quiet {
                assert(mid.lives > 0);
                assert(any_alive(mid.enemies@));
            }
        }
        proof {
            if !self.game_over {
                assert(self.lives > 0);
            }
            if mid.lives > 0 && any_alive(mid.enemies@) {
                assert(self.enemies@ == mid.enemies@);
            }
            if self.wave == old(self).wave {
                assert(self.enemies@ == mid.enemies@);
                assert forall|j: int| 0 <= j < ROSTER implies (#[trigger] self.enemies@[j]).x == moved[j].x
                    && self.enemies@[j].y == moved[j].y by {
                }
            }
            assert(player_step(*old(self), sa, dt, screen, controls));
            assert(bullet_step(sa, sb, dt, screen));
            assert(enemy_step(sb, sc, dt, screen));
            assert(particle_step(sc, pre, dt));
            assert(collision_step(pre, se, sparks@));
            assert(state_step(se, *self));
        }
    }
}

/// With no elapsed time, every projectile that stays is one that was there.
pub proof fn lemma_still_shots(bs: Seq<Bullet>, screen: Screen)
    ensures
        advanced_shots(bs, 0, screen).len() <= bs.len(),
        forall|k: int| 0 <= k < advanced_shots(bs, 0, screen).len() ==> exists|i: int|
            0 <= i < bs.len() && #[trigger] advanced_shots(bs, 0, screen)[k] == bs[i],
    decreases bs.len(),
{
    if bs.len() > 0 {
        let rest = bs.drop_last();
        lemma_still_shots(rest, screen);
        lemma_shift_bound(bs.last().vy as int, 0, abs(bs.last().vy as int));
        assert(moved_shot(bs.last(), 0) =~= bs.last());
        let a = advanced_shots(bs, 0, screen);
        let r = advanced_shots(rest, 0, screen);
        assert forall|k: int| 0 <= k < a.len() implies exists|i: int| 0 <= i < bs.len() && #[trigger] a[k] == bs[i] by {
            if k < r.len() {
                assert(a[k] == r[k]);
                let i = choose|i: int| 0 <= i < rest.len() && #[trigger] r[k] == rest[i];
                assert(a[k] == bs[i]);
            } else {
                assert(a[k] == bs[bs.len() - 1]);
            }
        }
    }
}

/// A projectile that meets no alive enemy hits none.
pub proof fn lemma_no_hit(b: Bullet, es: Seq<Enemy>, j: int)
    requires
        0 <= j,
        forall|i: int| 0 <= i < es.len() ==> !hits(b, #[trigger] es[i]),
    ensures
        first_hit_from(b, es, j) == es.len(),
    decreases es.len() - j,
{
    if j < es.len() {
        lemma_no_hit(b, es, j + 1);
    }
}

/// When no projectile would destroy an enemy or strike the player, none of
/// them does after one more fired by the player and a tick without time.
pub proof fn lemma_quiet_shots(olds: Seq<Bullet>, fired: Seq<Bullet>, es: Seq<Enemy>, p: Player, screen: Screen)
    requires
        fired == olds || fired == olds.push(player_shot(p)),
        !overrun(es, p),
        forall|i: int| 0 <= i < olds.len() ==> #[trigger] target_of(olds[i], es) >= es.len() && !strikes(olds[i], p),
    ensures
        forall|i: int| 0 <= i < advanced_shots(fired, 0, screen).len() ==> #[trigger] target_of(advanced_shots(fired, 0, screen)[i], es) >= es.len()
            && !strikes(advanced_shots(fired, 0, screen)[i], p),
{
    assert forall|i: int| 0 <= i < fired.len() implies #[trigger] target_of(fired[i], es) >= es.len() && !strikes(fired[i], p) by {
        if i >= olds.len() {
            let b = player_shot(p);
            assert(fired[i] == b);
            assert forall|k: int| 0 <= k < es.len() implies !hits(b, #[trigger] es[k]) by {
                if es[k].alive {
                    assert(!(es[k].y + es[k].h >= p.y));
                }
            }
            lemma_no_hit(b, es, 0);
        } else {
            assert(fired[i] == olds[i]);
        }
    }
    lemma_still_shots(fired, screen);
    let a = advanced_shots(fired, 0, screen);
    assert forall|i: int| 0 <= i < a.len() implies #[trigger] target_of(a[i], es) >= es.len() && !strikes(a[i], p) by {
        let k = choose|k: int| 0 <= k < fired.len() && #[trigger] a[i] == fired[k];
        assert(target_of(fired[k], es) >= es.len());
    }
}

/// Projectiles that destroy nothing and strike nothing score nothing,
/// destroy no enemy, cost no life and cause no explosion.
pub proof fn lemma_no_target(bs: Seq<Bullet>, es: Seq<Enemy>, p: Player, n: int)
    requires
        n <= bs.len(),
        forall|i: int| 0 <= i < bs.len() ==> #[trigger] target_of(bs[i], es) >= es.len() && !strikes(bs[i], p),
    ensures
        gain(bs, es, n) == 0,
        strike_count(bs, p, n) == 0,
        blasts_of(bs, es, p, n).len() == 0,
        forall|j: int| 0 <= j < es.len() ==> !#[trigger] destroyed(bs, es, j, n),
    decreases n,
{
    if n > 0 {
        lemma_no_target(bs, es, p, n - 1);
        assert(target_of(bs[n - 1], es) >= es.len() && !strikes(bs[n - 1], p));
        assert forall|j: int| 0 <= j < es.len() implies !#[trigger] destroyed(bs, es, j, n) by {
            assert(!destroyed(bs, es, j, n - 1));
        }
    }
}

/// Lives lost to strikes are never negative.
pub proof fn lemma_strike_count_nonneg(bs: Seq<Bullet>, p: Player, n: int)
    ensures
        0 <= strike_count(bs, p, n),
    decreases n,
{
    if n > 0 {
        lemma_strike_count_nonneg(bs, p, n - 1);
    }
}

/// One more explosion adds its batch after those of the earlier ones.
pub proof fn lemma_bursts_push(bl: Seq<Blast>, x: Blast, sp: Seq<Spark>)
    ensures
        bursts(bl.push(x), sp) =~= bursts(bl, sp) + Seq::new(BURST as nat, |j: int| spark_particle(x, sp[BURST * bl.len() + j])),
{
    let l = bl.len() as int;
    let lhs = bursts(bl.push(x), sp);
    let rhs = bursts(bl, sp) + Seq::new(BURST as nat, |j: int| spark_particle(x, sp[BURST * bl.len() + j]));
    assert(lhs.len() == rhs.len());
    assert forall|i: int| 0 <= i < lhs.len() implies lhs[i] == rhs[i] by {
        if i < 10 * l {
            assert(i / 10 < l) by (nonlinear_arith) requires 0 <= i < 10 * l;
            assert(0 <= i / 10) by (nonlinear_arith) requires 0 <= i;
        } else {
            assert(i / 10 == l) by (nonlinear_arith) requires 10 * l <= i < 10 * l + 10;
        }
    }
}

/// Scores are never negative.
pub proof fn lemma_gain_nonneg(bs: Seq<Bullet>, es: Seq<Enemy>, n: int)
    ensures
        gain(bs, es, n) >= 0,
    decreases n,
{
    if n > 0 {
        lemma_gain_nonneg(bs, es, n - 1);
    }
}

/// The first hit lies in the roster and is a hit.
pub proof fn lemma_first_hit_range(b: Bullet, es: Seq<Enemy>, j: int)
    requires
        0 <= j,
    ensures
        first_hit_from(b, es, j) <= es.len(),
        first_hit_from(b, es, j) < es.len() ==> hits(b, es[first_hit_from(b, es, j)]),
    decreases es.len() - j,
{
    if j < es.len() && !hits(b, es[j]) {
        lemma_first_hit_range(b, es, j + 1);
    }
}

} // verus!
