use vstd::prelude::*;

verus! {

/// Milli-pixels in one pixel.
pub const MPX: i64 = 1000;
/// Microseconds in one second.
pub const US_PER_SEC: i64 = 1_000_000;

/// Largest absolute coordinate of the player.
pub const COORD_LIM: i64 = 0x1000_0000_0000_0000;
/// Largest absolute coordinate of an enemy.
pub const ENEMY_LIM: i64 = 0x2000_0000_0000_0000;
/// Largest absolute coordinate of a projectile.
pub const SHOT_LIM: i64 = 0x4000_0000_0000_0000;
/// Largest size of any entity.
pub const SIZE_LIM: i64 = 0x10_0000;
/// Largest speed of an enemy (exclusive).
pub const ENEMY_SPEED_LIM: i64 = 0x4000_0000_0000;
/// Largest screen dimension.
pub const SCREEN_LIM: i64 = 0x400_0000_0000;

pub const PLAYER_START_X: i64 = 400_000;
pub const PLAYER_START_Y: i64 = 550_000;
pub const PLAYER_W: i64 = 50_000;
pub const PLAYER_H: i64 = 30_000;
pub const PLAYER_SPEED: i64 = 300_000;

pub const ROWS: usize = 5;
pub const COLS: usize = 10;
/// Number of enemies in a freshly spawned formation.
pub const ROSTER: usize = 50;
pub const GRID_ORIGIN: i64 = 50_000;
pub const COL_SPACING: i64 = 70_000;
pub const ROW_SPACING: i64 = 50_000;
pub const ENEMY_W: i64 = 40_000;
pub const ENEMY_H: i64 = 30_000;
pub const ENEMY_BASE_SPEED: i64 = 50_000;
pub const ENEMY_WAVE_SPEED: i64 = 10_000;
/// How far the formation descends when it reaches a side of the screen.
pub const STEP_DOWN: i64 = 30_000;

pub const SHOT_W: i64 = 4_000;
pub const SHOT_H: i64 = 10_000;
/// Horizontal offset from a shooter's center to the projectile's left edge.
pub const MUZZLE: i64 = 2_000;
pub const PLAYER_SHOT_VY: i64 = -500_000;
pub const ENEMY_SHOT_VY: i64 = 200_000;
/// Projectiles further than this outside the screen's height are dropped.
pub const CULL_MARGIN: i64 = 10_000;

/// Time between two enemy volleys.
pub const FIRE_INTERVAL: u64 = 2_000_000;
/// Particles in one explosion.
pub const BURST: usize = 10;
/// Reference lifetime used to fade a particle.
pub const MAX_LIFETIME: i64 = 1_000_000;
pub const SPARK_LIFE_MIN: i64 = 500_000;
pub const SPARK_LIFE_MAX: i64 = 1_500_000;
/// Largest absolute velocity component of a particle.
pub const SPARK_SPEED_MAX: i64 = 150_000;
/// Largest absolute color jitter of a particle, in thousandths.
pub const SPARK_JITTER: i64 = 200;
/// Full color intensity, in thousandths.
pub const FULL: i64 = 1000;

pub const WAVE_BONUS: u64 = 100;

/// A color, each channel in thousandths.
#[derive(Clone, Copy, Debug, PartialEq, Eq, Structural)]
pub struct Rgb {
    pub r: i64,
    pub g: i64,
    pub b: i64,
}

impl Rgb {
    pub open spec fn is_base(self) -> bool {
        0 <= self.r <= FULL && 0 <= self.g <= FULL && 0 <= self.b <= FULL
    }
}

pub open spec fn red() -> Rgb {
    Rgb { r: 900, g: 160, b: 220 }
}

pub open spec fn yellow() -> Rgb {
    Rgb { r: 990, g: 980, b: 0 }
}

pub open spec fn blue() -> Rgb {
    Rgb { r: 0, g: 470, b: 950 }
}

pub open spec fn white() -> Rgb {
    Rgb { r: 1000, g: 1000, b: 1000 }
}

impl Rgb {
    pub fn white() -> (c: Rgb)
        ensures
            c == white(),
    {
        Rgb { r: 1000, g: 1000, b: 1000 }
    }
}

/// The category of an enemy, fixed when it spawns.
#[derive(Clone, Copy, Debug, PartialEq, Eq, Structural)]
pub enum EnemyKind {
    Basic,
    Fast,
    Strong,
}

pub open spec fn points_of(k: EnemyKind) -> u64 {
    match k {
        EnemyKind::Basic => 10,
        EnemyKind::Fast => 20,
        EnemyKind::Strong => 30,
    }
}

pub open spec fn color_of(k: EnemyKind) -> Rgb {
    match k {
        EnemyKind::Basic => blue(),
        EnemyKind::Fast => yellow(),
        EnemyKind::Strong => red(),
    }
}

/// Rows 0 and 1 are Strong, rows 2 and 3 Fast, the rest Basic.
pub open spec fn kind_of_row(row: int) -> EnemyKind {
    if row <= 1 {
        EnemyKind::Strong
    } else if row <= 3 {
        EnemyKind::Fast
    } else {
        EnemyKind::Basic
    }
}

impl EnemyKind {
    /// Score for destroying an enemy of this kind.
    pub fn points(&self) -> (r: u64)
        ensures
            r == points_of(*self),
    {
        match self {
            EnemyKind::Basic => 10,
            EnemyKind::Fast => 20,
            EnemyKind::Strong => 30,
        }
    }

    pub fn color(&self) -> (r: Rgb)
        ensures
            r == color_of(*self),
    {
        match self {
            EnemyKind::Basic => Rgb { r: 0, g: 470, b: 950 },
            EnemyKind::Fast => Rgb { r: 990, g: 980, b: 0 },
            EnemyKind::Strong => Rgb { r: 900, g: 160, b: 220 },
        }
    }

    pub fn of_row(row: usize) -> (r: EnemyKind)
        ensures
            r == kind_of_row(row as int),
    {
        if row <= 1 {
            EnemyKind::Strong
        } else if row <= 3 {
            EnemyKind::Fast
        } else {
            EnemyKind::Basic
        }
    }
}

#[derive(Clone, Copy, Debug, PartialEq, Eq, Structural)]
pub struct Player {
    pub x: i64,
    pub y: i64,
    pub w: i64,
    pub h: i64,
    pub speed: i64,
}

impl Player {
    pub open spec fn bounded(self) -> bool {
        -COORD_LIM <= self.x <= COORD_LIM && -COORD_LIM <= self.y <= COORD_LIM
            && 0 <= self.w <= SIZE_LIM && 0 <= self.h <= SIZE_LIM
            && 0 <= self.speed <= SIZE_LIM
    }
}

#[derive(Clone, Copy, Debug, PartialEq, Eq, Structural)]
pub struct Enemy {
    pub x: i64,
    pub y: i64,
    pub w: i64,
    pub h: i64,
    pub speed: i64,
    pub alive: bool,
    pub kind: EnemyKind,
}

impl Enemy {
    pub open spec fn bounded(self) -> bool {
        -COORD_LIM <= self.x <= COORD_LIM && -ENEMY_LIM <= self.y <= ENEMY_LIM
            && 0 <= self.w <= SIZE_LIM && 0 <= self.h <= SIZE_LIM
            && 0 <= self.speed < ENEMY_SPEED_LIM
    }
}

/// A projectile; it travels vertically.
#[derive(Clone, Copy, Debug, PartialEq, Eq, Structural)]
pub struct Bullet {
    pub x: i64,
    pub y: i64,
    pub w: i64,
    pub h: i64,
    pub vy: i64,
    pub from_player: bool,
}

impl Bullet {
    pub open spec fn bounded(self) -> bool {
        -SHOT_LIM <= self.x <= SHOT_LIM && -SHOT_LIM <= self.y <= SHOT_LIM
            && 0 <= self.w <= SIZE_LIM && 0 <= self.h <= SIZE_LIM
            && -SIZE_LIM <= self.vy <= SIZE_LIM
    }
}

#[derive(Clone, Copy, Debug, PartialEq, Eq, Structural)]
pub struct Particle {
    pub x: i64,
    pub y: i64,
    pub vx: i64,
    pub vy: i64,
    pub color: Rgb,
    pub lifetime: i64,
    pub max_lifetime: i64,
}

pub open spec fn abs(v: int) -> int {
    if v < 0 { -v } else { v }
}

impl Particle {
    /// A live particle travels at most a quarter milli-pixel per microsecond,
    /// so its remaining lifetime bounds how far it can still go.
    pub open spec fn bounded(self) -> bool {
        0 < self.lifetime <= SPARK_LIFE_MAX
            && 4 * abs(self.x as int) + self.lifetime <= 4 * SHOT_LIM as int
            && 4 * abs(self.y as int) + self.lifetime <= 4 * SHOT_LIM as int
            && abs(self.vx as int) <= SPARK_SPEED_MAX
            && abs(self.vy as int) <= SPARK_SPEED_MAX
    }
}

/// The random parameters of one particle of an explosion.
#[derive(Clone, Copy, Debug, PartialEq, Eq, Structural)]
pub struct Spark {
    pub vx: i64,
    pub vy: i64,
    pub dr: i64,
    pub dg: i64,
    pub db: i64,
    pub lifetime: i64,
}

impl Spark {
    pub open spec fn valid(self) -> bool {
        abs(self.vx as int) <= SPARK_SPEED_MAX && abs(self.vy as int) <= SPARK_SPEED_MAX
            && abs(self.dr as int) <= SPARK_JITTER && abs(self.dg as int) <= SPARK_JITTER
            && abs(self.db as int) <= SPARK_JITTER
            && SPARK_LIFE_MIN <= self.lifetime <= SPARK_LIFE_MAX
    }
}

/// An explosion: the point its particles start from and their base color.
#[derive(Clone, Copy, Debug, PartialEq, Eq, Structural)]
pub struct Blast {
    pub x: i64,
    pub y: i64,
    pub color: Rgb,
}

impl Blast {
    pub open spec fn bounded(self) -> bool {
        abs(self.x as int) <= ENEMY_LIM + SIZE_LIM && abs(self.y as int) <= ENEMY_LIM + SIZE_LIM
            && self.color.is_base()
    }
}

/// Live screen dimensions.
#[derive(Clone, Copy, Debug, PartialEq, Eq, Structural)]
pub struct Screen {
    pub width: i64,
    pub height: i64,
}

impl Screen {
    pub open spec fn valid(self) -> bool {
        0 <= self.width <= SCREEN_LIM && 0 <= self.height <= SCREEN_LIM
    }
}

/// Inputs of one frame: movement held, and fire pressed this frame.
#[derive(Clone, Copy, Debug, PartialEq, Eq, Structural)]
pub struct Controls {
    pub left: bool,
    pub right: bool,
    pub fire: bool,
}

/// Axis-aligned overlap of two rectangles given by top-left corner and size.
pub open spec fn overlap(
    x1: int, y1: int, w1: int, h1: int,
    x2: int, y2: int, w2: int, h2: int,
) -> bool {
    x1 < x2 + w2 && x1 + w1 > x2 && y1 < y2 + h2 && y1 + h1 > y2
}

pub fn rectangles_overlap(
    x1: i64, y1: i64, w1: i64, h1: i64,
    x2: i64, y2: i64, w2: i64, h2: i64,
) -> (r: bool)
    requires
        abs(x1 as int) <= SHOT_LIM, abs(y1 as int) <= SHOT_LIM,
        abs(x2 as int) <= SHOT_LIM, abs(y2 as int) <= SHOT_LIM,
        0 <= w1 <= SIZE_LIM, 0 <= h1 <= SIZE_LIM,
        0 <= w2 <= SIZE_LIM, 0 <= h2 <= SIZE_LIM,
    ensures
        r == overlap(x1 as int, y1 as int, w1 as int, h1 as int, x2 as int, y2 as int, w2 as int, h2 as int),
{
    x1 < x2 + w2 && x1 + w1 > x2 && y1 < y2 + h2 && y1 + h1 > y2
}

/// Distance covered in `dt` microseconds at velocity `v` per second, rounded
/// toward zero.
pub open spec fn shift(v: int, dt: int) -> int {
    if v * dt >= 0 {
        (v * dt) / (US_PER_SEC as int)
    } else {
        -((-(v * dt)) / (US_PER_SEC as int))
    }
}

pub proof fn lemma_shift_bound(v: int, dt: int, vmax: int)
    requires
        abs(v) <= vmax,
        0 <= dt,
    ensures
        abs(shift(v, dt)) * US_PER_SEC <= vmax * dt,
        abs(shift(v, dt)) <= abs(v * dt),
        v == 0 || dt == 0 ==> shift(v, dt) == 0,
{
    let p = v * dt;
    assert(abs(p) <= vmax * dt) by (nonlinear_arith)
        requires abs(v) <= vmax, 0 <= dt, p == v * dt;
    if p >= 0 {
        assert((p / 1_000_000) * 1_000_000 <= p) by (nonlinear_arith) requires p >= 0;
        assert(p / 1_000_000 <= p) by (nonlinear_arith) requires p >= 0;
    } else {
        let q = -p;
        assert((q / 1_000_000) * 1_000_000 <= q) by (nonlinear_arith) requires q >= 0;
        assert(q / 1_000_000 <= q) by (nonlinear_arith) requires q >= 0;
        assert(q / 1_000_000 >= 0) by (nonlinear_arith) requires q >= 0;
    }
    if v == 0 || dt == 0 {
        assert(p == 0) by (nonlinear_arith) requires v == 0 || dt == 0, p == v * dt;
    }
}

/// Executable `shift`, for velocities below `2^46` per second.
pub fn displace(v: i64, dt: u32) -> (r: i64)
    requires
        abs(v as int) < ENEMY_SPEED_LIM,
    ensures
        r == shift(v as int, dt as int),
        abs(r as int) * US_PER_SEC <= abs(v as int) * dt,
{
    proof {
        lemma_shift_bound(v as int, dt as int, abs(v as int));
        assert(abs(v as int) * dt <= ENEMY_SPEED_LIM * 0x1_0000_0000) by (nonlinear_arith)
            requires abs(v as int) < ENEMY_SPEED_LIM, 0 <= dt <= 0xffff_ffff;
        assert(-(0x4000_0000_0000i128 * 0x1_0000_0000i128) <= v as int * dt as int <= 0x4000_0000_0000i128 * 0x1_0000_0000i128) by (nonlinear_arith)
            requires abs(v as int) < ENEMY_SPEED_LIM, 0 <= dt <= 0xffff_ffff;
    }
    let p: i128 = (v as i128) * (dt as i128);
    if p >= 0 {
        (p / 1_000_000) as i64
    } else {
        let q: i128 = -p;
        -((q / 1_000_000) as i64)
    }
}

/// Velocity after one tick of drag: 98 percent, rounded toward zero.
pub open spec fn damp(v: int) -> int {
    if v >= 0 {
        (v * 49) / 50
    } else {
        -(((-v) * 49) / 50)
    }
}

pub fn damped(v: i64) -> (r: i64)
    requires
        abs(v as int) <= SPARK_SPEED_MAX,
    ensures
        r == damp(v as int),
        abs(r as int) <= abs(v as int),
        v == 0 ==> r == 0,
{
    if v >= 0 {
        v * 49 / 50
    } else {
        -((-v) * 49 / 50)
    }
}

} // verus!
