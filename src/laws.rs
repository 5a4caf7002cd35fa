use vstd::prelude::*;
use crate::game::{
    advanced_shots, clamp, enemy_shot, grid_enemy, is_grid, marched,
    moved_particle, moved_shot, on_screen, player_shot, spent, steered_x, survivors,
};
use crate::world::{abs, lemma_shift_bound, Bullet, Controls, Enemy, Particle, Player, Screen, ROSTER};

verus! {

/// A projectile fired by the player starts upward and is tagged as the
/// player's; one fired by an enemy starts downward and is tagged as an
/// enemy's.
pub proof fn law_shot_direction(p: Player, e: Enemy)
    ensures
        player_shot(p).vy < 0,
        player_shot(p).from_player,
        enemy_shot(e).vy > 0,
        !enemy_shot(e).from_player,
{
}

/// Moving the projectiles never adds one, and removes one only when it
/// left the screen.
pub proof fn law_shots_only_culled(bs: Seq<Bullet>, dt: int, screen: Screen)
    ensures
        advanced_shots(bs, dt, screen).len() <= bs.len(),
        (forall|i: int| 0 <= i < bs.len() ==> on_screen(#[trigger] moved_shot(bs[i], dt), screen))
            ==> advanced_shots(bs, dt, screen).len() == bs.len(),
    decreases bs.len(),
{
    if bs.len() > 0 {
        let rest = bs.drop_last();
        assert forall|i: int| 0 <= i < rest.len() && (forall|i: int| 0 <= i < bs.len() ==> on_screen(#[trigger] moved_shot(bs[i], dt), screen))
            implies on_screen(#[trigger] moved_shot(rest[i], dt), screen) by {
            assert(rest[i] == bs[i]);
        }
        law_shots_only_culled(rest, dt, screen);
        if forall|i: int| 0 <= i < bs.len() ==> on_screen(#[trigger] moved_shot(bs[i], dt), screen) {
            assert(on_screen(moved_shot(bs[bs.len() - 1], dt), screen));
        }
    }
}

/// Resolving hits never adds a projectile, and keeps every one that
/// neither destroyed an enemy nor struck the player.
pub proof fn law_shots_only_spent(bs: Seq<Bullet>, es: Seq<Enemy>, p: Player, n: int)
    requires
        0 <= n <= bs.len(),
    ensures
        survivors(bs, es, p, n).len() <= n,
        (forall|i: int| 0 <= i < n ==> !spent(#[trigger] bs[i], es, p))
            ==> survivors(bs, es, p, n) == bs.subrange(0, n),
    decreases n,
{
    if n > 0 {
        law_shots_only_spent(bs, es, p, n - 1);
        if forall|i: int| 0 <= i < n ==> !spent(#[trigger] bs[i], es, p) {
            assert(!spent(bs[n - 1], es, p));
            assert(survivors(bs, es, p, n - 1) == bs.subrange(0, n - 1));
            assert(bs.subrange(0, n) =~= bs.subrange(0, n - 1).push(bs[n - 1]));
        }
    } else {
        assert(bs.subrange(0, 0) =~= Seq::<Bullet>::empty());
    }
}

/// A freshly spawned formation holds the full grid, every enemy alive.
pub proof fn law_fresh_grid_alive(es: Seq<Enemy>, wave: int)
    requires
        is_grid(es, wave),
    ensures
        es.len() == ROSTER,
        forall|i: int| 0 <= i < es.len() ==> (#[trigger] es[i]).alive,
{
    assert forall|i: int| 0 <= i < es.len() implies (#[trigger] es[i]).alive by {
        assert(es[i] == grid_enemy(i, wave));
    }
}

/// With no elapsed time nothing moves: the player stays where it is when it
/// is already on screen, projectiles and enemies keep their positions, and
/// particles keep their positions and lifetimes.
pub proof fn law_zero_time_still(p: Player, c: Controls, width: int, b: Bullet, e: Enemy, dir: int, q: Particle)
    requires
        0 <= p.x <= width - p.w,
    ensures
        clamp(steered_x(p, c, 0), 0, width - p.w) == p.x,
        moved_shot(b, 0) == b,
        marched(e, false, dir, 0) == e,
        moved_particle(q, 0).x == q.x,
        moved_particle(q, 0).y == q.y,
        moved_particle(q, 0).lifetime == q.lifetime,
{
    lemma_shift_bound(p.speed as int, 0, abs(p.speed as int));
    lemma_shift_bound(b.vy as int, 0, abs(b.vy as int));
    lemma_shift_bound(e.speed as int, 0, abs(e.speed as int));
    lemma_shift_bound(q.vx as int, 0, abs(q.vx as int));
    lemma_shift_bound(q.vy as int, 0, abs(q.vy as int));
    assert(moved_shot(b, 0) =~= b);
}

} // verus!
