//! The grenade: a thrown projectile with an armed/flying/detonated
//! lifecycle, drag integration, elastic bounce off characters and walls,
//! and a line-of-sight gated explosion resolver.

use vstd::prelude::*;

use crate::character::{Enemy, Health, Player, HEALTH_LIMIT};
use crate::geom::{
    closest_point_of_line_to_circle, closest_point_spec, div_trunc, div_trunc_i128, dot_wide,
    lemma_div_trunc_bound, lemma_mul_abs_bound, mul_i64, norm_sq, reflect, reflect_spec, Vec2,
    COORD_LIMIT, MU_PER_UNIT,
};
use crate::grid::{cast_hit, hit_normal, hit_point, Grid};
use crate::object::{Object, TICK_LIMIT_MS};

verus! {

/// Seconds-scale constants are all in milliseconds; distances in
/// milliunits; damage in thousandths of a hit point.
/// How long a detonated explosion stays alive before removal.
pub const EXPLOSION_LIFETIME_MS: u32 = 500;

/// The initial fuse of a freshly cocked grenade.
pub const GRENADE_FUSE_MS: u32 = 1500;

/// Blast radius: characters farther than this take no damage.
pub const RANGE_MU: i64 = 144_000;

/// Lethal ring: within this distance the high damage tier applies.
pub const LETHAL_RANGE_MU: i64 = 64_000;

/// Collision radius for a projectile grazing a character.
pub const HIT_RADIUS_MU: i64 = 16_000;

/// Throw speed, in world units per second.
pub const THROW_SPEED: i64 = 620;

/// High damage tier (inside the lethal ring), in thousandths.
pub const HIGH_DAMAGE_MILLI: i64 = 105_000;

/// Low damage tier, in thousandths.
pub const LOW_DAMAGE_MILLI: i64 = 55_000;

/// Fixed armor-penetration factor, in thousandths.
pub const PENETRATION_MILLI: i64 = 850;

/// The widest position the projectile integrators accept.
pub const ARENA_LIMIT: i64 = 0x20_0000_0000;

/// The fastest projectile velocity the integrators accept, in world units
/// per second.
pub const VEL_LIMIT: i64 = 0x400_0000;

/// Grenade ammunition held by a character.
#[derive(Debug, Default, Clone, Copy, PartialEq, Eq, Structural)]
pub struct Utilities {
    pub grenades: u8,
}

/// A thrown grenade: a body, a velocity, and its lifecycle state.
#[derive(Debug, Clone)]
pub struct Grenade {
    pub obj: Object,
    pub vel: Vec2,
    pub state: GrenadeState,
}

/// The grenade lifecycle, strictly ordered: cocked in the wielder's hand,
/// fused in flight, then the explosion until its lifetime elapses.
#[derive(Debug, Clone)]
pub enum GrenadeState {
    Cocked { fuse: u32 },
    Fused { fuse: u32 },
    Explosion { alive_time: u32, mesh: Vec<Vec2> },
}

/// What one tick of updating a grenade reports back to the owner.
#[derive(Debug, Clone)]
pub enum GrenadeUpdate {
    Thrown { fuse: u32 },
    Explosion { player_hit: bool, enemy_hits: Vec<usize> },
    Dead,
    Nothing,
}

/// Remaining fuse seconds of a state, zero once detonated.
pub open spec fn fuse_of(s: GrenadeState) -> int {
    match s {
        GrenadeState::Cocked { fuse } => fuse as int,
        GrenadeState::Fused { fuse } => fuse as int,
        GrenadeState::Explosion { .. } => 0,
    }
}

/// Lifecycle order: cocked before fused before exploded; a grenade never
/// moves backward through these.
pub open spec fn rank_of(s: GrenadeState) -> int {
    match s {
        GrenadeState::Cocked { .. } => 0,
        GrenadeState::Fused { .. } => 1,
        GrenadeState::Explosion { .. } => 2,
    }
}

/// Timer fields small enough that a tick cannot overflow them.
pub open spec fn wf_state(s: GrenadeState) -> bool {
    match s {
        GrenadeState::Cocked { fuse } => fuse <= 1_000_000_000,
        GrenadeState::Fused { fuse } => fuse <= 1_000_000_000,
        GrenadeState::Explosion { alive_time, .. } => alive_time <= 1_000_000_000,
    }
}

/// A pair of mathematical coordinates as a machine vector.
pub open spec fn vec2_of(x: int, y: int) -> Vec2 {
    Vec2 { x: x as i64, y: y as i64 }
}

/// The displacement from `start` to `target`.
pub open spec fn delta_to(start: Vec2, target: Vec2) -> Vec2 {
    vec2_of(target.x - start.x, target.y - start.y)
}

/// The effective damage one explosion deals a character it reaches:
/// the tier amount scaled by the armor-penetration factor.
pub open spec fn effective_damage(high: bool) -> int {
    div_trunc(
        (if high {
            HIGH_DAMAGE_MILLI as int
        } else {
            LOW_DAMAGE_MILLI as int
        }) * (PENETRATION_MILLI as int),
        1000,
    )
}

/// Whether an explosion at `start` damages a character at `target`: the
/// character must be strictly inside the blast radius and the straight
/// line between them must be unobstructed.
pub open spec fn damage_hits(g: Grid, start: Vec2, target: Vec2) -> bool {
    &&& norm_sq(delta_to(start, target)) < (RANGE_MU as int) * (RANGE_MU as int)
    &&& cast_hit(g, start, delta_to(start, target), true) is Full
}

/// The damage a reached character takes: the high tier inside the lethal
/// ring, the low tier otherwise.
pub open spec fn damage_amount(start: Vec2, target: Vec2) -> int {
    effective_damage(
        norm_sq(delta_to(start, target)) <= (LETHAL_RANGE_MU as int) * (LETHAL_RANGE_MU as int),
    )
}

/// How one explosion at `start` transforms the player and the enemies, and
/// what it reports: every character strictly inside the blast radius with
/// clear line of sight takes its tier's damage, nobody else is touched,
/// and the report lists the player flag and the hit enemy indices in
/// strictly descending order.
pub open spec fn explosion_applies(
    g: Grid,
    start: Vec2,
    p0: Player,
    p1: Player,
    es0: Seq<Enemy>,
    es1: Seq<Enemy>,
    u: GrenadeUpdate,
) -> bool {
    &&& p1.obj == p0.obj
    &&& p1.health.hp == p0.health.hp - (if damage_hits(g, start, p0.obj.pos) {
        damage_amount(start, p0.obj.pos)
    } else {
        0
    })
    &&& es1.len() == es0.len()
    &&& (forall|i: int| 0 <= i < es0.len() ==> (#[trigger] es1[i]).pl.obj == es0[i].pl.obj)
    &&& (forall|i: int|
        0 <= i < es0.len() ==> (#[trigger] es1[i]).pl.health.hp == es0[i].pl.health.hp - (
        if damage_hits(g, start, es0[i].pl.obj.pos) {
            damage_amount(start, es0[i].pl.obj.pos)
        } else {
            0
        }))
    &&& (match u {
        GrenadeUpdate::Explosion { player_hit, enemy_hits } => {
            &&& player_hit == damage_hits(g, start, p0.obj.pos)
            &&& (forall|j: int|
                0 <= j < enemy_hits@.len() ==> (#[trigger] enemy_hits@[j]) < es0.len()
                    && damage_hits(g, start, es0[enemy_hits@[j] as int].pl.obj.pos))
            &&& (forall|i: int|
                0 <= i < es0.len() && damage_hits(g, start, (#[trigger] es0[i]).pl.obj.pos)
                    ==> enemy_hits@.contains(i as usize))
            &&& (forall|j: int, k: int|
                0 <= j < k < enemy_hits@.len() ==> enemy_hits@[j] > enemy_hits@[k])
        },
        _ => false,
    })
}

/// The executable reflection's result as a vector.
pub open spec fn reflect_vec(v: Vec2, n: Vec2) -> Vec2 {
    vec2_of(reflect_spec(v, n).0, reflect_spec(v, n).1)
}

/// The closest point of this tick's travel segment to a character centre.
pub open spec fn closest_vec(s: Vec2, d: Vec2, c: Vec2) -> Vec2 {
    vec2_of(closest_point_spec(s, d, c).0, closest_point_spec(s, d, c).1)
}

/// The contact normal of a graze: from the closest-approach point to the
/// character's centre.
pub open spec fn graze_normal(s: Vec2, d: Vec2, c: Vec2) -> Vec2 {
    vec2_of(c.x - closest_vec(s, d, c).x, c.y - closest_vec(s, d, c).y)
}

/// Whether this tick's travel segment passes within the collision radius
/// of a character at `c`.
pub open spec fn grazes(s: Vec2, d: Vec2, c: Vec2) -> bool {
    norm_sq(graze_normal(s, d, c)) <= (HIT_RADIUS_MU as int) * (HIT_RADIUS_MU as int)
}

/// Where a projectile ends up after bouncing off the character at `c`: the
/// overshoot past the closest-approach point, mirrored about the contact
/// normal.
pub open spec fn bounce_pos(s: Vec2, d: Vec2, c: Vec2) -> Vec2 {
    let cp = closest_vec(s, d, c);
    let clip = vec2_of(s.x + d.x - cp.x, s.y + d.y - cp.y);
    let rn = graze_normal(s, d, c);
    vec2_of(cp.x + reflect_spec(clip, rn).0, cp.y + reflect_spec(clip, rn).1)
}

/// `k` is the first enemy (in storage order) this tick's travel grazes:
/// the collision check is first-hit-wins.
pub open spec fn graze_index(s: Vec2, d: Vec2, es: Seq<Enemy>, k: int) -> bool {
    &&& 0 <= k < es.len()
    &&& grazes(s, d, es[k].pl.obj.pos)
    &&& forall|j: int| 0 <= j < k ==> !(#[trigger] grazes(s, d, es[j].pl.obj.pos))
}

/// Velocity decay of the linear drag over one tick: `-1.4 * v * dt`, with
/// `dt` in milliseconds and a truncating fixed-point evaluation.
pub open spec fn drag_dvel(c: int, dt: int) -> int {
    div_trunc(-14 * (c * dt), 10000)
}

/// Midpoint-integrated displacement of the decayed velocity over one tick.
pub open spec fn drag_dpos(c: int, dt: int) -> int {
    c * dt + div_trunc(drag_dvel(c, dt) * dt, 2)
}

/// Outcome of the wall check: the position clips to the cast's point and,
/// when a boundary was struck, both the overshoot and the velocity are
/// mirrored about the contact normal (a degenerate zero normal leaves
/// them unchanged).
pub open spec fn wall_outcome(
    g: Grid,
    start: Vec2,
    dp: Vec2,
    v1: Vec2,
    pos1: Vec2,
    vel1: Vec2,
) -> bool {
    let h = cast_hit(g, start, dp, true);
    let pt = vec2_of(hit_point(start, dp, h).0, hit_point(start, dp, h).1);
    let clip = vec2_of(start.x + dp.x - pt.x, start.y + dp.y - pt.y);
    match hit_normal(dp, h) {
        Option::None => pos1 == pt && vel1 == v1,
        Option::Some(n) => {
            &&& pos1 == vec2_of(pt.x + reflect_spec(clip, n).0, pt.y + reflect_spec(clip, n).1)
            &&& vel1 == reflect_vec(v1, n)
        },
    }
}

/// One tick of a fused (flying) grenade, relating the state before the
/// tick to the state after it: drag integration, fuse bookkeeping with
/// forced detonation on depletion, then at most one bounce — player
/// first, then enemies in storage order, then the grid.
pub open spec fn fused_step(
    g: Grid,
    obj0: Object,
    vel0: Vec2,
    fuse0: u32,
    p0: Player,
    es0: Seq<Enemy>,
    dt: u32,
    obj1: Object,
    vel1: Vec2,
    fuse1: int,
    p1: Player,
    es1: Seq<Enemy>,
    u: GrenadeUpdate,
) -> bool {
    let dti = dt as int;
    let v1 = vec2_of(
        vel0.x + drag_dvel(vel0.x as int, dti),
        vel0.y + drag_dvel(vel0.y as int, dti),
    );
    let dp = vec2_of(drag_dpos(vel0.x as int, dti), drag_dpos(vel0.y as int, dti));
    let start = obj0.pos;
    &&& obj1.heading == obj0.heading
    &&& (if fuse0 <= dt {
        &&& fuse1 == 0
        &&& obj1.pos == start
        &&& vel1 == v1
        &&& explosion_applies(g, start, p0, p1, es0, es1, u)
    } else {
        &&& fuse1 == fuse0 - dt
        &&& p1 == p0
        &&& es1 =~= es0
        &&& u is Nothing
        &&& (if grazes(start, dp, p0.obj.pos) {
            &&& vel1 == reflect_vec(v1, graze_normal(start, dp, p0.obj.pos))
            &&& obj1.pos == bounce_pos(start, dp, p0.obj.pos)
        } else {
            &&& (forall|k: int|
                #[trigger] graze_index(start, dp, es0, k) ==> vel1 == reflect_vec(
                    v1,
                    graze_normal(start, dp, es0[k].pl.obj.pos),
                ) && obj1.pos == bounce_pos(start, dp, es0[k].pl.obj.pos))
            &&& ((forall|k: int|
                0 <= k < es0.len() ==> !(#[trigger] grazes(start, dp, es0[k].pl.obj.pos)))
                ==> wall_outcome(g, start, dp, v1, obj1.pos, vel1))
        })
    })
}

/// One tick of a cocked (held) grenade: it tracks the wielder's hand — 20
/// units ahead of the wielder along the heading — counts its fuse down
/// with forced detonation on depletion, and transitions to flight when
/// the trigger is released with fuse to spare.
pub open spec fn cocked_step(
    g: Grid,
    obj0: Object,
    fuse0: u32,
    p0: Player,
    es0: Seq<Enemy>,
    trigger_held: bool,
    dt: u32,
    obj1: Object,
    fuse1: int,
    p1: Player,
    es1: Seq<Enemy>,
    u: GrenadeUpdate,
) -> bool {
    let hold = vec2_of(
        p0.obj.pos.x + 20 * p0.obj.heading.x,
        p0.obj.pos.y + 20 * p0.obj.heading.y,
    );
    &&& obj1.heading == obj0.heading
    &&& obj1.pos == hold
    &&& (if fuse0 <= dt {
        &&& fuse1 == 0
        &&& explosion_applies(g, hold, p0, p1, es0, es1, u)
    } else {
        &&& fuse1 == fuse0 - dt
        &&& p1 == p0
        &&& es1 =~= es0
        &&& (if fuse0 - dt > dt && !trigger_held {
            u == (GrenadeUpdate::Thrown { fuse: (fuse0 - dt) as u32 })
        } else {
            u is Nothing
        })
    })
}

/// The endpoint of one blast-visibility ray: the given unit-scale
/// direction, extended to the blast radius and clipped by the grid.
pub open spec fn mesh_point(g: Grid, center: Vec2, dir: Vec2) -> Vec2 {
    let v = vec2_of(144 * dir.x, 144 * dir.y);
    vec2_of(
        hit_point(center, v, cast_hit(g, center, v, true)).0,
        hit_point(center, v, cast_hit(g, center, v, true)).1,
    )
}

impl Grenade {
    /// Apply one explosion's damage application to a health pool: the high
    /// or low tier, scaled by the fixed armor-penetration factor.
    pub fn apply_damage(health: &mut Health, high: bool)
        requires
            -HEALTH_LIMIT <= old(health).hp <= HEALTH_LIMIT,
        ensures
            final(health).hp == old(health).hp - effective_damage(high),
    {
        if high {
            health.weapon_damage(HIGH_DAMAGE_MILLI, PENETRATION_MILLI);
        } else {
            health.weapon_damage(LOW_DAMAGE_MILLI, PENETRATION_MILLI);
        }
    }

    /// Resolve an explosion at the projectile's position: apply
    /// line-of-sight gated area damage to the player and to every enemy
    /// (walked in reverse storage order), and report who was hit.
    pub fn explode(
        obj: &mut Object,
        grid: &Grid,
        player: &mut Player,
        enemies: &mut Vec<Enemy>,
    ) -> (u: GrenadeUpdate)
        requires
            grid.wf(),
            old(obj).pos.bounded(ARENA_LIMIT as int),
            old(player).obj.pos.bounded(ARENA_LIMIT as int),
            -HEALTH_LIMIT <= old(player).health.hp <= HEALTH_LIMIT,
            forall|i: int|
                0 <= i < old(enemies).len() ==> (#[trigger] old(enemies)[i]).pl.obj.pos.bounded(
                    ARENA_LIMIT as int,
                ) && -HEALTH_LIMIT <= old(enemies)[i].pl.health.hp <= HEALTH_LIMIT,
        ensures
            *final(obj) == *old(obj),
            explosion_applies(
                *grid,
                old(obj).pos,
                *old(player),
                *final(player),
                old(enemies)@,
                final(enemies)@,
                u,
            ),
    {
        let start = obj.pos;
        let player_hit: bool;
        let d_player = player.obj.pos.minus(start);
        let dist2_p = dot_wide(d_player, d_player);
        proof {
            assert(d_player == delta_to(start, old(player).obj.pos));
        }
        let range_sq = mul_i64(RANGE_MU, RANGE_MU);
        let lethal_sq = mul_i64(LETHAL_RANGE_MU, LETHAL_RANGE_MU);
        if dist2_p < range_sq && grid.ray_cast(start, d_player, true).full() {
            Grenade::apply_damage(&mut player.health, dist2_p <= lethal_sq);
            player_hit = true;
        } else {
            player_hit = false;
        }
        let mut enemy_hits: Vec<usize> = Vec::new();
        let mut i: usize = enemies.len();
        while i > 0
            invariant
                grid.wf(),
                start == old(obj).pos,
                start.bounded(ARENA_LIMIT as int),
                forall|j: int|
                    0 <= j < old(enemies).len() ==> (#[trigger] old(
                        enemies,
                    )[j]).pl.obj.pos.bounded(ARENA_LIMIT as int) && -HEALTH_LIMIT <= old(
                        enemies,
                    )[j].pl.health.hp <= HEALTH_LIMIT,
                i <= enemies.len(),
                enemies.len() == old(enemies).len(),
                player.obj == old(player).obj,
                player.health.hp == old(player).health.hp - (if damage_hits(
                    *grid,
                    start,
                    old(player).obj.pos,
                ) {
                    damage_amount(start, old(player).obj.pos)
                } else {
                    0
                }),
                player_hit == damage_hits(*grid, start, old(player).obj.pos),
                forall|j: int| 0 <= j < i ==> (#[trigger] enemies@[j]) == old(enemies)@[j],
                forall|j: int|
                    i <= j < enemies@.len() ==> (#[trigger] enemies@[j]).pl.obj == old(
                        enemies,
                    )@[j].pl.obj && enemies@[j].pl.health.hp == old(enemies)@[j].pl.health.hp - (
                    if damage_hits(*grid, start, old(enemies)@[j].pl.obj.pos) {
                        damage_amount(start, old(enemies)@[j].pl.obj.pos)
                    } else {
                        0
                    }),
                forall|k: int|
                    0 <= k < enemy_hits@.len() ==> i <= (#[trigger] enemy_hits@[k])
                        < enemies@.len() && damage_hits(
                        *grid,
                        start,
                        old(enemies)@[enemy_hits@[k] as int].pl.obj.pos,
                    ),
                forall|j: int|
                    i <= j < enemies@.len() && damage_hits(
                        *grid,
                        start,
                        (#[trigger] old(enemies)@[j]).pl.obj.pos,
                    ) ==> enemy_hits@.contains(j as usize),
                forall|k: int, l: int|
                    0 <= k < l < enemy_hits@.len() ==> enemy_hits@[k] > enemy_hits@[l],
            decreases i,
        {
            i = i - 1;
            let e = enemies[i];
            let d = e.pl.obj.pos.minus(start);
            let dist2 = dot_wide(d, d);
            proof {
                assert(d == delta_to(start, old(enemies)@[i as int].pl.obj.pos));
            }
            let range_sq = mul_i64(RANGE_MU, RANGE_MU);
            let lethal_sq = mul_i64(LETHAL_RANGE_MU, LETHAL_RANGE_MU);
            if dist2 < range_sq && grid.ray_cast(start, d, true).full() {
                let mut h = e.pl.health;
                Grenade::apply_damage(&mut h, dist2 <= lethal_sq);
                enemies[i] = Enemy { pl: Player { obj: e.pl.obj, health: h } };
                let ghost hits0 = enemy_hits@;
                enemy_hits.push(i);
                proof {
                    assert forall|j: int|
                        i <= j < enemies@.len() && damage_hits(
                            *grid,
                            start,
                            (#[trigger] old(enemies)@[j]).pl.obj.pos,
                        ) implies enemy_hits@.contains(j as usize) by {
                        if j == i {
                            assert(enemy_hits@[hits0.len() as int] == j as usize);
                        } else {
                            assert(hits0.contains(j as usize));
                            let w = choose|w: int| 0 <= w < hits0.len() && hits0[w] == j as usize;
                            assert(enemy_hits@[w] == j as usize);
                        }
                    }
                }
            }
        }
        GrenadeUpdate::Explosion { player_hit, enemy_hits }
    }

    /// The drawable descriptor for the projectile itself: the sprite the
    /// renderer draws while the grenade is in hand or in flight; once
    /// detonated the constructed mesh is drawn instead and no sprite
    /// applies.
    pub fn sprite(&self) -> (s: Option<&'static str>)
        ensures
            (self.state is Cocked || self.state is Fused) ==> (s matches Some(n) && n@
                == "weapons/pineapple"@),
            self.state is Explosion ==> s is None,
    {
        match &self.state {
            GrenadeState::Cocked { .. } | GrenadeState::Fused { .. } => Some("weapons/pineapple"),
            GrenadeState::Explosion { .. } => None,
        }
    }

    /// Build the blast-visibility polygon: one cast endpoint per sampled
    /// direction, each ray extended to the blast radius and clipped to the
    /// nearest obstruction. The polygon is a rendering artifact only.
    pub fn make_mesh(grid: &Grid, center: Vec2, directions: &Vec<Vec2>) -> (pts: Vec<Vec2>)
        requires
            grid.wf(),
            center.bounded(ARENA_LIMIT as int),
            forall|i: int|
                0 <= i < directions@.len() ==> (#[trigger] directions@[i]).bounded(
                    2 * MU_PER_UNIT as int,
                ),
        ensures
            pts@.len() == directions@.len(),
            forall|i: int|
                0 <= i < directions@.len() ==> #[trigger] pts@[i] == mesh_point(
                    *grid,
                    center,
                    directions@[i],
                ),
    {
        let mut pts: Vec<Vec2> = Vec::new();
        let mut k: usize = 0;
        while k < directions.len()
            invariant
                grid.wf(),
                center.bounded(ARENA_LIMIT as int),
                forall|i: int|
                    0 <= i < directions@.len() ==> (#[trigger] directions@[i]).bounded(
                        2 * MU_PER_UNIT as int,
                    ),
                k <= directions@.len(),
                pts@.len() == k,
                forall|i: int|
                    0 <= i < k ==> #[trigger] pts@[i] == mesh_point(*grid, center, directions@[i]),
            decreases directions@.len() - k,
        {
            let d = directions[k];
            let v = Vec2 { x: 144 * d.x, y: 144 * d.y };
            let cast = grid.ray_cast(center, v, true);
            pts.push(cast.into_point());
            k = k + 1;
        }
        pts
    }

    /// One tick of independent ballistic motion: drag-integrate the
    /// velocity, count the fuse down (detonating on depletion), then
    /// check at most one bounce — player first, then enemies in storage
    /// order, then the grid.
    pub fn update_fused(
        obj: &mut Object,
        vel: &mut Vec2,
        fuse: &mut u32,
        grid: &Grid,
        player: &mut Player,
        enemies: &mut Vec<Enemy>,
        dt: u32,
    ) -> (u: GrenadeUpdate)
        requires
            grid.wf(),
            dt <= TICK_LIMIT_MS,
            *old(fuse) <= 1_000_000_000,
            old(obj).pos.bounded(ARENA_LIMIT as int),
            old(vel).bounded(VEL_LIMIT as int),
            old(player).obj.pos.bounded(ARENA_LIMIT as int),
            -HEALTH_LIMIT <= old(player).health.hp <= HEALTH_LIMIT,
            forall|i: int|
                0 <= i < old(enemies).len() ==> (#[trigger] old(enemies)[i]).pl.obj.pos.bounded(
                    ARENA_LIMIT as int,
                ) && -HEALTH_LIMIT <= old(enemies)[i].pl.health.hp <= HEALTH_LIMIT,
        ensures
            fused_step(
                *grid,
                *old(obj),
                *old(vel),
                *old(fuse),
                *old(player),
                old(enemies)@,
                dt,
                *final(obj),
                *final(vel),
                *final(fuse) as int,
                *final(player),
                final(enemies)@,
                u,
            ),
    {
        let start = obj.pos;
        proof {
            lemma_mul_abs_bound(vel.x as int, dt as int, VEL_LIMIT as int, 1000);
            lemma_mul_abs_bound(vel.y as int, dt as int, VEL_LIMIT as int, 1000);
        }
        let mvx = mul_i64(vel.x, dt as i64);
        let mvy = mul_i64(vel.y, dt as i64);
        proof {
            lemma_div_trunc_bound(
                -14 * (vel.x as int * dt as int),
                10000,
                2 * VEL_LIMIT as int,
            );
            lemma_div_trunc_bound(
                -14 * (vel.y as int * dt as int),
                10000,
                2 * VEL_LIMIT as int,
            );
        }
        let dvx = div_trunc_i128(-14 * mvx, 10000) as i64;
        let dvy = div_trunc_i128(-14 * mvy, 10000) as i64;
        proof {
            lemma_mul_abs_bound(dvx as int, dt as int, 2 * VEL_LIMIT as int, 1000);
            lemma_mul_abs_bound(dvy as int, dt as int, 2 * VEL_LIMIT as int, 1000);
        }
        let ddx = div_trunc_i128(mul_i64(dvx, dt as i64), 2) as i64;
        let ddy = div_trunc_i128(mul_i64(dvy, dt as i64), 2) as i64;
        let dp = Vec2 { x: (mvx as i64) + ddx, y: (mvy as i64) + ddy };
        *vel = Vec2 { x: vel.x + dvx, y: vel.y + dvy };
        let ghost v1 = *vel;
        proof {
            assert(v1 == vec2_of(
                old(vel).x + drag_dvel(old(vel).x as int, dt as int),
                old(vel).y + drag_dvel(old(vel).y as int, dt as int),
            ));
            assert(dp == vec2_of(
                drag_dpos(old(vel).x as int, dt as int),
                drag_dpos(old(vel).y as int, dt as int),
            ));
        }
        if *fuse > dt {
            *fuse = *fuse - dt;
        } else {
            *fuse = 0;
            return Grenade::explode(obj, grid, player, enemies);
        }
        let hit_r_sq = mul_i64(HIT_RADIUS_MU, HIT_RADIUS_MU);
        let closest_p = closest_point_of_line_to_circle(start, dp, player.obj.pos);
        let r_p = player.obj.pos.minus(closest_p);
        let rr_p = dot_wide(r_p, r_p);
        proof {
            assert(closest_p == closest_vec(start, dp, player.obj.pos));
            assert(r_p == graze_normal(start, dp, player.obj.pos));
        }
        if rr_p <= hit_r_sq {
            *vel = reflect(*vel, r_p);
            let end = Vec2 { x: start.x + dp.x, y: start.y + dp.y };
            let clip = end.minus(closest_p);
            let refl_clip = reflect(clip, r_p);
            obj.pos = Vec2 { x: closest_p.x + refl_clip.x, y: closest_p.y + refl_clip.y };
            return GrenadeUpdate::Nothing;
        }
        let mut k: usize = 0;
        while k < enemies.len()
            invariant
                grid.wf(),
                dt <= TICK_LIMIT_MS,
                start == old(obj).pos,
                start.bounded(ARENA_LIMIT as int),
                dp.bounded(0x40_0000_0000),
                obj.pos == start,
                obj.heading == old(obj).heading,
                *vel == v1,
                v1 == vec2_of(
                    old(vel).x + drag_dvel(old(vel).x as int, dt as int),
                    old(vel).y + drag_dvel(old(vel).y as int, dt as int),
                ),
                dp == vec2_of(
                    drag_dpos(old(vel).x as int, dt as int),
                    drag_dpos(old(vel).y as int, dt as int),
                ),
                *old(fuse) > dt,
                *fuse == *old(fuse) - dt,
                v1.bounded(COORD_LIMIT as int),
                *player == *old(player),
                enemies@ =~= old(enemies)@,
                hit_r_sq == (HIT_RADIUS_MU as int) * (HIT_RADIUS_MU as int),
                forall|i: int|
                    0 <= i < old(enemies).len() ==> (#[trigger] old(
                        enemies,
                    )[i]).pl.obj.pos.bounded(ARENA_LIMIT as int),
                !grazes(start, dp, old(player).obj.pos),
                k <= enemies@.len(),
                forall|j: int|
                    0 <= j < k ==> !(#[trigger] grazes(start, dp, old(enemies)@[j].pl.obj.pos)),
            decreases enemies@.len() - k,
        {
            let e = enemies[k];
            let closest_e = closest_point_of_line_to_circle(start, dp, e.pl.obj.pos);
            let r_e = e.pl.obj.pos.minus(closest_e);
            let rr_e = dot_wide(r_e, r_e);
            proof {
                assert(closest_e == closest_vec(start, dp, e.pl.obj.pos));
                assert(r_e == graze_normal(start, dp, e.pl.obj.pos));
            }
            if rr_e <= hit_r_sq {
                proof {
                    assert(graze_index(start, dp, old(enemies)@, k as int));
                    assert forall|k2: int|
                        #[trigger] graze_index(start, dp, old(enemies)@, k2) implies k2
                        == k as int by {
                        if k2 < k as int {
                            assert(!grazes(start, dp, old(enemies)@[k2].pl.obj.pos));
                        }
                        if k2 > k as int {
                            assert(!grazes(start, dp, old(enemies)@[k as int].pl.obj.pos));
                        }
                    }
                }
                *vel = reflect(*vel, r_e);
                let end = Vec2 { x: start.x + dp.x, y: start.y + dp.y };
                let clip = end.minus(closest_e);
                let refl_clip = reflect(clip, r_e);
                obj.pos = Vec2 { x: closest_e.x + refl_clip.x, y: closest_e.y + refl_clip.y };
                return GrenadeUpdate::Nothing;
            }
            k = k + 1;
        }
        let cast = grid.ray_cast(start, dp, true);
        let pt = cast.into_point();
        match cast.normal {
            Option::Some(n) => {
                proof {
                    assert(n.bounded(1));
                }
                let refl_clip = reflect(cast.clip, n);
                obj.pos = Vec2 { x: pt.x + refl_clip.x, y: pt.y + refl_clip.y };
                *vel = reflect(*vel, n);
            },
            Option::None => {
                obj.pos = pt;
            },
        }
        GrenadeUpdate::Nothing
    }

    /// One tick of a held grenade: it follows the wielder's hand, counts
    /// its fuse down (detonating on depletion at the hand position), and
    /// is released into flight when the trigger is let go with fuse to
    /// spare.
    pub fn update_cocked(
        obj: &mut Object,
        fuse: &mut u32,
        grid: &Grid,
        player: &mut Player,
        enemies: &mut Vec<Enemy>,
        trigger_held: bool,
        dt: u32,
    ) -> (u: GrenadeUpdate)
        requires
            grid.wf(),
            dt <= TICK_LIMIT_MS,
            *old(fuse) <= 1_000_000_000,
            old(player).obj.pos.bounded(ARENA_LIMIT as int - 40000),
            old(player).obj.heading.bounded(2 * MU_PER_UNIT as int),
            -HEALTH_LIMIT <= old(player).health.hp <= HEALTH_LIMIT,
            forall|i: int|
                0 <= i < old(enemies).len() ==> (#[trigger] old(enemies)[i]).pl.obj.pos.bounded(
                    ARENA_LIMIT as int,
                ) && -HEALTH_LIMIT <= old(enemies)[i].pl.health.hp <= HEALTH_LIMIT,
        ensures
            cocked_step(
                *grid,
                *old(obj),
                *old(fuse),
                *old(player),
                old(enemies)@,
                trigger_held,
                dt,
                *final(obj),
                *final(fuse) as int,
                *final(player),
                final(enemies)@,
                u,
            ),
    {
        obj.pos = Vec2 {
            x: player.obj.pos.x + 20 * player.obj.heading.x,
            y: player.obj.pos.y + 20 * player.obj.heading.y,
        };
        if *fuse > dt {
            *fuse = *fuse - dt;
            if *fuse > dt && !trigger_held {
                return GrenadeUpdate::Thrown { fuse: *fuse };
            }
        } else {
            *fuse = 0;
            return Grenade::explode(obj, grid, player, enemies);
        }
        GrenadeUpdate::Nothing
    }

    /// Advance the grenade one tick: an explosion ages toward removal, a
    /// cocked grenade tracks its wielder and may be thrown, a fused one
    /// flies; on detonation the state moves to `Explosion` with a freshly
    /// built visibility mesh at the detonation point. The lifecycle only
    /// ever moves forward and the fuse never increases.
    pub fn update(
        &mut self,
        grid: &Grid,
        player: &mut Player,
        enemies: &mut Vec<Enemy>,
        trigger_held: bool,
        directions: &Vec<Vec2>,
        dt: u32,
    ) -> (u: GrenadeUpdate)
        requires
            grid.wf(),
            dt <= TICK_LIMIT_MS,
            wf_state(old(self).state),
            old(self).obj.pos.bounded(ARENA_LIMIT as int),
            old(self).vel.bounded(VEL_LIMIT as int),
            old(player).obj.pos.bounded(ARENA_LIMIT as int - 40000),
            old(player).obj.heading.bounded(2 * MU_PER_UNIT as int),
            -HEALTH_LIMIT <= old(player).health.hp <= HEALTH_LIMIT,
            forall|i: int|
                0 <= i < old(enemies).len() ==> (#[trigger] old(enemies)[i]).pl.obj.pos.bounded(
                    ARENA_LIMIT as int,
                ) && -HEALTH_LIMIT <= old(enemies)[i].pl.health.hp <= HEALTH_LIMIT,
            forall|i: int|
                0 <= i < directions@.len() ==> (#[trigger] directions@[i]).bounded(
                    2 * MU_PER_UNIT as int,
                ),
        ensures
            rank_of(final(self).state) >= rank_of(old(self).state),
            fuse_of(final(self).state) <= fuse_of(old(self).state),
            (old(self).state is Cocked || old(self).state is Fused) ==> ((final(self).state is Explosion) <==> fuse_of(old(self).state) <= dt),
            (old(self).state matches GrenadeState::Cocked { fuse } ==> cocked_step(
                *grid,
                old(self).obj,
                fuse,
                *old(player),
                old(enemies)@,
                trigger_held,
                dt,
                final(self).obj,
                fuse_of(final(self).state),
                *final(player),
                final(enemies)@,
                u,
            ) && final(self).vel == old(self).vel),
            (old(self).state matches GrenadeState::Cocked { fuse } ==> (fuse > dt ==> (if fuse
                - dt > dt && !trigger_held {
                final(self).state == (GrenadeState::Fused { fuse: (fuse - dt) as u32 })
            } else {
                final(self).state == (GrenadeState::Cocked { fuse: (fuse - dt) as u32 })
            }))),
            (old(self).state matches GrenadeState::Fused { fuse } ==> fused_step(
                *grid,
                old(self).obj,
                old(self).vel,
                fuse,
                *old(player),
                old(enemies)@,
                dt,
                final(self).obj,
                final(self).vel,
                fuse_of(final(self).state),
                *final(player),
                final(enemies)@,
                u,
            )),
            (old(self).state matches GrenadeState::Fused { fuse } ==> (fuse > dt ==> final(self).state == (GrenadeState::Fused { fuse: (fuse - dt) as u32 }))),
            (old(self).state matches GrenadeState::Explosion { alive_time, mesh } ==> final(self).state == (GrenadeState::Explosion { alive_time: (alive_time + dt) as u32, mesh })
                && *final(player) == *old(player) && final(enemies)@ =~= old(enemies)@ && final(self).obj == old(self).obj && final(self).vel == old(self).vel && (u
                == GrenadeUpdate::Dead <==> alive_time + dt >= EXPLOSION_LIFETIME_MS) && (
            u is Dead || u is Nothing)),
            !(old(self).state is Explosion) ==> (final(self).state matches GrenadeState::Explosion {
                alive_time,
                mesh,
            } ==> alive_time == 0 && mesh@.len() == directions@.len() && (forall|i: int|
                0 <= i < directions@.len() ==> #[trigger] mesh@[i] == mesh_point(
                    *grid,
                    final(self).obj.pos,
                    directions@[i],
                )) && (u matches GrenadeUpdate::Explosion { .. })),
    {
        let u: GrenadeUpdate;
        match &mut self.state {
            GrenadeState::Explosion { alive_time, mesh: _ } => {
                *alive_time = *alive_time + dt;
                if *alive_time >= EXPLOSION_LIFETIME_MS {
                    u = GrenadeUpdate::Dead;
                } else {
                    u = GrenadeUpdate::Nothing;
                }
            },
            GrenadeState::Cocked { fuse } => {
                u = Grenade::update_cocked(
                    &mut self.obj,
                    fuse,
                    grid,
                    player,
                    enemies,
                    trigger_held,
                    dt,
                );
            },
            GrenadeState::Fused { fuse } => {
                u = Grenade::update_fused(
                    &mut self.obj,
                    &mut self.vel,
                    fuse,
                    grid,
                    player,
                    enemies,
                    dt,
                );
            },
        }
        if let GrenadeUpdate::Thrown { fuse: tf } = &u {
            self.state = GrenadeState::Fused { fuse: *tf };
        }
        if let GrenadeUpdate::Explosion { .. } = &u {
            let mesh = Grenade::make_mesh(grid, self.obj.pos, directions);
            self.state = GrenadeState::Explosion { alive_time: 0, mesh };
        }
        u
    }
}

impl Utilities {
    /// Take one grenade from the pouch and hand back a maker primed with
    /// the fixed throw speed. With no grenades left nothing is produced;
    /// the caller is expected to play the cocking-failure sound then.
    pub fn cock_grenade(&mut self) -> (r: Option<GrenadeMaker>)
        ensures
            old(self).grenades > 0 ==> final(self).grenades == old(self).grenades - 1 && r
                == Some(GrenadeMaker(THROW_SPEED)),
            old(self).grenades == 0 ==> final(self).grenades == 0 && r is None,
    {
        if self.grenades > 0 {
            self.grenades = self.grenades - 1;
            Some(GrenadeMaker(THROW_SPEED))
        } else {
            None
        }
    }
}

/// A primed throw: carries the speed a freshly made grenade leaves with.
#[derive(Debug, Clone, Copy, PartialEq, Eq, Structural)]
pub struct GrenadeMaker(pub i64);

impl GrenadeMaker {
    /// Make the grenade at the thrown object's position: full throw speed
    /// along the object's heading, the heading reset, and the fixed
    /// initial fuse.
    pub fn make(self, obj: Object) -> (g: Grenade)
        requires
            obj.heading.bounded(2 * MU_PER_UNIT as int),
            -1_000_000 <= self.0 <= 1_000_000,
        ensures
            g.obj.pos == obj.pos,
            g.obj.heading == (Vec2 { x: 1000i64, y: 0i64 }),
            g.vel.x == div_trunc(self.0 * obj.heading.x, 1000),
            g.vel.y == div_trunc(self.0 * obj.heading.y, 1000),
            g.state == (GrenadeState::Cocked { fuse: GRENADE_FUSE_MS }),
    {
        proof {
            lemma_mul_abs_bound(self.0 as int, obj.heading.x as int, 1_000_000, 2000);
            lemma_mul_abs_bound(self.0 as int, obj.heading.y as int, 1_000_000, 2000);
        }
        let vx = div_trunc_i128(mul_i64(self.0, obj.heading.x), 1000) as i64;
        let vy = div_trunc_i128(mul_i64(self.0, obj.heading.y), 1000) as i64;
        Grenade {
            obj: Object { pos: obj.pos, heading: Vec2 { x: 1000, y: 0 } },
            vel: Vec2 { x: vx, y: vy },
            state: GrenadeState::Cocked { fuse: GRENADE_FUSE_MS },
        }
    }
}

/// Across any sequence of ticks whose steps each keep the lifecycle from
/// moving backward and the fuse from rising — what every `update` tick
/// guarantees — the whole run does too: any later state has at least the
/// rank and at most the fuse of any earlier one.
pub proof fn lemma_lifecycle_monotone_chain(states: Seq<GrenadeState>)
    requires
        forall|i: int|
            0 <= i < states.len() - 1 ==> rank_of(#[trigger] states[i]) <= rank_of(states[i + 1])
                && fuse_of(states[i + 1]) <= fuse_of(states[i]),
    ensures
        forall|i: int, j: int|
            0 <= i <= j < states.len() ==> rank_of(#[trigger] states[i]) <= rank_of(
                #[trigger] states[j],
            ) && fuse_of(states[j]) <= fuse_of(states[i]),
{
    assert forall|i: int, j: int| 0 <= i <= j < states.len() implies rank_of(#[trigger] states[i])
        <= rank_of(#[trigger] states[j]) && fuse_of(states[j]) <= fuse_of(states[i]) by {
        lemma_lifecycle_monotone_span(states, i, j);
    }
}

proof fn lemma_lifecycle_monotone_span(states: Seq<GrenadeState>, i: int, j: int)
    requires
        forall|k: int|
            0 <= k < states.len() - 1 ==> rank_of(#[trigger] states[k]) <= rank_of(states[k + 1])
                && fuse_of(states[k + 1]) <= fuse_of(states[k]),
        0 <= i <= j < states.len(),
    ensures
        rank_of(states[i]) <= rank_of(states[j]),
        fuse_of(states[j]) <= fuse_of(states[i]),
    decreases j - i,
{
    if i < j {
        lemma_lifecycle_monotone_span(states, i, j - 1);
        assert(rank_of(states[j - 1]) <= rank_of(states[j]) && fuse_of(states[j]) <= fuse_of(
            states[j - 1],
        ));
    }
}

} // verus!
