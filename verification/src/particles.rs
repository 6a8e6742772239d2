//! Particle simulation: a fixed-capacity slot pool advanced one fixed
//! timestep per tick under a strategy chosen at construction — gravity
//! fall with in-place resets, a radial explosion with immediate
//! respawns, or the pooled explosion whose culled particles wait dead
//! for rate-limited emission to refill the pool.
//!
//! Positions are milliunits, velocities milliunits per second, ages
//! milliseconds, angles handled through integer direction vectors.

use vstd::prelude::*;

verus! {

use crate::fixed::{
    div_trunc, div_trunc_i64, sqrt_floor, isqrt_u64, lemma_div_trunc_bounds,
    lemma_div_trunc_scaled, lemma_sqrt_floor_bounds, lemma_sqrt_floor_mono,
    lemma_sqrt_floor_square, iabs,
};
use crate::rng::rand_u64_in;

/// A particle dies when its age passes this bound (milliseconds).
pub const LIFETIME_MS: i64 = 8000;

/// ... or when its planar distance from the origin passes this radius.
pub const CULL_RADIUS: i64 = 15000;

/// Below this planar radius a particle counts as stuck at the origin.
pub const DEAD_ZONE: i64 = 50;

/// Constant outward acceleration, milliunits per second squared.
pub const RADIAL_ACCELERATION: i64 = 1200;

/// Additional outward acceleration that fades to zero at the falloff
/// radius.
pub const EXPLOSION_FORCE: i64 = 800;

/// Radius at which the explosion term has faded out entirely.
pub const FALLOFF_RADIUS: i64 = 3000;

/// Speed of the escape kick applied to stuck particles.
pub const ESCAPE_SPEED: i64 = 12000;

/// How far from the origin the escape kick re-seats a stuck particle.
pub const ESCAPE_OFFSET: i64 = 300;

/// Offset from the origin at which fresh particles are emitted.
pub const EMIT_OFFSET: i64 = 50;

/// Downward acceleration of the gravity strategy, milliunits per second
/// squared.
pub const GRAVITY_ACCEL: i64 = 9800;

/// Floor below which the gravity strategy resets a particle.
pub const GRAVITY_FLOOR: i64 = -10000;

/// Cap on the pool capacity, keeping counters in machine range.
pub const MAX_POOL: usize = 1000000;

/// Cap on the emission backlog timer, so a long stall can never turn
/// into an unbounded burst.
pub const TIMER_CAP: i64 = 16000;

#[derive(Clone, Copy, PartialEq, Eq, Structural, Debug)]
pub struct Particle {
    /// Position, milliunits.
    pub px: i64,
    pub py: i64,
    pub pz: i64,
    /// Velocity, milliunits per second.
    pub vx: i64,
    pub vy: i64,
    pub vz: i64,
    /// Age, milliseconds.
    pub age: i64,
    pub alive: bool,
}

/// The mathematical shadow of a particle: the same fields over
/// unbounded integers, which every contract speaks of.
pub struct ParticleModel {
    pub px: int,
    pub py: int,
    pub pz: int,
    pub vx: int,
    pub vy: int,
    pub vz: int,
    pub age: int,
    pub alive: bool,
}

impl Particle {
    pub open spec fn m(self) -> ParticleModel {
        ParticleModel {
            px: self.px as int,
            py: self.py as int,
            pz: self.pz as int,
            vx: self.vx as int,
            vy: self.vy as int,
            vz: self.vz as int,
            age: self.age as int,
            alive: self.alive,
        }
    }
}

/// Squared planar distance from the origin.
pub open spec fn dist_sq(px: int, py: int) -> int {
    px * px + py * py
}

/// Whether a particle sits beyond the dead zone around the origin.
pub open spec fn beyond_dead_zone(p: ParticleModel) -> bool {
    dist_sq(p.px, p.py) > DEAD_ZONE * DEAD_ZONE
}

/// Range invariants every live particle keeps between ticks: bounded
/// age, inside the cull radius, depth and planar velocity bounded in
/// terms of the age.
pub open spec fn p_wf(p: ParticleModel) -> bool {
    p.alive ==> {
        &&& 0 <= p.age <= LIFETIME_MS
        &&& dist_sq(p.px, p.py) <= CULL_RADIUS * CULL_RADIUS
        &&& 2 * iabs(p.pz) <= p.age
        &&& -500 <= p.vz <= 500
        &&& iabs(p.vx) <= 12000 + 3 * p.age
        &&& iabs(p.vy) <= 12000 + 3 * p.age
    }
}

/// Explicit Euler step: velocity into position over one timestep, one
/// tick of age, then the age and out-of-radius culls.
pub open spec fn integrate(p: ParticleModel, dt: int) -> ParticleModel {
    let px = p.px + div_trunc(p.vx * dt, 1000);
    let py = p.py + div_trunc(p.vy * dt, 1000);
    let pz = p.pz + div_trunc(p.vz * dt, 1000);
    let age = p.age + dt;
    let alive = age <= LIFETIME_MS && dist_sq(px, py) <= CULL_RADIUS * CULL_RADIUS;
    ParticleModel { px, py, pz, age, alive, ..p }
}

/// Outward unit-vector component, scaled by 1000.
pub open spec fn radial_unit(c: int, d: int) -> int {
    div_trunc(c * 1000, d)
}

/// Velocity gain along one axis over one timestep: the constant radial
/// term plus the distance-attenuated explosion term, clamped
/// non-negative through the attenuation factor.
pub open spec fn radial_dv(c_unit: int, d: int, dt: int) -> int {
    div_trunc(c_unit * RADIAL_ACCELERATION * dt, 1000000) + div_trunc(
        c_unit * EXPLOSION_FORCE * (if FALLOFF_RADIUS - d >= 0 {
            FALLOFF_RADIUS - d
        } else {
            0
        }) * dt,
        3000000000,
    )
}

/// One tick of a live particle beyond the dead zone: radial
/// acceleration, then integration, aging and culling. Fully
/// deterministic.
pub open spec fn step_far(p: ParticleModel, dt: int) -> ParticleModel {
    let d = sqrt_floor(dist_sq(p.px, p.py) as nat) as int;
    let vx = p.vx + radial_dv(radial_unit(p.px, d), d, dt);
    let vy = p.vy + radial_dv(radial_unit(p.py, d), d, dt);
    integrate(ParticleModel { vx, vy, ..p }, dt)
}

/// A usable random direction: both components within one scaled unit,
/// not both zero.
pub open spec fn dir_ok(dx: int, dy: int) -> bool {
    &&& -1000 <= dx <= 1000
    &&& -1000 <= dy <= 1000
    &&& !(dx == 0 && dy == 0)
}

/// One tick of a live particle stuck in the dead zone: an escape kick
/// along a random direction overwrites the planar velocity and
/// position, then the usual integration, aging and culling.
pub open spec fn kick_step(p: ParticleModel, dx: int, dy: int, dt: int) -> ParticleModel {
    let n = sqrt_floor(dist_sq(dx, dy) as nat) as int;
    let mid = ParticleModel {
        px: div_trunc(dx * ESCAPE_OFFSET, n),
        py: div_trunc(dy * ESCAPE_OFFSET, n),
        vx: div_trunc(dx * ESCAPE_SPEED, n),
        vy: div_trunc(dy * ESCAPE_SPEED, n),
        ..p
    };
    integrate(mid, dt)
}

/// A particle freshly emitted along a random direction with a random
/// speed: seated just off the origin, aged zero, alive.
pub open spec fn emit_model(dx: int, dy: int, speed: int, vz: int) -> ParticleModel {
    let n = sqrt_floor(dist_sq(dx, dy) as nat) as int;
    ParticleModel {
        px: div_trunc(dx * EMIT_OFFSET, n),
        py: div_trunc(dy * EMIT_OFFSET, n),
        pz: 0,
        vx: div_trunc(dx * speed, n),
        vy: div_trunc(dy * speed, n),
        vz: vz,
        age: 0,
        alive: true,
    }
}

/// What emission promises of the slot it fills, for some draw of
/// direction, speed and vertical drift inside their ranges.
pub open spec fn is_fresh_emit(p: ParticleModel) -> bool {
    exists|dx: int, dy: int, speed: int, vz: int|
        dir_ok(dx, dy) && 6000 <= speed < 8000 && -500 <= vz < 500 && p == emit_model(
            dx,
            dy,
            speed,
            vz,
        )
}

/// The update phase's exact effect on one slot: dead slots are left
/// alone; live ones step deterministically beyond the dead zone and by
/// a random escape kick inside it.
pub open spec fn updated(pre: ParticleModel, post: ParticleModel, dt: int) -> bool {
    if !pre.alive {
        post == pre
    } else if beyond_dead_zone(pre) {
        post == step_far(pre, dt)
    } else {
        exists|dx: int, dy: int| dir_ok(dx, dy) && post == kick_step(pre, dx, dy, dt)
    }
}

/// The whole tick's effect on one slot: live slots are updated; dead
/// slots either stay as they are or are re-emitted and then updated in
/// the same tick.
pub open spec fn slot_step(pre: ParticleModel, post: ParticleModel, dt: int) -> bool {
    if pre.alive {
        updated(pre, post, dt)
    } else {
        post == pre || exists|mid: ParticleModel|
            is_fresh_emit(mid) && #[trigger] updated(mid, post, dt)
    }
}

/// Dead slots among the first `i` of the pool.
pub open spec fn count_dead_prefix(s: Seq<Particle>, i: int) -> nat
    decreases i,
{
    if i <= 0 {
        0
    } else {
        count_dead_prefix(s, i - 1) + (if !s[i - 1].alive {
            1nat
        } else {
            0nat
        })
    }
}

/// The dead-prefix count reads only the prefix itself.
proof fn lemma_cdp_agree(s: Seq<Particle>, t: Seq<Particle>, i: int)
    requires
        0 <= i <= s.len(),
        i <= t.len(),
        forall|j: int| 0 <= j < i ==> s[j] == t[j],
    ensures
        count_dead_prefix(s, i) == count_dead_prefix(t, i),
    decreases i,
{
    if i > 0 {
        lemma_cdp_agree(s, t, i - 1);
    }
}

/// Dead and live slots split the pool.
pub proof fn lemma_dead_alive_split(s: Seq<Particle>)
    ensures
        count_dead_prefix(s, s.len() as int) + count_alive(s) == s.len(),
    decreases s.len(),
{
    if s.len() > 0 {
        lemma_dead_alive_split(s.drop_last());
        lemma_cdp_agree(s, s.drop_last(), s.len() - 1);
    }
}

proof fn lemma_cdp_monotone(s: Seq<Particle>, a: int, b: int)
    requires
        0 <= a <= b <= s.len(),
    ensures
        count_dead_prefix(s, a) <= count_dead_prefix(s, b),
    decreases b,
{
    if a < b {
        lemma_cdp_monotone(s, a, b - 1);
    }
}

/// Wherever the dead-prefix count passes `k`, a dead slot with count
/// exactly `k` sits below.
proof fn lemma_nth_dead(s: Seq<Particle>, i: int, k: int)
    requires
        0 <= i <= s.len(),
        0 <= k,
        count_dead_prefix(s, i) > k,
    ensures
        exists|t: int|
            0 <= t < i && !(#[trigger] s[t]).alive && count_dead_prefix(s, t) == k,
    decreases i,
{
    if count_dead_prefix(s, i - 1) > k {
        lemma_nth_dead(s, i - 1, k);
        let t = choose|t: int|
            0 <= t < i - 1 && !(#[trigger] s[t]).alive && count_dead_prefix(s, t) == k;
        assert(0 <= t < i && !s[t].alive && count_dead_prefix(s, t) == k);
    } else {
        assert(!s[i - 1].alive && count_dead_prefix(s, i - 1) == k);
    }
}

/// The emission interval in milliseconds: the inverse of the equilibrium
/// refill rate (capacity over the nominal lifetime), boosted threefold
/// while the shortfall exceeds a quarter of the pool, floored at one
/// millisecond by the fixed-point grid.
pub open spec fn emission_interval(max: int, alive: int) -> int {
    let q = if max - alive > max / 4 {
        8000int / (3 * max)
    } else {
        8000int / max
    };
    if q < 1 {
        1
    } else {
        q
    }
}

/// The emission backlog after one tick's accrual, capped so a long
/// stall cannot turn into an unbounded burst.
pub open spec fn capped_backlog(timer: int, dt: int) -> int {
    if timer + dt > TIMER_CAP {
        TIMER_CAP as int
    } else {
        timer + dt
    }
}

/// How many particles one tick emits: one per full interval in the
/// accrued backlog, stopping early when the dead slots run out; none at
/// all while the pool is full.
pub open spec fn emission_quota(sim: Simulation) -> int {
    let alive = count_alive(sim.particles@) as int;
    let max = sim.max_particles as int;
    if alive >= max {
        0
    } else {
        let q = capped_backlog(sim.emission_timer as int, sim.time_step as int)
            / emission_interval(max, alive);
        let dead = count_dead_prefix(sim.particles@, sim.particles@.len() as int) as int;
        if q <= dead {
            q
        } else {
            dead
        }
    }
}

/// The backlog the tick leaves behind: each emission pays one interval
/// back.
pub open spec fn post_emission_timer(sim: Simulation) -> int {
    let alive = count_alive(sim.particles@) as int;
    let max = sim.max_particles as int;
    if alive >= max {
        sim.emission_timer as int
    } else {
        capped_backlog(sim.emission_timer as int, sim.time_step as int) - emission_quota(sim)
            * emission_interval(max, alive)
    }
}

/// The per-entity update rule a pool is constructed with. The three
/// variants share the integration, aging and culling skeleton and differ
/// in force computation and respawn policy: gravity resets fallen
/// particles in place, the plain explosion respawns culled particles at
/// once, the pooled explosion leaves them dead for the rate-limited
/// emission to refill.
#[derive(Clone, Copy, PartialEq, Eq, Structural, Debug)]
pub enum ForceStrategy {
    Gravity,
    Explosion,
    PooledExplosion,
}

/// One deterministic gravity step: constant downward acceleration on the
/// vertical velocity axis, then explicit Euler integration and aging.
pub open spec fn gravity_step(p: ParticleModel, dt: int) -> ParticleModel {
    let vy = p.vy - div_trunc(GRAVITY_ACCEL * dt, 1000);
    ParticleModel {
        px: p.px + div_trunc(p.vx * dt, 1000),
        py: p.py + div_trunc(vy * dt, 1000),
        pz: p.pz + div_trunc(p.vz * dt, 1000),
        vy: vy,
        age: p.age + dt,
        ..p
    }
}

/// A gravity particle is reset the moment it outlives its bound or
/// falls through the floor.
pub open spec fn needs_reset(q: ParticleModel) -> bool {
    q.age > LIFETIME_MS || q.py < GRAVITY_FLOOR
}

/// The reset state: back at the origin with a freshly randomized,
/// upward-biased velocity and age zero.
pub open spec fn gravity_spawn(vx: int, vy: int, vz: int) -> ParticleModel {
    ParticleModel { px: 0, py: 0, pz: 0, vx: vx, vy: vy, vz: vz, age: 0, alive: true }
}

/// What a gravity reset promises, for some draw inside the uniform
/// ranges.
pub open spec fn is_fresh_spawn(p: ParticleModel) -> bool {
    exists|vx: int, vy: int, vz: int|
        -2000 <= vx < 2000 && 5000 <= vy < 10000 && -2000 <= vz < 2000 && p == gravity_spawn(
            vx,
            vy,
            vz,
        )
}

/// The gravity strategy's exact effect on one slot: dead slots stay as
/// they are; a live one steps deterministically, and is reset in the
/// same tick the violating condition is detected.
pub open spec fn gravity_slot(pre: ParticleModel, post: ParticleModel, dt: int) -> bool {
    if !pre.alive {
        post == pre
    } else {
        let q = gravity_step(pre, dt);
        if needs_reset(q) {
            is_fresh_spawn(post)
        } else {
            post == q
        }
    }
}

/// Immediate-respawn policy: a step result that survived stands as it
/// is; a culled one is replaced by a freshly emitted particle.
pub open spec fn culled_to_respawn(q: ParticleModel, post: ParticleModel) -> bool {
    if q.alive {
        post == q
    } else {
        is_fresh_emit(post)
    }
}

/// The plain (non-pooled) explosion strategy's effect on one slot: the
/// same force rule as the pooled variant, but a culled particle
/// respawns at once instead of waiting dead for emission.
pub open spec fn explosion_slot(pre: ParticleModel, post: ParticleModel, dt: int) -> bool {
    if !pre.alive {
        post == pre
    } else if beyond_dead_zone(pre) {
        culled_to_respawn(step_far(pre, dt), post)
    } else {
        exists|dx: int, dy: int|
            dir_ok(dx, dy) && #[trigger] culled_to_respawn(kick_step(pre, dx, dy, dt), post)
    }
}

/// Range invariants a live gravity particle keeps: velocity drawn from
/// the spawn ranges and grown only by gravity, positions bounded by age
/// times the velocity bound.
pub open spec fn p_wf_gravity(p: ParticleModel) -> bool {
    p.alive ==> {
        &&& 0 <= p.age <= LIFETIME_MS
        &&& -2000 <= p.vx <= 2000
        &&& -2000 <= p.vz <= 2000
        &&& iabs(p.vy) <= 10000 + 10 * p.age
        &&& 1000 * iabs(p.px) <= 2000 * p.age
        &&& 1000 * iabs(p.pz) <= 2000 * p.age
        &&& 1000 * iabs(p.py) <= p.age * (10000 + 10 * p.age)
    }
}

/// The per-slot invariant each strategy maintains between ticks.
pub open spec fn p_wf_mode(mode: ForceStrategy, p: ParticleModel) -> bool {
    match mode {
        ForceStrategy::Gravity => p_wf_gravity(p),
        ForceStrategy::Explosion => p_wf(p),
        ForceStrategy::PooledExplosion => p_wf(p),
    }
}

/// The whole tick's exact effect on one slot, by strategy.
pub open spec fn strategy_slot_step(
    mode: ForceStrategy,
    pre: ParticleModel,
    post: ParticleModel,
    dt: int,
) -> bool {
    match mode {
        ForceStrategy::Gravity => gravity_slot(pre, post, dt),
        ForceStrategy::Explosion => explosion_slot(pre, post, dt),
        ForceStrategy::PooledExplosion => slot_step(pre, post, dt),
    }
}

/// Law: under every strategy, a live particle either ages by exactly
/// one timestep — its age never decreases — or is reset or respawned
/// within the same tick with its age back at zero.
pub proof fn lemma_age_progression_by_strategy(
    mode: ForceStrategy,
    pre: ParticleModel,
    post: ParticleModel,
    dt: int,
)
    requires
        strategy_slot_step(mode, pre, post, dt),
        pre.alive,
        dt >= 0,
    ensures
        post.age == pre.age + dt || (post.age == 0 && post.alive),
{
    match mode {
        ForceStrategy::Gravity => {
            if needs_reset(gravity_step(pre, dt)) {
                let (vx, vy, vz) = choose|vx: int, vy: int, vz: int|
                    -2000 <= vx < 2000 && 5000 <= vy < 10000 && -2000 <= vz < 2000 && post
                        == gravity_spawn(vx, vy, vz);
            }
        },
        ForceStrategy::Explosion => {
            if beyond_dead_zone(pre) {
                if !step_far(pre, dt).alive {
                    lemma_fresh_alive(post);
                }
            } else {
                let (dx, dy) = choose|dx: int, dy: int|
                    dir_ok(dx, dy) && #[trigger] culled_to_respawn(
                        kick_step(pre, dx, dy, dt),
                        post,
                    );
                if !kick_step(pre, dx, dy, dt).alive {
                    lemma_fresh_alive(post);
                }
            }
        },
        ForceStrategy::PooledExplosion => {
            lemma_age_progression(pre, post, dt);
        },
    }
}

/// Law: one tick's emissions never outnumber the dead slots — the pool
/// can never be filled past its capacity.
pub proof fn lemma_quota_within_capacity(sim: Simulation)
    requires
        sim.wf(),
    ensures
        0 <= emission_quota(sim) <= count_dead_prefix(sim.particles@, sim.particles@.len() as int),
{
    let alive = count_alive(sim.particles@) as int;
    let max = sim.max_particles as int;
    if alive < max {
        let t1 = capped_backlog(sim.emission_timer as int, sim.time_step as int);
        let iv = emission_interval(max, alive);
        vstd::arithmetic::div_mod::lemma_div_pos_is_pos(t1, iv);
        lemma_dead_alive_split(sim.particles@);
    }
}

pub open spec fn count_alive(s: Seq<Particle>) -> nat
    decreases s.len(),
{
    if s.len() == 0 {
        0
    } else {
        count_alive(s.drop_last()) + (if s.last().alive {
            1nat
        } else {
            0nat
        })
    }
}

pub proof fn lemma_count_alive_le_len(s: Seq<Particle>)
    ensures
        count_alive(s) <= s.len(),
    decreases s.len(),
{
    if s.len() > 0 {
        lemma_count_alive_le_len(s.drop_last());
    }
}

/// The flat position buffer: x, y, z of each live particle in slot
/// order.
pub open spec fn positions_spec(s: Seq<Particle>) -> Seq<i64>
    decreases s.len(),
{
    if s.len() == 0 {
        Seq::empty()
    } else {
        positions_spec(s.drop_last()) + (if s.last().alive {
            seq![s.last().px, s.last().py, s.last().pz]
        } else {
            Seq::empty()
        })
    }
}

/// Law: the position buffer holds exactly three entries per live
/// particle.
pub proof fn lemma_positions_len(s: Seq<Particle>)
    ensures
        positions_spec(s).len() == 3 * count_alive(s),
    decreases s.len(),
{
    if s.len() > 0 {
        lemma_positions_len(s.drop_last());
    }
}

/// Law: over one tick a particle that stays alive ages by exactly the
/// timestep — its age never decreases — and a particle emitted this
/// tick carries exactly one timestep of age, having started at zero.
pub proof fn lemma_age_progression(pre: ParticleModel, post: ParticleModel, dt: int)
    requires
        slot_step(pre, post, dt),
        dt >= 0,
    ensures
        pre.alive ==> post.age == pre.age + dt >= pre.age,
        !pre.alive && post != pre ==> post.age == dt,
{
    if pre.alive {
        if beyond_dead_zone(pre) {
        } else {
            let (dx, dy) = choose|dx: int, dy: int|
                dir_ok(dx, dy) && post == kick_step(pre, dx, dy, dt);
        }
    } else {
        if post != pre {
            let mid = choose|mid: ParticleModel|
                is_fresh_emit(mid) && #[trigger] updated(mid, post, dt);
            assert(mid.alive) by {
                lemma_fresh_alive(mid);
            }
            if beyond_dead_zone(mid) {
            } else {
                let (dx, dy) = choose|dx: int, dy: int|
                    dir_ok(dx, dy) && post == kick_step(mid, dx, dy, dt);
            }
        }
    }
}

/// A freshly emitted particle is alive with age zero.
pub proof fn lemma_fresh_alive(p: ParticleModel)
    requires
        is_fresh_emit(p),
    ensures
        p.alive,
        p.age == 0,
{
    let (dx, dy, speed, vz) = choose|dx: int, dy: int, speed: int, vz: int|
        dir_ok(dx, dy) && 6000 <= speed < 8000 && -500 <= vz < 500 && p == emit_model(
            dx,
            dy,
            speed,
            vz,
        );
}

/// Law: beyond the dead zone the radial rule only ever pushes outward —
/// over one deterministic step the velocity change along each axis
/// points the same way as the position, never back toward the origin.
pub proof fn lemma_radial_outward(p: ParticleModel, dt: int)
    requires
        p.alive,
        beyond_dead_zone(p),
        dt >= 0,
    ensures
        (step_far(p, dt).vx - p.vx) * p.px >= 0,
        (step_far(p, dt).vy - p.vy) * p.py >= 0,
{
    let s = dist_sq(p.px, p.py);
    assert(s >= 1);
    lemma_norm_components(p.px, p.py);
    let d = sqrt_floor(s as nat) as int;
    let mult = if FALLOFF_RADIUS - d >= 0 {
        FALLOFF_RADIUS - d
    } else {
        0
    };
    lemma_axis_outward(p.px, d, mult, dt);
    lemma_axis_outward(p.py, d, mult, dt);
}

/// The per-axis velocity gain of the radial rule has the sign of the
/// coordinate itself.
proof fn lemma_axis_outward(c: int, d: int, mult: int, dt: int)
    requires
        d >= 1,
        mult >= 0,
        dt >= 0,
        mult == (if FALLOFF_RADIUS - d >= 0 {
            FALLOFF_RADIUS - d
        } else {
            0
        }),
    ensures
        radial_dv(radial_unit(c, d), d, dt) * c >= 0,
{
    let nc = radial_unit(c, d);
    if c >= 0 {
        vstd::arithmetic::div_mod::lemma_div_pos_is_pos(c * 1000, d);
        assert(c * 1000 >= 0) by (nonlinear_arith)
            requires c >= 0;
        assert(nc >= 0);
        assert(nc * 1200 * dt >= 0 && nc * 800 * mult * dt >= 0) by (nonlinear_arith)
            requires nc >= 0, mult >= 0, dt >= 0;
        vstd::arithmetic::div_mod::lemma_div_pos_is_pos(nc * 1200 * dt, 1000000);
        vstd::arithmetic::div_mod::lemma_div_pos_is_pos(nc * 800 * mult * dt, 3000000000);
        assert(radial_dv(nc, d, dt) >= 0);
        assert(radial_dv(nc, d, dt) * c >= 0) by (nonlinear_arith)
            requires radial_dv(nc, d, dt) >= 0, c >= 0;
    } else {
        assert(c * 1000 <= 0) by (nonlinear_arith)
            requires c < 0;
        vstd::arithmetic::div_mod::lemma_div_pos_is_pos(-(c * 1000), d);
        assert(nc <= 0);
        assert(nc * 1200 * dt <= 0 && nc * 800 * mult * dt <= 0) by (nonlinear_arith)
            requires nc <= 0, mult >= 0, dt >= 0;
        vstd::arithmetic::div_mod::lemma_div_pos_is_pos(-(nc * 1200 * dt), 1000000);
        vstd::arithmetic::div_mod::lemma_div_pos_is_pos(-(nc * 800 * mult * dt), 3000000000);
        assert(radial_dv(nc, d, dt) <= 0);
        assert(radial_dv(nc, d, dt) * c >= 0) by (nonlinear_arith)
            requires radial_dv(nc, d, dt) <= 0, c < 0;
    }
}

/// The floor square root of a squared norm dominates the magnitude of
/// each component and is positive for a nonzero vector.
proof fn lemma_norm_components(px: int, py: int)
    requires
        dist_sq(px, py) >= 1,
    ensures
        1 <= sqrt_floor(dist_sq(px, py) as nat),
        iabs(px) <= sqrt_floor(dist_sq(px, py) as nat),
        iabs(py) <= sqrt_floor(dist_sq(px, py) as nat),
{
    let s = dist_sq(px, py);
    assert(px * px == iabs(px) * iabs(px) && py * py == iabs(py) * iabs(py) && px * px >= 0 && py
        * py >= 0) by (nonlinear_arith);
    lemma_sqrt_floor_bounds(s as nat);
    let n = sqrt_floor(s as nat);
    assert(n >= 1) by (nonlinear_arith)
        requires s >= 1, s < (n + 1) * (n + 1), n >= 0;
    lemma_sqrt_floor_square(iabs(px) as nat);
    lemma_sqrt_floor_mono((px * px) as nat, s as nat);
    lemma_sqrt_floor_square(iabs(py) as nat);
    lemma_sqrt_floor_mono((py * py) as nat, s as nat);
}

/// Half a unit of vertical velocity moves at most half a timestep of
/// depth: the invariant coupling depth to age survives integration.
proof fn lemma_half_step(vz: int, dt: int)
    requires
        -500 <= vz <= 500,
        dt >= 1,
    ensures
        2 * iabs(div_trunc(vz * dt, 1000)) <= dt,
{
    assert(-(500 * dt) <= vz * dt <= 500 * dt) by (nonlinear_arith)
        requires -500 <= vz <= 500, dt >= 1;
    lemma_div_trunc_bounds(vz * dt, 1000, 500 * dt);
    vstd::arithmetic::div_mod::lemma_fundamental_div_mod(500 * dt, 1000);
    vstd::arithmetic::div_mod::lemma_mod_division_less_than_divisor(500 * dt, 1000);
}

/// Draws a random planar direction as an integer vector with components
/// within one scaled unit, never the zero vector.
fn rand_direction() -> (d: (i64, i64))
    ensures
        dir_ok(d.0 as int, d.1 as int),
{
    let dxr: i64 = rand_u64_in(0, 2001) as i64 - 1000;
    let dyr: i64 = rand_u64_in(0, 2001) as i64 - 1000;
    if dxr == 0 && dyr == 0 {
        (1000, 0)
    } else {
        (dxr, dyr)
    }
}

/// Draws a random planar direction (never the zero vector), a random
/// speed and vertical drift, and builds the freshly emitted particle.
fn fresh_particle() -> (p: Particle)
    ensures
        is_fresh_emit(p.m()),
        p_wf(p.m()),
        p.alive,
        p.age == 0,
        p.pz == 0,
        -EMIT_OFFSET <= p.px <= EMIT_OFFSET,
        -EMIT_OFFSET <= p.py <= EMIT_OFFSET,
{
    let dir = rand_direction();
    let dx: i64 = dir.0;
    let dy: i64 = dir.1;
    let speed: i64 = rand_u64_in(6000, 8000) as i64;
    let vz: i64 = rand_u64_in(0, 1000) as i64 - 500;
    proof {
        assert(0 <= (dx as int) * (dx as int) <= 1000000 && 0 <= (dy as int) * (dy as int)
            <= 1000000 && dist_sq(dx as int, dy as int) >= 1) by (nonlinear_arith)
            requires dir_ok(dx as int, dy as int);
        lemma_norm_components(dx as int, dy as int);
    }
    let nsq: i64 = dx * dx + dy * dy;
    let nu: u64 = isqrt_u64(nsq as u64);
    proof {
        assert(nu <= 1415) by (nonlinear_arith)
            requires nu * nu <= 2000000;
    }
    let n: i64 = nu as i64;
    proof {
        let ni = n as int;
        assert(-(50 * ni) <= (dx as int) * 50 <= 50 * ni && -(50 * ni) <= (dy as int) * 50 <= 50
            * ni) by (nonlinear_arith)
            requires iabs(dx as int) <= ni, iabs(dy as int) <= ni;
        assert(-((speed as int) * ni) <= (dx as int) * (speed as int) <= (speed as int) * ni && -(
        (speed as int) * ni) <= (dy as int) * (speed as int) <= (speed as int) * ni)
            by (nonlinear_arith)
            requires iabs(dx as int) <= ni, iabs(dy as int) <= ni, 0 <= speed as int;
        assert(-8000000 <= (dx as int) * (speed as int) <= 8000000 && -8000000 <= (dy as int) * (
        speed as int) <= 8000000) by (nonlinear_arith)
            requires
                -1000 <= (dx as int) <= 1000,
                -1000 <= (dy as int) <= 1000,
                0 <= (speed as int) < 8000,
        ;
        lemma_div_trunc_scaled(dx as int * 50, ni, 50);
        lemma_div_trunc_scaled(dy as int * 50, ni, 50);
        lemma_div_trunc_scaled(dx as int * speed as int, ni, speed as int);
        lemma_div_trunc_scaled(dy as int * speed as int, ni, speed as int);
    }
    let p = Particle {
        px: div_trunc_i64(dx * 50, n),
        py: div_trunc_i64(dy * 50, n),
        pz: 0,
        vx: div_trunc_i64(dx * speed, n),
        vy: div_trunc_i64(dy * speed, n),
        vz,
        age: 0,
        alive: true,
    };
    proof {
        assert(p.m() == emit_model(dx as int, dy as int, speed as int, vz as int));
        assert(dist_sq(p.px as int, p.py as int) <= CULL_RADIUS * CULL_RADIUS)
            by (nonlinear_arith)
            requires iabs(p.px as int) <= 50, iabs(p.py as int) <= 50;
    }
    p
}

/// One update-phase step of a live particle: radial acceleration beyond
/// the dead zone or a randomized escape kick inside it, then explicit
/// Euler integration, aging and culling.
#[verifier::rlimit(60)]
fn advance_particle(p: Particle, dt: i64) -> (q: Particle)
    requires
        p.alive,
        p_wf(p.m()),
        1 <= dt <= 1000,
    ensures
        updated(p.m(), q.m(), dt as int),
        p_wf(q.m()),
{
    proof {
        assert(iabs(p.px as int) <= 15000 && iabs(p.py as int) <= 15000 && 0 <= (p.px as int) * (
        p.px as int) <= 225000000 && 0 <= (p.py as int) * (p.py as int) <= 225000000)
            by (nonlinear_arith)
            requires dist_sq(p.px as int, p.py as int) <= 225000000;
    }
    let sq: i64 = p.px * p.px + p.py * p.py;
    let mid_px: i64;
    let mid_py: i64;
    let mid_vx: i64;
    let mid_vy: i64;
    let ghost mut kick_dir: (int, int) = (0int, 0int);
    if sq > 2500 {
        let d_u: u64 = isqrt_u64(sq as u64);
        proof {
            assert(d_u <= 21214) by (nonlinear_arith)
                requires d_u * d_u <= 450000000;
            lemma_norm_components(p.px as int, p.py as int);
        }
        let d: i64 = d_u as i64;
        proof {
            let di = d as int;
            assert(-(1000 * di) <= (p.px as int) * 1000 <= 1000 * di && -(1000 * di) <= (
            p.py as int) * 1000 <= 1000 * di) by (nonlinear_arith)
                requires iabs(p.px as int) <= di, iabs(p.py as int) <= di;
            lemma_div_trunc_scaled((p.px as int) * 1000, di, 1000);
            lemma_div_trunc_scaled((p.py as int) * 1000, di, 1000);
        }
        let nx: i64 = div_trunc_i64(p.px * 1000, d);
        let ny: i64 = div_trunc_i64(p.py * 1000, d);
        let mult: i64 = if d < 3000 {
            3000 - d
        } else {
            0
        };
        proof {
            let dti = dt as int;
            assert(-(2 * dti * 1000000) <= (nx as int) * 1200 * dti <= 2 * dti * 1000000 && -(2
                * dti * 1000000) <= (ny as int) * 1200 * dti <= 2 * dti * 1000000)
                by (nonlinear_arith)
                requires
                    -1000 <= (nx as int) <= 1000,
                    -1000 <= (ny as int) <= 1000,
                    1 <= dti <= 1000,
            ;
            assert(-(dti * 3000000000) <= (nx as int) * 800 * (mult as int) * dti <= dti
                * 3000000000 && -(dti * 3000000000) <= (ny as int) * 800 * (mult as int) * dti
                <= dti * 3000000000 && -2400000000int <= (nx as int) * 800 * (mult as int)
                <= 2400000000int && -2400000000int <= (ny as int) * 800 * (mult as int)
                <= 2400000000int) by (nonlinear_arith)
                requires
                    -1000 <= (nx as int) <= 1000,
                    -1000 <= (ny as int) <= 1000,
                    0 <= (mult as int) <= 3000,
                    1 <= dti <= 1000,
            ;
            lemma_div_trunc_scaled((nx as int) * 1200 * dti, 1000000, 2 * dti);
            lemma_div_trunc_scaled((ny as int) * 1200 * dti, 1000000, 2 * dti);
            lemma_div_trunc_scaled((nx as int) * 800 * (mult as int) * dti, 3000000000, dti);
            lemma_div_trunc_scaled((ny as int) * 800 * (mult as int) * dti, 3000000000, dti);
        }
        mid_vx = p.vx + div_trunc_i64(nx * 1200 * dt, 1000000) + div_trunc_i64(
            nx * 800 * mult * dt,
            3000000000,
        );
        mid_vy = p.vy + div_trunc_i64(ny * 1200 * dt, 1000000) + div_trunc_i64(
            ny * 800 * mult * dt,
            3000000000,
        );
        mid_px = p.px;
        mid_py = p.py;
    } else {
        let dir = rand_direction();
        let dx: i64 = dir.0;
        let dy: i64 = dir.1;
        proof {
            kick_dir = (dx as int, dy as int);
            assert(0 <= (dx as int) * (dx as int) <= 1000000 && 0 <= (dy as int) * (dy as int)
                <= 1000000 && dist_sq(dx as int, dy as int) >= 1) by (nonlinear_arith)
                requires dir_ok(dx as int, dy as int);
            lemma_norm_components(dx as int, dy as int);
        }
        let nsq: i64 = dx * dx + dy * dy;
        let nu: u64 = isqrt_u64(nsq as u64);
        proof {
            assert(nu <= 1415) by (nonlinear_arith)
                requires nu * nu <= 2000000;
        }
        let n: i64 = nu as i64;
        proof {
            let ni = n as int;
            assert(-(12000 * ni) <= (dx as int) * 12000 <= 12000 * ni && -(12000 * ni) <= (
            dy as int) * 12000 <= 12000 * ni && -(300 * ni) <= (dx as int) * 300 <= 300 * ni && -(
            300 * ni) <= (dy as int) * 300 <= 300 * ni) by (nonlinear_arith)
                requires iabs(dx as int) <= ni, iabs(dy as int) <= ni;
            lemma_div_trunc_scaled((dx as int) * 12000, ni, 12000);
            lemma_div_trunc_scaled((dy as int) * 12000, ni, 12000);
            lemma_div_trunc_scaled((dx as int) * 300, ni, 300);
            lemma_div_trunc_scaled((dy as int) * 300, ni, 300);
        }
        mid_vx = div_trunc_i64(dx * 12000, n);
        mid_vy = div_trunc_i64(dy * 12000, n);
        mid_px = div_trunc_i64(dx * 300, n);
        mid_py = div_trunc_i64(dy * 300, n);
    }
    proof {
        let dti = dt as int;
        assert(-(39 * dti * 1000) <= (mid_vx as int) * dti <= 39 * dti * 1000 && -(39 * dti
            * 1000) <= (mid_vy as int) * dti <= 39 * dti * 1000) by (nonlinear_arith)
            requires
                iabs(mid_vx as int) <= 39000,
                iabs(mid_vy as int) <= 39000,
                1 <= dti <= 1000,
        ;
        assert(-(500 * dti) <= (p.vz as int) * dti <= 500 * dti) by (nonlinear_arith)
            requires -500 <= (p.vz as int) <= 500, 1 <= dti <= 1000;
        lemma_div_trunc_scaled((mid_vx as int) * dti, 1000, 39 * dti);
        lemma_div_trunc_scaled((mid_vy as int) * dti, 1000, 39 * dti);
        lemma_div_trunc_bounds((p.vz as int) * dti, 1000, 500 * dti);
        lemma_half_step(p.vz as int, dti);
    }
    let px2: i64 = mid_px + div_trunc_i64(mid_vx * dt, 1000);
    let py2: i64 = mid_py + div_trunc_i64(mid_vy * dt, 1000);
    let pz2: i64 = p.pz + div_trunc_i64(p.vz * dt, 1000);
    let age2: i64 = p.age + dt;
    proof {
        assert(0 <= (px2 as int) * (px2 as int) <= 4000000000int && 0 <= (py2 as int) * (
        py2 as int) <= 4000000000int) by (nonlinear_arith)
            requires iabs(px2 as int) <= 54000, iabs(py2 as int) <= 54000;
    }
    let s2: i64 = px2 * px2 + py2 * py2;
    let alive2: bool = age2 <= 8000 && s2 <= 225000000;
    let q = Particle {
        px: px2,
        py: py2,
        pz: pz2,
        vx: mid_vx,
        vy: mid_vy,
        vz: p.vz,
        age: age2,
        alive: alive2,
    };
    proof {
        if dist_sq(p.px as int, p.py as int) > 2500 {
            assert(q.m() == step_far(p.m(), dt as int));
        } else {
            assert(q.m() == kick_step(p.m(), kick_dir.0, kick_dir.1, dt as int));
        }
    }
    q
}

/// One gravity-strategy step of a live particle: constant downward
/// acceleration, integration, aging, and a same-tick reset to the
/// origin when the particle outlives its bound or falls through the
/// floor. Gravity particles never die; they are recycled in place.
fn advance_gravity(p: Particle, dt: i64) -> (q: Particle)
    requires
        p.alive,
        p_wf_gravity(p.m()),
        1 <= dt <= 1000,
    ensures
        gravity_slot(p.m(), q.m(), dt as int),
        p_wf_gravity(q.m()),
        q.alive,
{
    proof {
        lemma_div_trunc_scaled(9800 * (dt as int), 1000, 10 * (dt as int));
        assert(-(2 * (dt as int) * 1000) <= (p.vx as int) * (dt as int) <= 2 * (dt as int)
            * 1000 && -(2 * (dt as int) * 1000) <= (p.vz as int) * (dt as int) <= 2 * (
        dt as int) * 1000) by (nonlinear_arith)
            requires
                -2000 <= (p.vx as int) <= 2000,
                -2000 <= (p.vz as int) <= 2000,
                1 <= (dt as int) <= 1000,
        ;
        lemma_div_trunc_scaled((p.vx as int) * (dt as int), 1000, 2 * (dt as int));
        lemma_div_trunc_scaled((p.vz as int) * (dt as int), 1000, 2 * (dt as int));
        crate::fixed::lemma_div_trunc_recover((p.vx as int) * (dt as int), 1000);
        crate::fixed::lemma_div_trunc_recover((p.vz as int) * (dt as int), 1000);
    }
    let dvy: i64 = div_trunc_i64(9800 * dt, 1000);
    let vy2: i64 = p.vy - dvy;
    proof {
        assert(-(100 * (dt as int) * 1000) <= (vy2 as int) * (dt as int) <= 100 * (dt as int)
            * 1000) by (nonlinear_arith)
            requires iabs(vy2 as int) <= 100000, 1 <= (dt as int) <= 1000;
        lemma_div_trunc_scaled((vy2 as int) * (dt as int), 1000, 100 * (dt as int));
        crate::fixed::lemma_div_trunc_recover((vy2 as int) * (dt as int), 1000);
        assert(iabs(p.py as int) <= 720000) by (nonlinear_arith)
            requires
                1000 * iabs(p.py as int) <= (p.age as int) * (10000 + 10 * (p.age as int)),
                0 <= (p.age as int) <= 8000,
        ;
    }
    let px2: i64 = p.px + div_trunc_i64(p.vx * dt, 1000);
    let py2: i64 = p.py + div_trunc_i64(vy2 * dt, 1000);
    let pz2: i64 = p.pz + div_trunc_i64(p.vz * dt, 1000);
    let age2: i64 = p.age + dt;
    if age2 > 8000 || py2 < -10000 {
        // same-tick reset: back to the origin, fresh upward-biased velocity
        let vx: i64 = rand_u64_in(0, 4000) as i64 - 2000;
        let vy: i64 = rand_u64_in(5000, 10000) as i64;
        let vz: i64 = rand_u64_in(0, 4000) as i64 - 2000;
        let q = Particle { px: 0, py: 0, pz: 0, vx, vy, vz, age: 0, alive: true };
        proof {
            assert(q.m() == gravity_spawn(vx as int, vy as int, vz as int));
        }
        q
    } else {
        let q = Particle {
            px: px2,
            py: py2,
            pz: pz2,
            vx: p.vx,
            vy: vy2,
            vz: p.vz,
            age: age2,
            alive: true,
        };
        proof {
            assert(q.m() == gravity_step(p.m(), dt as int));
            let a = p.age as int;
            let a2 = age2 as int;
            let dti = dt as int;
            assert(1000 * iabs(px2 as int) <= 2000 * a2 && 1000 * iabs(pz2 as int) <= 2000
                * a2) by (nonlinear_arith)
                requires
                    1000 * iabs(p.px as int) <= 2000 * a,
                    1000 * iabs(p.pz as int) <= 2000 * a,
                    1000 * iabs((px2 - p.px) as int) <= iabs((p.vx as int) * dti),
                    1000 * iabs((pz2 - p.pz) as int) <= iabs((p.vz as int) * dti),
                    -2000 <= (p.vx as int) <= 2000,
                    -2000 <= (p.vz as int) <= 2000,
                    px2 == p.px + (px2 - p.px),
                    a2 == a + dti,
                    0 <= a,
                    1 <= dti,
            ;
            assert(1000 * iabs(py2 as int) <= a2 * (10000 + 10 * a2)) by (nonlinear_arith)
                requires
                    1000 * iabs(p.py as int) <= a * (10000 + 10 * a),
                    1000 * iabs((py2 - p.py) as int) <= iabs((vy2 as int) * dti),
                    iabs(vy2 as int) <= 10000 + 10 * a2,
                    a2 == a + dti,
                    0 <= a,
                    1 <= dti,
            ;
        }
        q
    }
}

/// One plain-explosion step of a live particle: the shared radial
/// force rule; a particle the step would cull respawns immediately
/// instead of waiting dead for the emission subsystem.
fn advance_explosion(p: Particle, dt: i64) -> (q: Particle)
    requires
        p.alive,
        p_wf(p.m()),
        1 <= dt <= 1000,
    ensures
        explosion_slot(p.m(), q.m(), dt as int),
        p_wf(q.m()),
        q.alive,
{
    let mid = advance_particle(p, dt);
    let q: Particle = if mid.alive {
        mid
    } else {
        fresh_particle()
    };
    proof {
        if beyond_dead_zone(p.m()) {
            assert(culled_to_respawn(step_far(p.m(), dt as int), q.m()));
        } else {
            let (dx, dy) = choose|dx: int, dy: int|
                dir_ok(dx, dy) && mid.m() == kick_step(p.m(), dx, dy, dt as int);
            assert(culled_to_respawn(kick_step(p.m(), dx, dy, dt as int), q.m()));
        }
    }
    q
}

pub struct Simulation {
    pub particles: Vec<Particle>,
    /// Fixed timestep, milliseconds.
    pub time_step: i64,
    /// Pool capacity; the slot vector never grows or shrinks.
    pub max_particles: usize,
    /// Emission backlog, milliseconds.
    pub emission_timer: i64,
    /// The update rule selected at construction.
    pub strategy: ForceStrategy,
}

impl Simulation {
    pub open spec fn wf(&self) -> bool {
        &&& self.particles@.len() == self.max_particles
        &&& self.max_particles <= MAX_POOL
        &&& 1 <= self.time_step <= 1000
        &&& 0 <= self.emission_timer <= TIMER_CAP
        &&& forall|i: int|
            0 <= i < self.particles@.len() ==> p_wf_mode(
                self.strategy,
                (#[trigger] self.particles@[i]).m(),
            )
    }

    /// A pooled-explosion pool of `max_count` slots, all initially dead,
    /// at the sixty frames per second timestep.
    pub fn new(max_count: usize) -> (sim: Simulation)
        requires
            max_count <= MAX_POOL,
        ensures
            sim.wf(),
            sim.particles@.len() == max_count,
            sim.max_particles == max_count,
            sim.time_step == 16,
            sim.emission_timer == 0,
            sim.strategy == ForceStrategy::PooledExplosion,
            forall|i: int| 0 <= i < max_count ==> !(#[trigger] sim.particles@[i]).alive,
            count_alive(sim.particles@) == 0,
    {
        Simulation::with_strategy(max_count, ForceStrategy::PooledExplosion)
    }

    /// A pool driven by the chosen update rule. The pooled variant
    /// starts empty and fills through emission; the gravity and plain
    /// explosion variants start fully populated at the origin, pre-aged
    /// at random so their resets do not synchronize.
    pub fn with_strategy(max_count: usize, strategy: ForceStrategy) -> (sim: Simulation)
        requires
            max_count <= MAX_POOL,
        ensures
            sim.wf(),
            sim.particles@.len() == max_count,
            sim.max_particles == max_count,
            sim.time_step == 16,
            sim.emission_timer == 0,
            sim.strategy == strategy,
            strategy == ForceStrategy::PooledExplosion ==> (forall|i: int|
                0 <= i < max_count ==> !(#[trigger] sim.particles@[i]).alive) && count_alive(
                sim.particles@,
            ) == 0,
            strategy != ForceStrategy::PooledExplosion ==> (forall|i: int|
                0 <= i < max_count ==> (#[trigger] sim.particles@[i]).alive && 0
                    <= sim.particles@[i].age <= LIFETIME_MS) && count_alive(sim.particles@)
                == max_count,
    {
        let pooled: bool = matches!(strategy, ForceStrategy::PooledExplosion);
        let mut particles: Vec<Particle> = Vec::new();
        let mut i: usize = 0;
        while i < max_count
            invariant
                0 <= i <= max_count,
                particles@.len() == i,
                pooled == (strategy == ForceStrategy::PooledExplosion),
                pooled ==> (forall|j: int| 0 <= j < i ==> !(#[trigger] particles@[j]).alive)
                    && count_alive(particles@) == 0,
                !pooled ==> (forall|j: int|
                    0 <= j < i ==> (#[trigger] particles@[j]).alive && 0 <= particles@[j].age
                        <= LIFETIME_MS) && count_alive(particles@) == i,
                forall|j: int|
                    0 <= j < i ==> p_wf_mode(strategy, (#[trigger] particles@[j]).m()),
            decreases max_count - i,
        {
            let ghost prev = particles@;
            let p: Particle = match strategy {
                ForceStrategy::PooledExplosion => Particle {
                    px: 0,
                    py: 0,
                    pz: 0,
                    vx: 0,
                    vy: 0,
                    vz: 0,
                    age: 0,
                    alive: false,
                },
                ForceStrategy::Gravity => {
                    let vx: i64 = rand_u64_in(0, 4000) as i64 - 2000;
                    let vy: i64 = rand_u64_in(5000, 10000) as i64;
                    let vz: i64 = rand_u64_in(0, 4000) as i64 - 2000;
                    let age: i64 = rand_u64_in(0, 8000) as i64;
                    Particle { px: 0, py: 0, pz: 0, vx, vy, vz, age, alive: true }
                },
                ForceStrategy::Explosion => {
                    let mut fp = fresh_particle();
                    fp.age = rand_u64_in(0, 8000) as i64;
                    fp
                },
            };
            particles.push(p);
            proof {
                assert(particles@.drop_last() =~= prev);
            }
            i = i + 1;
        }
        Simulation {
            particles,
            time_step: 16,
            max_particles: max_count,
            emission_timer: 0,
            strategy,
        }
    }

    /// Revives the first dead slot with a freshly randomized particle.
    /// Returns false — leaving the pool untouched — exactly when every
    /// slot is alive, so emission can never overfill the pool.
    fn emit_particle(&mut self) -> (emitted: bool)
        requires
            old(self).wf(),
            old(self).strategy == ForceStrategy::PooledExplosion,
        ensures
            final(self).wf(),
            final(self).strategy == old(self).strategy,
            final(self).particles@.len() == old(self).particles@.len(),
            final(self).time_step == old(self).time_step,
            final(self).max_particles == old(self).max_particles,
            final(self).emission_timer == old(self).emission_timer,
            !emitted ==> final(self).particles == old(self).particles && forall|i: int|
                0 <= i < old(self).particles@.len() ==> (#[trigger] old(self).particles@[i]).alive,
            emitted ==> exists|j: int|
                0 <= j < old(self).particles@.len() && !(#[trigger] old(self).particles@[j]).alive
                    && is_fresh_emit(final(self).particles@[j].m()) && (forall|k: int|
                    0 <= k < old(self).particles@.len() && k != j ==> final(self).particles@[k]
                        == old(self).particles@[k]) && (forall|k: int|
                    0 <= k < j ==> (#[trigger] old(self).particles@[k]).alive),
    {
        let ghost s = old(self).particles@;
        let mut i: usize = 0;
        while i < self.particles.len()
            invariant
                self == old(self),
                self.wf(),
                self.strategy == ForceStrategy::PooledExplosion,
                s == self.particles@,
                0 <= i <= s.len(),
                forall|k: int| 0 <= k < i ==> (#[trigger] s[k]).alive,
            decreases s.len() - i,
        {
            if !self.particles[i].alive {
                let p = fresh_particle();
                self.particles[i] = p;
                proof {
                    assert forall|k: int| 0 <= k < self.particles@.len() implies p_wf_mode(
                        self.strategy,
                        (#[trigger] self.particles@[k]).m(),
                    ) by {
                        if k == i as int {
                            assert(self.particles@[k] == p);
                            assert(p_wf(p.m()));
                        } else {
                            assert(self.particles@[k] == s[k]);
                        }
                    }
                }
                return true;
            }
            i = i + 1;
        }
        false
    }

    /// The emission phase of one tick: accrues the backlog (capped),
    /// then revives the first dead slots of the pool, one per full
    /// interval in the backlog, stopping early when no dead slot is
    /// left — never emitting past capacity.
    fn run_emission(&mut self)
        requires
            old(self).wf(),
            old(self).strategy == ForceStrategy::PooledExplosion,
        ensures
            final(self).wf(),
            final(self).strategy == old(self).strategy,
            final(self).particles@.len() == old(self).particles@.len(),
            final(self).time_step == old(self).time_step,
            final(self).max_particles == old(self).max_particles,
            final(self).emission_timer == post_emission_timer(*old(self)),
            forall|j: int|
                0 <= j < old(self).particles@.len() && !(#[trigger] old(self).particles@[j]).alive
                    && count_dead_prefix(old(self).particles@, j) < emission_quota(*old(self))
                    ==> is_fresh_emit(final(self).particles@[j].m()),
            forall|j: int|
                0 <= j < old(self).particles@.len() && !(!old(self).particles@[j].alive
                    && count_dead_prefix(old(self).particles@, j) < emission_quota(*old(self)))
                    ==> (#[trigger] final(self).particles@[j]) == old(self).particles@[j],
    {
        let ghost s0 = old(self).particles@;
        let ghost alive0 = count_alive(s0) as int;
        let ghost maxg = old(self).max_particles as int;
        let ghost deadg = count_dead_prefix(s0, s0.len() as int) as int;
        let ghost quota = emission_quota(*old(self));
        proof {
            lemma_dead_alive_split(s0);
        }
        let dt: i64 = self.time_step;
        let current_alive: usize = self.get_count();
        if current_alive < self.max_particles {
            // Equilibrium refill rate: capacity over the nominal lifetime,
            // boosted threefold while the shortfall exceeds a quarter of
            // the pool; the interval is floored at one millisecond by the
            // fixed-point grid.
            let needed: usize = self.max_particles - current_alive;
            let boosted: bool = needed > self.max_particles / 4;
            let den: u64 = if boosted {
                3 * (self.max_particles as u64)
            } else {
                self.max_particles as u64
            };
            let qv: u64 = 8000 / den;
            proof {
                vstd::arithmetic::div_mod::lemma_div_nonincreasing(8000, den as int);
            }
            let interval: i64 = if qv < 1 {
                1
            } else {
                qv as i64
            };
            // The backlog is capped so a long stall cannot turn into an
            // unbounded burst later.
            let t1: i64 = self.emission_timer + dt;
            self.emission_timer = if t1 > 16000 {
                16000
            } else {
                t1
            };
            let ghost t1g = capped_backlog(
                old(self).emission_timer as int,
                old(self).time_step as int,
            );
            let ghost mut k: int = 0;
            let mut stalled: bool = false;
            while self.emission_timer >= interval && !stalled
                invariant
                    self.wf(),
                    self.strategy == old(self).strategy,
                    old(self).strategy == ForceStrategy::PooledExplosion,
                    1 <= interval <= 8000,
                    self.particles@.len() == s0.len(),
                    self.time_step == old(self).time_step,
                    self.max_particles == old(self).max_particles,
                    alive0 == count_alive(s0) as int,
                    maxg == old(self).max_particles as int,
                    deadg == count_dead_prefix(s0, s0.len() as int) as int,
                    alive0 + deadg == s0.len(),
                    alive0 < maxg,
                    interval as int == emission_interval(maxg, alive0),
                    t1g == capped_backlog(
                        old(self).emission_timer as int,
                        old(self).time_step as int,
                    ),
                    0 <= k <= deadg,
                    self.emission_timer as int == t1g - k * (interval as int),
                    stalled ==> k == deadg,
                    stalled ==> self.emission_timer >= interval,
                    forall|j: int|
                        0 <= j < s0.len() && !(#[trigger] s0[j]).alive && count_dead_prefix(s0, j)
                            < k ==> is_fresh_emit(self.particles@[j].m()),
                    forall|j: int|
                        0 <= j < s0.len() && !(!s0[j].alive && count_dead_prefix(s0, j) < k) ==> (
                        #[trigger] self.particles@[j]) == s0[j],
                decreases (if stalled { 0int } else { 1int }), self.emission_timer,
            {
                let ghost pre_parts = self.particles@;
                if self.emit_particle() {
                    proof {
                        let j = choose|j: int|
                            0 <= j < pre_parts.len() && !pre_parts[j].alive && is_fresh_emit(
                                self.particles@[j].m(),
                            ) && (forall|t: int|
                                0 <= t < pre_parts.len() && t != j ==> self.particles@[t]
                                    == pre_parts[t]) && (forall|t: int|
                                0 <= t < j ==> (#[trigger] pre_parts[t]).alive);
                        // The revived slot is unchanged so far, hence dead in
                        // the original pool...
                        if !s0[j].alive && count_dead_prefix(s0, j) < k {
                            lemma_fresh_alive(pre_parts[j].m());
                        }
                        assert(pre_parts[j] == s0[j]);
                        // ... and it is exactly the k-th dead slot: any earlier
                        // dead slot with count k would still be dead, yet
                        // everything below j is alive.
                        assert(count_dead_prefix(s0, j) >= k);
                        if count_dead_prefix(s0, j) > k {
                            lemma_nth_dead(s0, j, k);
                            let t = choose|t: int|
                                0 <= t < j && !(#[trigger] s0[t]).alive && count_dead_prefix(s0, t)
                                    == k;
                            assert(pre_parts[t] == s0[t]);
                            assert(false);
                        }
                        // one more dead slot exists below j + 1
                        lemma_cdp_monotone(s0, j + 1, s0.len() as int);
                        // timer bookkeeping for one more paid interval
                        assert((k + 1) * (interval as int) == k * (interval as int) + (
                        interval as int)) by (nonlinear_arith);
                        k = k + 1;
                        assert forall|t: int|
                            0 <= t < s0.len() && !(#[trigger] s0[t]).alive && count_dead_prefix(
                                s0,
                                t,
                            ) < k implies is_fresh_emit(self.particles@[t].m()) by {
                            if t != j {
                                // a dead slot below the revived one has a
                                // strictly smaller dead count, one above a
                                // strictly larger one
                                if t < j {
                                    lemma_cdp_monotone(s0, t + 1, j);
                                } else {
                                    lemma_cdp_monotone(s0, j + 1, t);
                                }
                                assert(self.particles@[t] == pre_parts[t]);
                            }
                        }
                        assert forall|t: int|
                            0 <= t < s0.len() && !(!s0[t].alive && count_dead_prefix(s0, t)
                                < k) implies (#[trigger] self.particles@[t]) == s0[t] by {
                            if !s0[t].alive && t != j {
                                if t < j {
                                    lemma_cdp_monotone(s0, t + 1, j);
                                } else {
                                    lemma_cdp_monotone(s0, j + 1, t);
                                }
                            }
                            assert(t != j);
                            assert(self.particles@[t] == pre_parts[t]);
                        }
                    }
                    self.emission_timer = self.emission_timer - interval;
                } else {
                    stalled = true;
                    proof {
                        // No dead slot was left: every dead slot of the
                        // original pool has been refilled, so k has reached
                        // the dead count.
                        if k < deadg {
                            lemma_nth_dead(s0, s0.len() as int, k);
                            let t = choose|t: int|
                                0 <= t < s0.len() && !(#[trigger] s0[t]).alive
                                    && count_dead_prefix(s0, t) == k;
                            assert(self.particles@[t] == s0[t]);
                            assert(false);
                        }
                    }
                }
            }
            proof {
                // The loop's exit pins the emission count to the quota.
                let iv = interval as int;
                if !stalled {
                    assert(0 <= t1g - k * iv < iv);
                    assert(t1g == k * iv + (t1g - k * iv));
                    vstd::arithmetic::div_mod::lemma_fundamental_div_mod_converse_div(
                        t1g,
                        iv,
                        k,
                        t1g - k * iv,
                    );
                    assert(k == t1g / iv);
                } else {
                    assert(t1g - k * iv >= iv);
                    assert((k + 1) * iv == k * iv + iv) by (nonlinear_arith);
                    vstd::arithmetic::div_mod::lemma_div_is_ordered((k + 1) * iv, t1g, iv);
                    vstd::arithmetic::div_mod::lemma_div_by_multiple(k + 1, iv);
                    assert(t1g / iv >= k + 1);
                }
                assert(k == quota);
                assert(self.emission_timer as int == post_emission_timer(*old(self)));
            }
        } else {
            proof {
                assert(quota == 0);
                assert(self.emission_timer as int == post_emission_timer(*old(self)));
            }
        }
    }

    /// Advances the simulation by one fixed timestep under the strategy
    /// chosen at construction — for the pooled variant: rate-limited
    /// emission toward capacity, then force, integration, aging and
    /// culling on every live particle; the gravity and plain explosion
    /// variants skip emission and recycle their particles in place.
    /// Returns the flat buffer of live positions. Synchronous: every
    /// sub-step has completed on return.
    pub fn tick(&mut self) -> (data: Vec<i64>)
        requires
            old(self).wf(),
        ensures
            final(self).wf(),
            final(self).particles@.len() == old(self).particles@.len(),
            final(self).time_step == old(self).time_step,
            final(self).max_particles == old(self).max_particles,
            final(self).strategy == old(self).strategy,
            forall|i: int|
                0 <= i < old(self).particles@.len() ==> strategy_slot_step(
                    old(self).strategy,
                    (#[trigger] old(self).particles@[i]).m(),
                    final(self).particles@[i].m(),
                    old(self).time_step as int,
                ),
            old(self).strategy == ForceStrategy::PooledExplosion ==> final(self).emission_timer
                == post_emission_timer(*old(self)),
            old(self).strategy != ForceStrategy::PooledExplosion ==> final(self).emission_timer
                == old(self).emission_timer,
            old(self).strategy == ForceStrategy::PooledExplosion ==> forall|i: int|
                0 <= i < old(self).particles@.len() && !(#[trigger] old(self).particles@[i]).alive
                    && count_dead_prefix(old(self).particles@, i) >= emission_quota(*old(self))
                    ==> final(self).particles@[i] == old(self).particles@[i],
            old(self).strategy == ForceStrategy::PooledExplosion ==> forall|i: int|
                0 <= i < old(self).particles@.len() && !(#[trigger] old(self).particles@[i]).alive
                    && count_dead_prefix(old(self).particles@, i) < emission_quota(*old(self))
                    ==> exists|mid: ParticleModel|
                    is_fresh_emit(mid) && #[trigger] updated(
                        mid,
                        final(self).particles@[i].m(),
                        old(self).time_step as int,
                    ),
            data@ == positions_spec(final(self).particles@),
    {
        let ghost s0 = old(self).particles@;
        let ghost quota = emission_quota(*old(self));
        let dt: i64 = self.time_step;
        match self.strategy {
            ForceStrategy::PooledExplosion => {
                self.run_emission();
                let ghost e_seq = self.particles@;
                let ghost timer1 = self.emission_timer;
                let mut i: usize = 0;
                while i < self.particles.len()
                    invariant
                        self.wf(),
                        self.strategy == old(self).strategy,
                        old(self).strategy == ForceStrategy::PooledExplosion,
                        self.particles@.len() == s0.len(),
                        e_seq.len() == s0.len(),
                        0 <= i <= s0.len(),
                        dt == self.time_step,
                        1 <= dt <= 1000,
                        self.time_step == old(self).time_step,
                        self.max_particles == old(self).max_particles,
                        self.emission_timer == timer1,
                        timer1 as int == post_emission_timer(*old(self)),
                        quota == emission_quota(*old(self)),
                        s0 == old(self).particles@,
                        forall|j: int|
                            0 <= j < s0.len() && !(#[trigger] s0[j]).alive && count_dead_prefix(
                                s0,
                                j,
                            ) < quota ==> is_fresh_emit(e_seq[j].m()),
                        forall|j: int|
                            0 <= j < s0.len() && !(!s0[j].alive && count_dead_prefix(s0, j)
                                < quota) ==> (#[trigger] e_seq[j]) == s0[j],
                        forall|j: int|
                            0 <= j < i ==> updated(
                                e_seq[j].m(),
                                (#[trigger] self.particles@[j]).m(),
                                dt as int,
                            ),
                        forall|j: int|
                            0 <= j < i && !(#[trigger] e_seq[j]).alive ==> self.particles@[j]
                                == e_seq[j],
                        forall|j: int| i <= j < s0.len() ==> self.particles@[j] == e_seq[j],
                    decreases s0.len() - i,
                {
                    let p = self.particles[i];
                    if p.alive {
                        let qp = advance_particle(p, dt);
                        let ghost pre_parts = self.particles@;
                        self.particles[i] = qp;
                        proof {
                            assert forall|k: int| 0 <= k < self.particles@.len() implies p_wf_mode(
                                self.strategy,
                                (#[trigger] self.particles@[k]).m(),
                            ) by {
                                if k != i as int {
                                    assert(self.particles@[k] == pre_parts[k]);
                                }
                            }
                        }
                    }
                    i = i + 1;
                }
                proof {
                    assert forall|t: int| 0 <= t < s0.len() implies slot_step(
                        (#[trigger] s0[t]).m(),
                        self.particles@[t].m(),
                        dt as int,
                    ) by {
                        if s0[t].alive {
                            assert(e_seq[t] == s0[t]);
                        } else {
                            if count_dead_prefix(s0, t) < quota {
                                assert(is_fresh_emit(e_seq[t].m()));
                                assert(updated(e_seq[t].m(), self.particles@[t].m(), dt as int));
                            } else {
                                assert(e_seq[t] == s0[t]);
                            }
                        }
                    }
                    assert forall|t: int|
                        0 <= t < s0.len() && !(#[trigger] s0[t]).alive && count_dead_prefix(s0, t)
                            >= quota implies self.particles@[t] == s0[t] by {
                        assert(e_seq[t] == s0[t]);
                        assert(!e_seq[t].alive);
                    }
                    assert forall|t: int|
                        0 <= t < s0.len() && !(#[trigger] s0[t]).alive && count_dead_prefix(s0, t)
                            < quota implies exists|mid: ParticleModel|
                        is_fresh_emit(mid) && #[trigger] updated(
                            mid,
                            self.particles@[t].m(),
                            dt as int,
                        ) by {
                        assert(is_fresh_emit(e_seq[t].m()));
                        assert(updated(e_seq[t].m(), self.particles@[t].m(), dt as int));
                    }
                }
            },
            ForceStrategy::Gravity => {
                let mut i: usize = 0;
                while i < self.particles.len()
                    invariant
                        self.wf(),
                        self.strategy == old(self).strategy,
                        old(self).strategy == ForceStrategy::Gravity,
                        self.particles@.len() == s0.len(),
                        s0 == old(self).particles@,
                        0 <= i <= s0.len(),
                        dt == self.time_step,
                        1 <= dt <= 1000,
                        self.time_step == old(self).time_step,
                        self.max_particles == old(self).max_particles,
                        self.emission_timer == old(self).emission_timer,
                        forall|j: int|
                            0 <= j < i ==> gravity_slot(
                                (#[trigger] s0[j]).m(),
                                self.particles@[j].m(),
                                dt as int,
                            ),
                        forall|j: int| i <= j < s0.len() ==> self.particles@[j] == s0[j],
                    decreases s0.len() - i,
                {
                    let p = self.particles[i];
                    if p.alive {
                        let qp = advance_gravity(p, dt);
                        let ghost pre_parts = self.particles@;
                        self.particles[i] = qp;
                        proof {
                            assert forall|k: int| 0 <= k < self.particles@.len() implies p_wf_mode(
                                self.strategy,
                                (#[trigger] self.particles@[k]).m(),
                            ) by {
                                if k != i as int {
                                    assert(self.particles@[k] == pre_parts[k]);
                                }
                            }
                        }
                    }
                    i = i + 1;
                }
            },
            ForceStrategy::Explosion => {
                let mut i: usize = 0;
                while i < self.particles.len()
                    invariant
                        self.wf(),
                        self.strategy == old(self).strategy,
                        old(self).strategy == ForceStrategy::Explosion,
                        self.particles@.len() == s0.len(),
                        s0 == old(self).particles@,
                        0 <= i <= s0.len(),
                        dt == self.time_step,
                        1 <= dt <= 1000,
                        self.time_step == old(self).time_step,
                        self.max_particles == old(self).max_particles,
                        self.emission_timer == old(self).emission_timer,
                        forall|j: int|
                            0 <= j < i ==> explosion_slot(
                                (#[trigger] s0[j]).m(),
                                self.particles@[j].m(),
                                dt as int,
                            ),
                        forall|j: int| i <= j < s0.len() ==> self.particles@[j] == s0[j],
                    decreases s0.len() - i,
                {
                    let p = self.particles[i];
                    if p.alive {
                        let qp = advance_explosion(p, dt);
                        let ghost pre_parts = self.particles@;
                        self.particles[i] = qp;
                        proof {
                            assert forall|k: int| 0 <= k < self.particles@.len() implies p_wf_mode(
                                self.strategy,
                                (#[trigger] self.particles@[k]).m(),
                            ) by {
                                if k != i as int {
                                    assert(self.particles@[k] == pre_parts[k]);
                                }
                            }
                        }
                    }
                    i = i + 1;
                }
            },
        }
        self.get_positions()
    }

    /// Number of live particles.
    pub fn get_count(&self) -> (n: usize)
        requires
            self.wf(),
        ensures
            n == count_alive(self.particles@),
    {
        let ghost s = self.particles@;
        let mut n: usize = 0;
        let mut i: usize = 0;
        proof {
            lemma_count_alive_le_len(s);
        }
        while i < self.particles.len()
            invariant
                s == self.particles@,
                0 <= i <= s.len(),
                n == count_alive(s.take(i as int)),
                n <= i,
            decreases s.len() - i,
        {
            proof {
                crate::scene::lemma_take_one_more(s, i as int);
            }
            if self.particles[i].alive {
                n = n + 1;
            }
            i = i + 1;
        }
        proof {
            assert(s.take(s.len() as int) =~= s);
        }
        n
    }

    /// The flat buffer of live-particle positions: a value copy, three
    /// entries per live particle, in slot order.
    pub fn get_positions(&self) -> (data: Vec<i64>)
        requires
            self.wf(),
        ensures
            data@ == positions_spec(self.particles@),
    {
        let ghost s = self.particles@;
        let mut data: Vec<i64> = Vec::new();
        let mut i: usize = 0;
        while i < self.particles.len()
            invariant
                s == self.particles@,
                0 <= i <= s.len(),
                data@ == positions_spec(s.take(i as int)),
            decreases s.len() - i,
        {
            proof {
                crate::scene::lemma_take_one_more(s, i as int);
            }
            let p = self.particles[i];
            if p.alive {
                data.push(p.px);
                data.push(p.py);
                data.push(p.pz);
                proof {
                    assert(data@ =~= positions_spec(s.take(i as int)) + seq![p.px, p.py, p.pz]);
                }
            }
            i = i + 1;
        }
        proof {
            assert(s.take(s.len() as int) =~= s);
        }
        data
    }
}

} // verus!
