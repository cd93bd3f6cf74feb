//! The simulation engine: owns the population and advances it tick by tick.
//!
//! A tick first applies the configured boundary policy to every position,
//! then walks the population in order; for each agent it scans every other
//! agent, accumulating contagion, separation, chase/escape, alignment and
//! cohesion, and immediately integrates that agent before moving on. The
//! scan therefore sees agents earlier in the order in their already-advanced
//! state and later ones in their pre-tick state — a deliberate sequential
//! semantics that makes runs bit-for-bit reproducible.

use vstd::prelude::*;
use vstd::pervasive::VecAdditionalExecFns;

use crate::boid::{
    integrate_spec, max_speed_of, Boid, BoidType, ACCEL_LIMIT, DT_LIMIT, MAX_SPEED_BOUND,
};
use crate::config::{valid, BoundaryPolicy, Config, ConfigError};
use crate::tools::{
    distsq, floor_sqrt, lemma_magsq_nonneg, lemma_square_bound, lemma_tdiv_mono,
    lemma_tdiv_mul_le, lemma_tdiv_multiple, lemma_tdiv_range, magsq, muldiv, tdiv, Vec2,
};

verus! {

/// Largest position coordinate of a well-formed population between ticks.
pub const POS_LIMIT: i64 = 1_000_000_000_000;

/// Largest position coordinate that can arise while a tick is in progress:
/// the between-tick bound plus one integration step of travel.
pub const POS_MID: i64 = 1_100_000_000_000;

/// The squared sensory radius.
pub open spec fn sensory_sq(c: Config) -> int {
    (c.sensory_radius as int) * (c.sensory_radius as int)
}

/// The squared contagion (bounding) radius.
pub open spec fn bounding_sq(c: Config) -> int {
    (c.bounding_radius as int) * (c.bounding_radius as int)
}

/// An agent's state is within the numeric envelope the engine maintains:
/// position inside `bound`, speed inside the per-kind ceiling, and a
/// bounded transient acceleration.
pub open spec fn boid_wf_at(b: Boid, c: Config, bound: int) -> bool {
    &&& -bound <= b.position.x as int <= bound
    &&& -bound <= b.position.y as int <= bound
    &&& magsq(b.velocity) <= max_speed_of(c, b.b_type) * max_speed_of(c, b.b_type)
    &&& -MAX_SPEED_BOUND <= b.velocity.x <= MAX_SPEED_BOUND
    &&& -MAX_SPEED_BOUND <= b.velocity.y <= MAX_SPEED_BOUND
    &&& -ACCEL_LIMIT <= b.acceleration.x <= ACCEL_LIMIT
    &&& -ACCEL_LIMIT <= b.acceleration.y <= ACCEL_LIMIT
}

/// Well-formedness of an agent between ticks.
pub open spec fn boid_wf(b: Boid, c: Config) -> bool {
    boid_wf_at(b, c, POS_LIMIT as int)
}

/// Well-formedness of an agent while a tick is in progress.
pub open spec fn boid_wf_mid(b: Boid, c: Config) -> bool {
    boid_wf_at(b, c, POS_MID as int)
}

/// One coordinate under the Wrap policy: a coordinate at or past the low
/// margin teleports to the high margin, and one past the high margin resets
/// to zero, checked in that order.
pub open spec fn wrap_coord(x: int, dim: int, size: int) -> int {
    let margin = dim + size / 2;
    let x1 = if x <= -size { margin } else { x };
    if x1 > margin { 0 } else { x1 }
}

/// An agent under the Wrap policy: both position axes wrapped independently.
pub open spec fn wrap_boid(b: Boid, c: Config) -> Boid {
    Boid {
        position: Vec2 {
            x: wrap_coord(b.position.x as int, c.width as int, c.boid_size as int) as i64,
            y: wrap_coord(b.position.y as int, c.height as int, c.boid_size as int) as i64,
        },
        velocity: b.velocity,
        acceleration: b.acceleration,
        b_type: b.b_type,
    }
}

/// Whether a coordinate triggers the Bounce policy on its axis: within the
/// half-agent-size margin of either boundary.
pub open spec fn bounce_hit(x: int, dim: int, size: int) -> bool {
    x <= size / 2 || x > dim - size / 2
}

/// The position coordinate after the Bounce policy: nudged one unit inward
/// on a hit, unchanged otherwise.
pub open spec fn bounce_pos(x: int, dim: int, size: int) -> int {
    if bounce_hit(x, dim, size) {
        if x <= size / 2 { x + 1 } else { x - 1 }
    } else {
        x
    }
}

/// The velocity component after the Bounce policy: inverted on a hit.
pub open spec fn bounce_vel(x: int, vx: int, dim: int, size: int) -> int {
    if bounce_hit(x, dim, size) { -vx } else { vx }
}

/// An agent under the Bounce policy: each axis checked independently.
pub open spec fn bounce_boid(b: Boid, c: Config) -> Boid {
    Boid {
        position: Vec2 {
            x: bounce_pos(b.position.x as int, c.width as int, c.boid_size as int) as i64,
            y: bounce_pos(b.position.y as int, c.height as int, c.boid_size as int) as i64,
        },
        velocity: Vec2 {
            x: bounce_vel(b.position.x as int, b.velocity.x as int, c.width as int,
                c.boid_size as int) as i64,
            y: bounce_vel(b.position.y as int, b.velocity.y as int, c.height as int,
                c.boid_size as int) as i64,
        },
        acceleration: b.acceleration,
        b_type: b.b_type,
    }
}

/// An agent under whichever boundary policy the configuration selects.
pub open spec fn boundary_boid(b: Boid, c: Config) -> Boid {
    match c.policy {
        BoundaryPolicy::Wrap => wrap_boid(b, c),
        BoundaryPolicy::Bounce => bounce_boid(b, c),
    }
}

/// The whole population after the boundary phase.
pub open spec fn boundary_seq(s: Seq<Boid>, c: Config) -> Seq<Boid> {
    s.map(|j: int, b: Boid| boundary_boid(b, c))
}

/// `vel` is what a spawned prey agent's velocity can be: the speed clamp of
/// the polar vector of some magnitude within the configured speed band and
/// some angle within the full turn.
pub open spec fn spawned_velocity(vel: Vec2, c: Config) -> bool {
    exists|m: int, a: int|
        vel == #[trigger] crate::tools::clamp_mag_spec(
            crate::tools::components_spec(m, a),
            c.min_speed as int,
            c.max_speed as int,
        ) && c.min_speed as int <= m <= c.max_speed as int && 0 <= a < 3600
}

/// A running simulation: the population and its configuration.
pub struct Simulation {
    pub boids: Vec<Boid>,
    pub config: Config,
}

impl Simulation {
    /// The engine's invariant: a valid configuration, the configured number
    /// of agents, and every agent inside the numeric envelope.
    pub open spec fn wf(self) -> bool {
        &&& valid(self.config)
        &&& self.boids@.len() == self.config.count
        &&& forall|i: int|
            0 <= i < self.boids@.len() ==> boid_wf(#[trigger] self.boids@[i], self.config)
    }

    /// Applies the Wrap policy to every agent's position.
    pub fn teleport_edges(&mut self)
        requires
            old(self).wf(),
        ensures
            final(self).config == old(self).config,
            final(self).boids@.len() == old(self).boids@.len(),
            forall|j: int|
                0 <= j < old(self).boids@.len() ==> final(self).boids@[j] == wrap_boid(
                    #[trigger] old(self).boids@[j],
                    old(self).config,
                ),
            final(self).wf(),
            forall|j: int|
                0 <= j < old(self).boids@.len() ==> {
                    let b = #[trigger] final(self).boids@[j];
                    -(old(self).config.boid_size as int) <= b.position.x as int
                        <= old(self).config.width as int + old(self).config.boid_size as int
                        && -(old(self).config.boid_size as int) <= b.position.y as int
                        <= old(self).config.height as int + old(self).config.boid_size as int
                },
    {
        let n = self.boids.len();
        let half: i64 = muldiv(self.config.boid_size, 1, 2);
        let margin_x: i64 = self.config.width + half;
        let margin_y: i64 = self.config.height + half;
        proof {
            lemma_tdiv_range(self.config.boid_size as int, self.config.boid_size as int, 2);
        }
        let mut i: usize = 0;
        while i < n
            invariant
                self.config == old(self).config,
                self.wf(),
                old(self).wf(),
                n == self.boids@.len() == old(self).boids@.len(),
                half as int == (self.config.boid_size as int) / 2,
                margin_x as int == self.config.width as int + half as int,
                margin_y as int == self.config.height as int + half as int,
                0 <= i <= n,
                forall|j: int|
                    0 <= j < i ==> self.boids@[j] == wrap_boid(
                        #[trigger] old(self).boids@[j],
                        self.config,
                    ),
                forall|j: int| i <= j < n ==> self.boids@[j] == #[trigger] old(self).boids@[j],
                forall|j: int|
                    0 <= j < i ==> {
                        let b = #[trigger] self.boids@[j];
                        -(self.config.boid_size as int) <= b.position.x as int
                            <= margin_x as int
                            && -(self.config.boid_size as int) <= b.position.y as int
                            <= margin_y as int
                    },
            decreases n - i,
        {
            let b = self.boids[i];
            let mut px = b.position.x;
            let mut py = b.position.y;
            if px <= -self.config.boid_size {
                px = margin_x;
            }
            if px > margin_x {
                px = 0;
            }
            if py <= -self.config.boid_size {
                py = margin_y;
            }
            if py > margin_y {
                py = 0;
            }
            let nb = Boid {
                position: Vec2 { x: px, y: py },
                velocity: b.velocity,
                acceleration: b.acceleration,
                b_type: b.b_type,
            };
            self.boids.set(i, nb);
            i = i + 1;
        }
    }

    /// Applies the Bounce policy to every agent: on a boundary hit the
    /// velocity component on that axis is inverted and the position nudged
    /// one unit inward, per axis independently.
    pub fn bounce_edges(&mut self)
        requires
            old(self).wf(),
        ensures
            final(self).config == old(self).config,
            final(self).boids@.len() == old(self).boids@.len(),
            forall|j: int|
                0 <= j < old(self).boids@.len() ==> final(self).boids@[j] == bounce_boid(
                    #[trigger] old(self).boids@[j],
                    old(self).config,
                ),
            final(self).wf(),
    {
        let n = self.boids.len();
        let half: i64 = muldiv(self.config.boid_size, 1, 2);
        proof {
            lemma_tdiv_range(self.config.boid_size as int, self.config.boid_size as int, 2);
        }
        let edge_x: i64 = self.config.width - half;
        let edge_y: i64 = self.config.height - half;
        let mut i: usize = 0;
        while i < n
            invariant
                self.config == old(self).config,
                self.wf(),
                old(self).wf(),
                n == self.boids@.len() == old(self).boids@.len(),
                half as int == (self.config.boid_size as int) / 2,
                edge_x as int == self.config.width as int - half as int,
                edge_y as int == self.config.height as int - half as int,
                0 <= i <= n,
                forall|j: int|
                    0 <= j < i ==> self.boids@[j] == bounce_boid(
                        #[trigger] old(self).boids@[j],
                        self.config,
                    ),
                forall|j: int| i <= j < n ==> self.boids@[j] == #[trigger] old(self).boids@[j],
            decreases n - i,
        {
            let b = self.boids[i];
            let mut px = b.position.x;
            let mut py = b.position.y;
            let mut vx = b.velocity.x;
            let mut vy = b.velocity.y;
            if b.position.x <= half || b.position.x > edge_x {
                vx = -vx;
                if b.position.x <= half {
                    px = px + 1;
                } else {
                    px = px - 1;
                }
            }
            if b.position.y <= half || b.position.y > edge_y {
                vy = -vy;
                if b.position.y <= half {
                    py = py + 1;
                } else {
                    py = py - 1;
                }
            }
            let nb = Boid {
                position: Vec2 { x: px, y: py },
                velocity: Vec2 { x: vx, y: vy },
                acceleration: b.acceleration,
                b_type: b.b_type,
            };
            proof {
                assert(magsq(nb.velocity) == magsq(b.velocity)) by (nonlinear_arith)
                    requires
                        nb.velocity.x as int == vx as int,
                        nb.velocity.y as int == vy as int,
                        (vx as int == b.velocity.x as int || vx as int == -(b.velocity.x as int)),
                        (vy as int == b.velocity.y as int || vy as int == -(b.velocity.y as int));
            }
            self.boids.set(i, nb);
            i = i + 1;
        }
    }

    /// Whether two agents at these positions collide, that is, lie strictly
    /// within the contagion radius of one another.
    pub fn check_boids_colliding(pos1: &Vec2, pos2: &Vec2, bounding_radius: i64) -> (r: bool)
        requires
            -POS_MID <= pos1.x <= POS_MID,
            -POS_MID <= pos1.y <= POS_MID,
            -POS_MID <= pos2.x <= POS_MID,
            -POS_MID <= pos2.y <= POS_MID,
            0 <= bounding_radius <= 1_000_000,
        ensures
            r == (distsq(*pos1, *pos2) < (bounding_radius as int) * (bounding_radius as int)),
    {
        let d = crate::tools::get_distance_squared(pos1, pos2);
        proof {
            lemma_square_bound(bounding_radius as int, 1_000_000);
        }
        d < (bounding_radius as i128) * (bounding_radius as i128)
    }
}

} // verus!

verus! {

/// The running state of one agent's neighbor scan: the agent's (possibly
/// converted) kind, the accumulated steering acceleration, the sums of the
/// sensory neighbors' velocities and positions, and the neighbor count.
pub ghost struct ScanState {
    pub ty: BoidType,
    pub ax: int,
    pub ay: int,
    pub tvx: int,
    pub tvy: int,
    pub tpx: int,
    pub tpy: int,
    pub cnt: int,
}

/// The separation gain of an agent of kind `t`.
pub open spec fn sep_mult_of(c: Config, t: BoidType) -> int {
    match t {
        BoidType::Predator => c.predator_separation_mult as int,
        BoidType::Prey => c.separation_mult as int,
    }
}

/// One component of the separation / chase / escape steering that a sensed
/// neighbor contributes: the difference component `dcomp`, normalized by the
/// floor distance `dist`, scaled by the gain the kind pairing selects.
/// Same kinds separate, a predator chases prey, and prey escape a predator.
pub open spec fn steer(ty: BoidType, oty: BoidType, c: Config, dcomp: int, dist: int) -> int {
    if ty == oty {
        -tdiv(dcomp * sep_mult_of(c, ty), dist)
    } else if ty == BoidType::Predator {
        tdiv(dcomp * (c.chase_mult as int), dist)
    } else {
        -tdiv(dcomp * (c.escape_mult as int), dist)
    }
}

/// One scan step: the effect of inspecting one other agent `o` from the
/// position `cur_pos`. Contagion applies inside the bounding radius whatever
/// the sensory radius says; the flocking accumulators and the steering
/// contribution apply strictly inside the sensory radius. Two coincident
/// agents have no defined direction between them, so they exert no steering
/// on each other.
pub open spec fn scan_step(cur_pos: Vec2, st: ScanState, o: Boid, c: Config) -> ScanState {
    let d2 = distsq(cur_pos, o.position);
    let ty = if o.b_type == BoidType::Predator && d2 < bounding_sq(c) {
        BoidType::Predator
    } else {
        st.ty
    };
    if d2 < sensory_sq(c) {
        let dist = floor_sqrt(d2);
        let dx = (o.position.x as int) - (cur_pos.x as int);
        let dy = (o.position.y as int) - (cur_pos.y as int);
        ScanState {
            ty,
            ax: if dist >= 1 { st.ax + steer(ty, o.b_type, c, dx, dist) } else { st.ax },
            ay: if dist >= 1 { st.ay + steer(ty, o.b_type, c, dy, dist) } else { st.ay },
            tvx: st.tvx + o.velocity.x as int,
            tvy: st.tvy + o.velocity.y as int,
            tpx: st.tpx + o.position.x as int,
            tpy: st.tpy + o.position.y as int,
            cnt: st.cnt + 1,
        }
    } else {
        ScanState {
            ty,
            ax: st.ax,
            ay: st.ay,
            tvx: st.tvx,
            tvy: st.tvy,
            tpx: st.tpx,
            tpy: st.tpy,
            cnt: st.cnt,
        }
    }
}

/// The scan of agent `i` over the first `j` population slots, skipping its
/// own slot, in population order.
pub open spec fn scan(s: Seq<Boid>, i: int, j: int, c: Config) -> ScanState
    decreases j,
{
    if j <= 0 {
        ScanState { ty: s[i].b_type, ax: 0, ay: 0, tvx: 0, tvy: 0, tpx: 0, tpy: 0, cnt: 0 }
    } else if j - 1 == i {
        scan(s, i, j - 1, c)
    } else {
        scan_step(s[i].position, scan(s, i, j - 1, c), s[j - 1], c)
    }
}

/// The force phase of agent `i` against population `s`: the full scan, then
/// — when any neighbor was sensed — alignment toward the average neighbor
/// velocity and cohesion toward the average neighbor position. Position and
/// velocity are untouched; the acceleration is overwritten and the kind
/// updated by contagion.
pub open spec fn force_boid(s: Seq<Boid>, i: int, c: Config) -> Boid {
    let st = scan(s, i, s.len() as int, c);
    let b = s[i];
    let ax = if st.cnt > 0 {
        st.ax + (tdiv(st.tvx, st.cnt) - (b.velocity.x as int)) * (c.alignment_mult as int) + (
        tdiv(st.tpx, st.cnt) - (b.position.x as int)) * (c.cohesion_mult as int)
    } else {
        st.ax
    };
    let ay = if st.cnt > 0 {
        st.ay + (tdiv(st.tvy, st.cnt) - (b.velocity.y as int)) * (c.alignment_mult as int) + (
        tdiv(st.tpy, st.cnt) - (b.position.y as int)) * (c.cohesion_mult as int)
    } else {
        st.ay
    };
    Boid {
        position: b.position,
        velocity: b.velocity,
        acceleration: Vec2 { x: ax as i64, y: ay as i64 },
        b_type: st.ty,
    }
}

/// Agent `i`'s full tick against population `s`: force phase, then the
/// integration step.
pub open spec fn tick_boid(s: Seq<Boid>, i: int, dt: int, c: Config) -> Boid {
    integrate_spec(force_boid(s, i, c), dt, c)
}

/// The population after the first `k` agents have each, in order, run their
/// force phase against the then-current population and been integrated.
pub open spec fn tick_prefix(s: Seq<Boid>, k: int, dt: int, c: Config) -> Seq<Boid>
    decreases k,
{
    if k <= 0 {
        s
    } else {
        let t = tick_prefix(s, k - 1, dt, c);
        t.update(k - 1, tick_boid(t, k - 1, dt, c))
    }
}

/// One whole tick: the boundary phase over the pre-tick population, then the
/// sequential force-and-integrate sweep over every agent.
pub open spec fn tick_spec(s: Seq<Boid>, dt: int, c: Config) -> Seq<Boid> {
    tick_prefix(boundary_seq(s, c), s.len() as int, dt, c)
}

} // verus!

verus! {

impl Simulation {
    /// One agent's full neighbor scan against the current population: the
    /// contagion-updated kind, the accumulated steering, the sums of the
    /// sensed neighbors' velocities and positions, and the neighbor count,
    /// exactly as `scan` describes, with the numeric bounds the force phase
    /// needs.
    #[verifier::loop_isolation(false)]
    #[verifier::rlimit(100)]
    fn scan_neighbors(boids: &Vec<Boid>, i: usize, cur: Boid, cfg_c: &Config) -> (out: (
        BoidType,
        i64,
        i64,
        i64,
        i64,
        i64,
        i64,
        usize,
    ))
        requires
            valid(*cfg_c),
            i < boids@.len(),
            boids@.len() <= 4096,
            boids@[i as int] == cur,
            forall|jj: int| 0 <= jj < boids@.len() ==> boid_wf_mid(#[trigger] boids@[jj], *cfg_c),
        ensures
            (ScanState {
                ty: out.0,
                ax: out.1 as int,
                ay: out.2 as int,
                tvx: out.3 as int,
                tvy: out.4 as int,
                tpx: out.5 as int,
                tpy: out.6 as int,
                cnt: out.7 as int,
            }) == scan(boids@, i as int, boids@.len() as int, *cfg_c),
            out.7 <= boids@.len(),
            -((boids@.len() as int) * 100_000) <= out.1 as int <= (boids@.len() as int) * 100_000,
            -((boids@.len() as int) * 100_000) <= out.2 as int <= (boids@.len() as int) * 100_000,
            -((out.7 as int) * 1_000_000) <= out.3 as int <= (out.7 as int) * 1_000_000,
            -((out.7 as int) * 1_000_000) <= out.4 as int <= (out.7 as int) * 1_000_000,
            (out.7 as int) * ((cur.position.x as int) - (cfg_c.sensory_radius as int)) <= out.5 as int
                <= (out.7 as int) * ((cur.position.x as int) + (cfg_c.sensory_radius as int)),
            (out.7 as int) * ((cur.position.y as int) - (cfg_c.sensory_radius as int)) <= out.6 as int
                <= (out.7 as int) * ((cur.position.y as int) + (cfg_c.sensory_radius as int)),
    {
        let ghost cfg = *cfg_c;
        let ghost gi = i as int;
        let ghost n = boids@.len();
        let ghost s0 = boids@;
        let ghost gi = i as int;
        
        let ghost cpx = cur.position.x as int;
        let ghost cpy = cur.position.y as int;
        let ghost sr = cfg.sensory_radius as int;
        proof {
            lemma_square_bound(cfg_c.sensory_radius as int, 1_000_000);
            lemma_square_bound(cfg_c.bounding_radius as int, 1_000_000);
            assert forall|jj: int| 0 <= jj < boids@.len() implies boid_wf_mid(
                #[trigger] s0[jj],
                cfg,
            ) by {}
        }
        let ssq: i128 = (cfg_c.sensory_radius as i128) * (
        cfg_c.sensory_radius as i128);
        let bsq: i128 = (cfg_c.bounding_radius as i128) * (
        cfg_c.bounding_radius as i128);
        let mut ty = cur.b_type;
        let mut accx: i64 = 0;
        let mut accy: i64 = 0;
        let mut tvx: i64 = 0;
        let mut tvy: i64 = 0;
        let mut tpx: i64 = 0;
        let mut tpy: i64 = 0;
        let mut cnt: usize = 0;
        let mut j: usize = 0;
        while j < boids.len()
            invariant
                boids@ == s0,
                0 <= j <= boids@.len(),
                0 <= cnt <= j,
                scan(s0, gi, j as int, cfg) == (ScanState {
                    ty: ty,
                    ax: accx as int,
                    ay: accy as int,
                    tvx: tvx as int,
                    tvy: tvy as int,
                    tpx: tpx as int,
                    tpy: tpy as int,
                    cnt: cnt as int,
                }),
                -((j as int) * 100_000) <= accx as int <= (j as int) * 100_000,
                -((j as int) * 100_000) <= accy as int <= (j as int) * 100_000,
                -((cnt as int) * 1_000_000) <= tvx as int <= (cnt as int) * 1_000_000,
                -((cnt as int) * 1_000_000) <= tvy as int <= (cnt as int) * 1_000_000,
                (cnt as int) * (cpx - sr) <= tpx as int <= (cnt as int) * (cpx + sr),
                (cnt as int) * (cpy - sr) <= tpy as int <= (cnt as int) * (cpy + sr),
            decreases boids@.len() - j,
        {
            if j != i {
                let other = boids[j];
                let ghost st_old = scan(s0, gi, j as int, cfg);
                let d2: i128 = crate::tools::get_distance_squared(
                    &cur.position,
                    &other.position,
                );
                if other.b_type == BoidType::Predator && d2 < bsq {
                    ty = BoidType::Predator;
                }
                if d2 < ssq {
                    let ghost dxg = (other.position.x as int) - cpx;
                    let ghost dyg = (other.position.y as int) - cpy;
                    proof {
                        assert(dxg * dxg <= d2 as int && dyg * dyg <= d2 as int)
                            by (nonlinear_arith)
                            requires
                                d2 as int == dxg * dxg + dyg * dyg;
                        assert(-sr <= dxg <= sr && -sr <= dyg <= sr) by (nonlinear_arith)
                            requires
                                dxg * dxg <= d2 as int,
                                dyg * dyg <= d2 as int,
                                (d2 as int) < sr * sr,
                                sr >= 0;
                        assert(((cnt as int) + 1) * (cpx - sr) <= tpx as int + (
                        other.position.x as int) <= ((cnt as int) + 1) * (cpx + sr)
                            && ((cnt as int) + 1) * (cpy - sr) <= tpy as int + (
                        other.position.y as int) <= ((cnt as int) + 1) * (cpy + sr))
                            by (nonlinear_arith)
                            requires
                                (cnt as int) * (cpx - sr) <= tpx as int <= (cnt as int) * (cpx
                                    + sr),
                                (cnt as int) * (cpy - sr) <= tpy as int <= (cnt as int) * (cpy
                                    + sr),
                                cpx - sr <= other.position.x as int <= cpx + sr,
                                cpy - sr <= other.position.y as int <= cpy + sr;
                    }
                    proof {
                        assert(-5_000_000_000_000_000int <= tpx as int + (
                        other.position.x as int) <= 5_000_000_000_000_000int
                            && -5_000_000_000_000_000int <= tpy as int + (
                        other.position.y as int) <= 5_000_000_000_000_000int)
                            by (nonlinear_arith)
                            requires
                                (cnt as int) * (cpx - sr) <= tpx as int <= (cnt as int) * (cpx
                                    + sr),
                                (cnt as int) * (cpy - sr) <= tpy as int <= (cnt as int) * (cpy
                                    + sr),
                                0 <= cnt as int <= 4096,
                                -1_100_000_000_000 <= cpx <= 1_100_000_000_000,
                                -1_100_000_000_000 <= cpy <= 1_100_000_000_000,
                                0 <= sr <= 1_000_000,
                                -1_100_000_000_000 <= other.position.x as int
                                    <= 1_100_000_000_000,
                                -1_100_000_000_000 <= other.position.y as int
                                    <= 1_100_000_000_000;
                    }
                    tvx = tvx + other.velocity.x;
                    tvy = tvy + other.velocity.y;
                    tpx = tpx + other.position.x;
                    tpy = tpy + other.position.y;
                    let dist64: u64 = crate::tools::isqrt(d2 as u128);
                    proof {
                        assert(dist64 as int <= 1_000_000) by (nonlinear_arith)
                            requires
                                (dist64 as int) * (dist64 as int) <= d2 as int,
                                (d2 as int) < sr * sr,
                                0 <= sr <= 1_000_000,
                                dist64 >= 0;
                        crate::tools::lemma_floor_sqrt_unique(dist64 as int, d2 as int);
                    }
                    let dist: i64 = dist64 as i64;
                    if dist >= 1 {
                        let dx: i64 = other.position.x - cur.position.x;
                        let dy: i64 = other.position.y - cur.position.y;
                        proof {
                            assert(-(dist as int) <= dx as int <= dist as int && -(
                            dist as int) <= dy as int <= dist as int) by (nonlinear_arith)
                                requires
                                    dx as int == dxg,
                                    dy as int == dyg,
                                    dxg * dxg <= d2 as int,
                                    dyg * dyg <= d2 as int,
                                    (d2 as int) < ((dist as int) + 1) * ((dist as int) + 1),
                                    dist >= 1;
                        }
                        if ty == other.b_type {
                            let m: i64 = match ty {
                                BoidType::Predator => cfg_c.predator_separation_mult,
                                BoidType::Prey => cfg_c.separation_mult,
                            };
                            proof {
                                lemma_tdiv_mul_le(dx as int, m as int, dist as int);
                                lemma_tdiv_mul_le(dy as int, m as int, dist as int);
                            }
                            accx = accx - muldiv(dx, m, dist);
                            accy = accy - muldiv(dy, m, dist);
                        } else if ty == BoidType::Predator {
                            proof {
                                lemma_tdiv_mul_le(
                                    dx as int,
                                    cfg_c.chase_mult as int,
                                    dist as int,
                                );
                                lemma_tdiv_mul_le(
                                    dy as int,
                                    cfg_c.chase_mult as int,
                                    dist as int,
                                );
                            }
                            accx = accx + muldiv(dx, cfg_c.chase_mult, dist);
                            accy = accy + muldiv(dy, cfg_c.chase_mult, dist);
                        } else {
                            proof {
                                lemma_tdiv_mul_le(
                                    dx as int,
                                    cfg_c.escape_mult as int,
                                    dist as int,
                                );
                                lemma_tdiv_mul_le(
                                    dy as int,
                                    cfg_c.escape_mult as int,
                                    dist as int,
                                );
                            }
                            accx = accx - muldiv(dx, cfg_c.escape_mult, dist);
                            accy = accy - muldiv(dy, cfg_c.escape_mult, dist);
                        }
                    }
                    cnt = cnt + 1;
                }
                proof {
                    assert(scan(s0, gi, j as int + 1, cfg) == scan_step(
                        s0[gi].position,
                        st_old,
                        s0[j as int],
                        cfg,
                    ));
                    assert(scan(s0, gi, j as int + 1, cfg) == (ScanState {
                        ty: ty,
                        ax: accx as int,
                        ay: accy as int,
                        tvx: tvx as int,
                        tvy: tvy as int,
                        tpx: tpx as int,
                        tpy: tpy as int,
                        cnt: cnt as int,
                    }));
                }
            } else {
                proof {
                    assert(scan(s0, gi, j as int + 1, cfg) == scan(s0, gi, j as int, cfg));
                }
            }
            j = j + 1;
        }
        (ty, accx, accy, tvx, tvy, tpx, tpy, cnt)
    }

    /// Advances the simulation by one tick of `dt` thousandths of a time
    /// unit, exactly as `tick_spec` describes: the boundary policy is
    /// applied to every agent, then each agent in population order runs its
    /// neighbor scan against the current population state and is integrated
    /// immediately. Afterward every agent's speed respects its per-kind
    /// ceiling; under the Wrap policy the whole invariant is re-established.
    #[verifier::loop_isolation(false)]
    #[verifier::rlimit(100)]
    pub fn update(&mut self, dt: i64)
        requires
            old(self).wf(),
            0 <= dt <= DT_LIMIT,
        ensures
            final(self).config == old(self).config,
            final(self).boids@.len() == old(self).boids@.len(),
            final(self).boids@ == tick_spec(old(self).boids@, dt as int, old(self).config),
            forall|j: int|
                0 <= j < final(self).boids@.len() ==> boid_wf_mid(
                    #[trigger] final(self).boids@[j],
                    old(self).config,
                ),
            old(self).config.policy == BoundaryPolicy::Wrap ==> final(self).wf(),
            forall|j: int|
                0 <= j < old(self).boids@.len() && (#[trigger] old(self).boids@[j]).b_type
                    == BoidType::Predator ==> final(self).boids@[j].b_type == BoidType::Predator,
    {
        let ghost cfg = self.config;
        let ghost s_orig = self.boids@;
        match self.config.policy {
            BoundaryPolicy::Wrap => self.teleport_edges(),
            BoundaryPolicy::Bounce => self.bounce_edges(),
        }
        let ghost sb = self.boids@;
        proof {
            assert forall|j: int| 0 <= j < s_orig.len() implies sb[j] == boundary_seq(
                s_orig,
                cfg,
            )[j] by {
                assert(boundary_seq(s_orig, cfg)[j] == boundary_boid(s_orig[j], cfg));
            }
            assert(sb =~= boundary_seq(s_orig, cfg));
        }
        let n = self.boids.len();
        let ghost wrap_case = cfg.policy == BoundaryPolicy::Wrap;
        let mut i: usize = 0;
        while i < n
            invariant
                self.config == cfg,
                self.boids@.len() == n,
                0 <= i <= n,
                self.boids@ == tick_prefix(sb, i as int, dt as int, cfg),
                forall|j: int| i <= j < n ==> #[trigger] self.boids@[j] == sb[j],
                forall|j: int| i <= j < n ==> boid_wf(#[trigger] self.boids@[j], cfg),
                forall|j: int| 0 <= j < i ==> boid_wf_mid(#[trigger] self.boids@[j], cfg),
                wrap_case ==> forall|j: int|
                    i <= j < n ==> -(cfg.boid_size as int) <= (
                    #[trigger] self.boids@[j]).position.x as int <= cfg.width as int
                        + cfg.boid_size as int && -(cfg.boid_size as int)
                        <= self.boids@[j].position.y as int <= cfg.height as int
                        + cfg.boid_size as int,
                wrap_case ==> forall|j: int|
                    0 <= j < i ==> -30_000_000 <= (#[trigger] self.boids@[j]).position.x as int
                        <= 30_000_000 && -30_000_000 <= self.boids@[j].position.y as int
                        <= 30_000_000,
            decreases n - i,
        {
            let ghost s0 = self.boids@;
            let ghost gi = i as int;
            let cur = self.boids[i];
            let ghost cpx = cur.position.x as int;
            let ghost cpy = cur.position.y as int;
            let ghost sr = cfg.sensory_radius as int;
            proof {
                assert forall|jj: int| 0 <= jj < n implies boid_wf_mid(
                    #[trigger] s0[jj],
                    cfg,
                ) by {}
            }
            let scanned = Self::scan_neighbors(&self.boids, i, cur, &self.config);
            let ty = scanned.0;
            let mut accx: i64 = scanned.1;
            let mut accy: i64 = scanned.2;
            let tvx: i64 = scanned.3;
            let tvy: i64 = scanned.4;
            let tpx: i64 = scanned.5;
            let tpy: i64 = scanned.6;
            let cnt: usize = scanned.7;
            proof {
                assert(scan(s0, gi, n as int, cfg) == (ScanState {
                    ty: ty,
                    ax: accx as int,
                    ay: accy as int,
                    tvx: tvx as int,
                    tvy: tvy as int,
                    tpx: tpx as int,
                    tpy: tpy as int,
                    cnt: cnt as int,
                }));
            }
            if cnt > 0 {
                let c64: i64 = cnt as i64;
                proof {
                    lemma_tdiv_range(tvx as int, (cnt as int) * 1_000_000, cnt as int);
                    lemma_tdiv_range(tvy as int, (cnt as int) * 1_000_000, cnt as int);
                    vstd::arithmetic::div_mod::lemma_div_multiples_vanish(1_000_000, cnt as int);
                    lemma_tdiv_mono((cnt as int) * (cpx - sr), tpx as int, cnt as int);
                    lemma_tdiv_mono(tpx as int, (cnt as int) * (cpx + sr), cnt as int);
                    lemma_tdiv_mono((cnt as int) * (cpy - sr), tpy as int, cnt as int);
                    lemma_tdiv_mono(tpy as int, (cnt as int) * (cpy + sr), cnt as int);
                    lemma_tdiv_multiple(cpx - sr, cnt as int);
                    lemma_tdiv_multiple(cpx + sr, cnt as int);
                    lemma_tdiv_multiple(cpy - sr, cnt as int);
                    lemma_tdiv_multiple(cpy + sr, cnt as int);
                }
                let avx: i64 = muldiv(tvx, 1, c64);
                let avy: i64 = muldiv(tvy, 1, c64);
                let apx: i64 = muldiv(tpx, 1, c64);
                let apy: i64 = muldiv(tpy, 1, c64);
                proof {
                    assert(-2_000_000 <= avx as int - (cur.velocity.x as int) <= 2_000_000);
                    assert(-(sr + 0) <= apx as int - cpx <= sr);
                    assert(-200_000_000_000int <= (avx as int - (cur.velocity.x as int)) * (
                    cfg.alignment_mult as int) <= 200_000_000_000int) by (nonlinear_arith)
                        requires
                            -2_000_000 <= avx as int - (cur.velocity.x as int) <= 2_000_000,
                            0 <= cfg.alignment_mult as int <= 100_000;
                    assert(-200_000_000_000int <= (avy as int - (cur.velocity.y as int)) * (
                    cfg.alignment_mult as int) <= 200_000_000_000int) by (nonlinear_arith)
                        requires
                            -2_000_000 <= avy as int - (cur.velocity.y as int) <= 2_000_000,
                            0 <= cfg.alignment_mult as int <= 100_000;
                    assert(-100_000_000_000int <= (apx as int - cpx) * (cfg.cohesion_mult as int)
                        <= 100_000_000_000int) by (nonlinear_arith)
                        requires
                            -1_000_000 <= apx as int - cpx <= 1_000_000,
                            0 <= cfg.cohesion_mult as int <= 100_000;
                    assert(-100_000_000_000int <= (apy as int - cpy) * (cfg.cohesion_mult as int)
                        <= 100_000_000_000int) by (nonlinear_arith)
                        requires
                            -1_000_000 <= apy as int - cpy <= 1_000_000,
                            0 <= cfg.cohesion_mult as int <= 100_000;
                }
                accx = accx + (avx - cur.velocity.x) * self.config.alignment_mult;
                accy = accy + (avy - cur.velocity.y) * self.config.alignment_mult;
                accx = accx + (apx - cur.position.x) * self.config.cohesion_mult;
                accy = accy + (apy - cur.position.y) * self.config.cohesion_mult;
            }
            let mut nb = Boid {
                position: cur.position,
                velocity: cur.velocity,
                acceleration: Vec2 { x: accx, y: accy },
                b_type: ty,
            };
            proof {
                assert(nb == force_boid(s0, gi, cfg));
                assert(max_speed_of(cfg, cur.b_type) * max_speed_of(cfg, cur.b_type)
                    <= 1_000_000_000_000int) by (nonlinear_arith)
                    requires
                        0 <= max_speed_of(cfg, cur.b_type) <= 1_000_000;
            }
            nb.update(dt, &self.config);
            proof {
                assert(nb == tick_boid(s0, gi, dt as int, cfg));
            }
            self.boids.set(i, nb);
            proof {
                assert(self.boids@ == tick_prefix(sb, gi + 1, dt as int, cfg));
            }
            i = i + 1;
        }
        proof {
            assert(self.boids@ == tick_prefix(boundary_seq(s_orig, cfg), s_orig.len() as int,
                dt as int, cfg));
            assert forall|j: int|
                0 <= j < s_orig.len() && (#[trigger] s_orig[j]).b_type
                    == BoidType::Predator implies self.boids@[j].b_type
                == BoidType::Predator by {
                crate::laws::lemma_contagion_monotone(s_orig, dt as int, cfg, j);
            }
        }
    }
}

} // verus!

verus! {

impl Simulation {
    /// Builds the initial population for a configuration, or rejects the
    /// configuration. On success there are `count` agents: `count - 1` prey
    /// at positions drawn uniformly over the world with velocities drawn by
    /// magnitude and angle and clamped into the speed band, and one predator
    /// at the world's center, at rest. The generator is seeded from the
    /// configuration, so equal configurations spawn equal populations.
    pub fn new(config: Config) -> (r: Result<Simulation, ConfigError>)
        ensures
            r is Ok <==> valid(config),
            r is Ok ==> {
                let s = r->Ok_0;
                &&& s.wf()
                &&& s.config == config
                &&& s.boids@.len() == config.count
                &&& forall|i: int|
                    0 <= i < config.count - 1 ==> {
                        let b = #[trigger] s.boids@[i];
                        &&& b.b_type == BoidType::Prey
                        &&& 0 <= b.position.x < config.width
                        &&& 0 <= b.position.y < config.height
                        &&& b.acceleration == (Vec2 { x: 0, y: 0 })
                        &&& magsq(b.velocity) <= (config.max_speed as int) * (
                        config.max_speed as int)
                        &&& spawned_velocity(b.velocity, config)
                    }
                &&& {
                    let b = s.boids@[config.count - 1];
                    &&& b.b_type == BoidType::Predator
                    &&& b.position.x as int == (config.width as int) / 2
                    &&& b.position.y as int == (config.height as int) / 2
                    &&& b.velocity == (Vec2 { x: 0, y: 0 })
                    &&& b.acceleration == (Vec2 { x: 0, y: 0 })
                }
            },
    {
        if !config.check() {
            return Err(ConfigError::InvalidConfig);
        }
        let mut rng = crate::rng::seed_rng(config.seed);
        let mut boids: Vec<Boid> = Vec::new();
        let target: usize = config.count - 1;
        let mut k: usize = 0;
        while k < target
            invariant
                valid(config),
                target == config.count - 1,
                boids@.len() == k,
                0 <= k <= target,
                forall|i: int|
                    0 <= i < k ==> {
                        let b = #[trigger] boids@[i];
                        &&& b.b_type == BoidType::Prey
                        &&& 0 <= b.position.x < config.width
                        &&& 0 <= b.position.y < config.height
                        &&& b.acceleration == (Vec2 { x: 0, y: 0 })
                        &&& magsq(b.velocity) <= (config.max_speed as int) * (
                        config.max_speed as int)
                        &&& boid_wf(b, config)
                        &&& spawned_velocity(b.velocity, config)
                    },
            decreases target - k,
        {
            let raw: Vec2;
            if config.min_speed < config.max_speed {
                raw = crate::tools::rand_vector2(
                    &mut rng,
                    config.min_speed,
                    config.max_speed,
                    0,
                    3600,
                );
                proof {
                    assert(crate::tools::is_polar_sample(
                        raw,
                        config.min_speed as int,
                        config.max_speed as int,
                        0,
                        3600,
                    ));
                    assert(exists|m: int, a: int|
                        #[trigger] crate::tools::components_spec(m, a) == raw
                            && config.min_speed as int <= m < config.max_speed as int && 0 <= a
                            < 3600);
                    let (m, a) = choose|m: int, a: int|
                        #[trigger] crate::tools::components_spec(m, a) == raw
                            && config.min_speed as int <= m < config.max_speed as int && 0 <= a
                            < 3600;
                    assert(crate::tools::components_spec(m, a) == raw
                        && config.min_speed as int <= m <= config.max_speed as int && 0 <= a
                        < 3600);
                }
            } else {
                // a zero-width speed band leaves no magnitude to draw; only
                // the angle is random
                let ang = crate::rng::rand_range(&mut rng, 0, 3600);
                raw = crate::tools::get_components(config.min_speed, ang);
                proof {
                    assert(crate::tools::components_spec(config.min_speed as int, ang as int)
                        == raw);
                }
            }
            proof {
                assert(exists|m: int, a: int|
                    #[trigger] crate::tools::components_spec(m, a) == raw
                        && config.min_speed as int <= m <= config.max_speed as int && 0 <= a
                        < 3600);
            }
            let vel = crate::tools::clamp_vector_mag(raw, config.min_speed, config.max_speed);
            proof {
                let (m, a) = choose|m: int, a: int|
                    #[trigger] crate::tools::components_spec(m, a) == raw
                        && config.min_speed as int <= m <= config.max_speed as int && 0 <= a
                        < 3600;
                assert(vel == crate::tools::clamp_mag_spec(
                    crate::tools::components_spec(m, a),
                    config.min_speed as int,
                    config.max_speed as int,
                ));
                assert(spawned_velocity(vel, config));
            }
            let px = crate::rng::rand_range(&mut rng, 0, config.width);
            let py = crate::rng::rand_range(&mut rng, 0, config.height);
            let b = Boid::new(BoidType::Prey, Vec2 { x: px, y: py }, vel);
            boids.push(b);
            k = k + 1;
        }
        proof {
            lemma_tdiv_range(config.width as int, config.width as int, 2);
            lemma_tdiv_range(config.height as int, config.height as int, 2);
            lemma_magsq_nonneg(Vec2 { x: 0, y: 0 });
            assert(0 <= max_speed_of(config, BoidType::Predator) * max_speed_of(
                config,
                BoidType::Predator,
            )) by (nonlinear_arith)
                requires
                    max_speed_of(config, BoidType::Predator) >= 0;
        }
        let cx = muldiv(config.width, 1, 2);
        let cy = muldiv(config.height, 1, 2);
        boids.push(Boid::new(BoidType::Predator, Vec2 { x: cx, y: cy }, Vec2 { x: 0, y: 0 }));
        Ok(Simulation { boids, config })
    }
}

} // verus!
