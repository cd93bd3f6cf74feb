//! The library's stated laws: properties that hold across functions, each
//! proved here once and for all inputs its statement admits.

use vstd::prelude::*;

use crate::boid::{
    integrate_spec, max_speed_of, vraw_spec, Boid, BoidType, DT_LIMIT, MAX_SPEED_BOUND, TRAVEL_MAX,
};
use crate::config::{valid, Config};
use crate::sim::{
    boundary_boid, boundary_seq, bounce_pos, force_boid, scan, sensory_sq, sep_mult_of, tick_boid,
    tick_prefix, tick_spec, wrap_coord, POS_LIMIT,
};
use crate::tools::{
    clamp_mag_spec, components_spec, cos_fp, distsq, floor_sqrt, is_quad_angle, lemma_floor_sqrt,
    lemma_magsq_nonneg,
    lemma_raise_mag_exact, lemma_raise_mag_floor, lemma_set_mag_bound, lemma_set_mag_exact,
    lemma_sin_half_range, lemma_tdiv_multiple, lemma_tdiv_range, magsq, raise_mag_spec,
    set_mag_spec, sin_fp, sin_half, tdiv, Vec2,
};

verus! {

/// A magnitude clamp never exceeds its ceiling: for any vector and any band
/// `0 <= lo <= hi`, the clamped vector's squared magnitude is at most
/// `hi * hi`, whichever branch ran.
pub proof fn lemma_clamp_mag_bound(v: Vec2, lo: int, hi: int)
    requires
        0 <= lo <= hi <= 0x7fff_ffff_ffff_fffe,
    ensures
        magsq(clamp_mag_spec(v, lo, hi)) <= hi * hi,
{
    lemma_magsq_nonneg(v);
    if magsq(v) >= hi * hi {
        lemma_set_mag_bound(v, hi);
    } else if magsq(v) <= lo * lo {
        lemma_raise_mag_floor(v, lo);
        let w = raise_mag_spec(v, lo);
        if magsq(w) > hi * hi {
            lemma_set_mag_bound(w, hi);
        }
    }
}

/// A magnitude clamp reaches its floor: any vector below the ceiling whose
/// raised form does not overshoot the ceiling leaves the clamp with squared
/// magnitude at least `lo * lo`. (A vector at or above the ceiling is scaled
/// down toward `hi` instead, and a very short vector — so coarse a direction
/// that raising it overshoots `hi` — is capped back down; those are the
/// inputs the floor does not cover.)
pub proof fn lemma_clamp_floor(v: Vec2, lo: int, hi: int)
    requires
        0 <= lo <= hi <= 0x7fff_ffff_ffff_fffe,
        magsq(v) < hi * hi,
        magsq(raise_mag_spec(v, lo)) <= hi * hi,
    ensures
        magsq(clamp_mag_spec(v, lo, hi)) >= lo * lo,
{
    lemma_magsq_nonneg(v);
    if magsq(v) <= lo * lo {
        lemma_raise_mag_floor(v, lo);
    }
}

/// Speed bound: immediately after the integration step, an agent's squared
/// speed never exceeds the square of its kind's configured ceiling.
pub proof fn lemma_speed_bound(b: Boid, dt: int, c: Config)
    requires
        valid(c),
    ensures
        magsq(integrate_spec(b, dt, c).velocity) <= max_speed_of(c, b.b_type) * max_speed_of(
            c,
            b.b_type,
        ),
{
    let vraw = Vec2 {
        x: ((b.velocity.x as int) + tdiv((b.acceleration.x as int) * dt, 1000)) as i64,
        y: ((b.velocity.y as int) + tdiv((b.acceleration.y as int) * dt, 1000)) as i64,
    };
    lemma_clamp_mag_bound(vraw, c.min_speed as int, max_speed_of(c, b.b_type));
}

/// Clamp idempotence: clamping a second time changes nothing, provided the
/// first clamp's rescaling did not land on the far side of the band — a
/// scaled-down vector must stay above the floor, and a raised vector must
/// not overshoot the ceiling. (Rounding can break both on very short
/// vectors or a very narrow band; those inputs are excluded here, and
/// `lemma_clamp_idempotent_zero_floor` covers a floor of zero without any
/// exclusion.)
pub proof fn lemma_clamp_idempotent(v: Vec2, lo: int, hi: int)
    requires
        0 <= lo <= hi <= 0x7fff_ffff_ffff_fffe,
        magsq(v) >= hi * hi ==> magsq(set_mag_spec(v, hi)) > lo * lo,
        magsq(v) <= lo * lo ==> magsq(raise_mag_spec(v, lo)) <= hi * hi,
    ensures
        clamp_mag_spec(clamp_mag_spec(v, lo, hi), lo, hi) == clamp_mag_spec(v, lo, hi),
{
    lemma_magsq_nonneg(v);
    let w = clamp_mag_spec(v, lo, hi);
    lemma_magsq_nonneg(w);
    if magsq(v) >= hi * hi {
        lemma_set_mag_bound(v, hi);
        if magsq(w) >= hi * hi {
            lemma_set_mag_exact(w, hi);
        }
    } else if magsq(v) <= lo * lo {
        lemma_raise_mag_floor(v, lo);
        assert(w == raise_mag_spec(v, lo));
        if magsq(w) >= hi * hi {
            lemma_set_mag_exact(w, hi);
        } else if magsq(w) <= lo * lo {
            lemma_raise_mag_exact(w, lo);
        }
    }
}

/// Clamp idempotence for a band with floor zero, with no side conditions.
pub proof fn lemma_clamp_idempotent_zero_floor(v: Vec2, hi: int)
    requires
        0 <= hi <= 0x7fff_ffff_ffff_fffe,
    ensures
        clamp_mag_spec(clamp_mag_spec(v, 0, hi), 0, hi) == clamp_mag_spec(v, 0, hi),
{
    lemma_magsq_nonneg(v);
    let w = clamp_mag_spec(v, 0, hi);
    lemma_magsq_nonneg(w);
    if magsq(v) >= hi * hi {
        lemma_set_mag_bound(v, hi);
        assert(w == set_mag_spec(v, hi));
        if magsq(w) >= hi * hi {
            lemma_set_mag_exact(w, hi);
        } else if magsq(w) <= 0 {
            assert(w.x == 0 && w.y == 0);
            lemma_raise_mag_exact(w, 0);
        }
    } else if magsq(v) <= 0 {
        reveal(crate::tools::raise_mag_spec);
        assert(v.x == 0 && v.y == 0);
        assert(w == raise_mag_spec(v, 0));
        assert(magsq(w) == 0 + 0);
        if magsq(w) >= hi * hi {
            assert(hi == 0) by (nonlinear_arith)
                requires
                    magsq(w) == 0,
                    magsq(w) >= hi * hi,
                    hi >= 0;
            lemma_set_mag_exact(w, hi);
        } else {
            lemma_raise_mag_exact(w, 0);
        }
    } else {
        assert(w == v);
    }
}

/// Speed floor: immediately after the integration step an agent's speed
/// reaches the configured floor, provided the raw velocity entered below the
/// ceiling and raising it to the floor cannot overshoot the ceiling. (A raw
/// velocity at or above the ceiling is scaled down toward the ceiling
/// instead, and a degenerate, very short raw velocity has so coarse a
/// direction that raising it may overshoot and be capped; those inputs are
/// excluded.)
pub proof fn lemma_speed_floor(b: Boid, dt: int, c: Config)
    requires
        valid(c),
        magsq(vraw_spec(b, dt)) < max_speed_of(c, b.b_type) * max_speed_of(c, b.b_type),
        magsq(raise_mag_spec(vraw_spec(b, dt), c.min_speed as int)) <= max_speed_of(c, b.b_type)
            * max_speed_of(c, b.b_type),
    ensures
        magsq(integrate_spec(b, dt, c).velocity) >= (c.min_speed as int) * (c.min_speed as int),
{
    lemma_clamp_floor(vraw_spec(b, dt), c.min_speed as int, max_speed_of(c, b.b_type));
}

/// `tick_prefix` keeps the population size.
proof fn lemma_tick_prefix_len(s: Seq<Boid>, k: int, dt: int, c: Config)
    requires
        0 <= k <= s.len(),
    ensures
        tick_prefix(s, k, dt, c).len() == s.len(),
    decreases k,
{
    if k <= 0 {
    } else {
        lemma_tick_prefix_len(s, k - 1, dt, c);
    }
}

/// `tick_prefix` leaves every slot at or past `k` untouched.
proof fn lemma_tick_prefix_untouched(s: Seq<Boid>, k: int, dt: int, c: Config, i: int)
    requires
        0 <= k <= i < s.len(),
    ensures
        tick_prefix(s, k, dt, c)[i] == s[i],
    decreases k,
{
    lemma_tick_prefix_len(s, k, dt, c);
    if k <= 0 {
    } else {
        lemma_tick_prefix_len(s, k - 1, dt, c);
        lemma_tick_prefix_untouched(s, k - 1, dt, c, i);
    }
}

/// A slot already swept holds exactly what its own step wrote: its tick
/// against the population state it saw at its turn.
proof fn lemma_tick_prefix_value(s: Seq<Boid>, k: int, dt: int, c: Config, i: int)
    requires
        0 <= i < k <= s.len(),
    ensures
        tick_prefix(s, k, dt, c)[i] == tick_boid(tick_prefix(s, i, dt, c), i, dt, c),
    decreases k,
{
    lemma_tick_prefix_len(s, k - 1, dt, c);
    if k - 1 == i {
    } else {
        lemma_tick_prefix_value(s, k - 1, dt, c, i);
    }
}

/// One tick moves an agent by at most one integration step of travel from
/// its boundary-adjusted position, whatever forces its neighbors exert. A
/// host chaining ticks under the Bounce policy can bound every position
/// from this together with `lemma_bounce_pos_bound`.
pub proof fn lemma_tick_travel(s: Seq<Boid>, dt: int, c: Config, i: int)
    requires
        valid(c),
        0 <= i < s.len(),
        0 <= dt <= DT_LIMIT,
        -MAX_SPEED_BOUND <= s[i].velocity.x <= MAX_SPEED_BOUND,
        -MAX_SPEED_BOUND <= s[i].velocity.y <= MAX_SPEED_BOUND,
        -POS_LIMIT <= s[i].position.x <= POS_LIMIT,
        -POS_LIMIT <= s[i].position.y <= POS_LIMIT,
    ensures
        tick_spec(s, dt, c).len() == s.len(),
        (boundary_boid(s[i], c).position.x as int) - TRAVEL_MAX <= tick_spec(
            s,
            dt,
            c,
        )[i].position.x as int <= (boundary_boid(s[i], c).position.x as int) + TRAVEL_MAX,
        (boundary_boid(s[i], c).position.y as int) - TRAVEL_MAX <= tick_spec(
            s,
            dt,
            c,
        )[i].position.y as int <= (boundary_boid(s[i], c).position.y as int) + TRAVEL_MAX,
{
    let sb = boundary_seq(s, c);
    assert(sb[i] == boundary_boid(s[i], c));
    lemma_tick_prefix_len(sb, s.len() as int, dt, c);
    lemma_tick_prefix_value(sb, s.len() as int, dt, c, i);
    lemma_tick_prefix_untouched(sb, i, dt, c, i);
    let t = tick_prefix(sb, i, dt, c);
    lemma_tick_prefix_len(sb, i, dt, c);
    let fb = force_boid(t, i, c);
    assert(fb.position == sb[i].position && fb.velocity == sb[i].velocity);
    let pbx = sb[i].position.x as int;
    let pby = sb[i].position.y as int;
    assert(-1_000_000_000_001int <= pbx <= 1_000_000_000_001int && -1_000_000_000_001int <= pby
        <= 1_000_000_000_001int) by {
        vstd::arithmetic::div_mod::lemma_div_pos_is_pos(c.boid_size as int, 2);
        vstd::arithmetic::div_mod::lemma_fundamental_div_mod(c.boid_size as int, 2);
        vstd::arithmetic::div_mod::lemma_mod_division_less_than_divisor(c.boid_size as int, 2);
    }
    let vx = fb.velocity.x as int;
    let vy = fb.velocity.y as int;
    assert(-10_000_000_000int <= vx * dt <= 10_000_000_000int && -10_000_000_000int <= vy * dt
        <= 10_000_000_000int) by (nonlinear_arith)
        requires
            -1_000_000 <= vx <= 1_000_000,
            -1_000_000 <= vy <= 1_000_000,
            0 <= dt <= 10_000;
    lemma_tdiv_range(vx * dt, 10_000_000_000, 1000);
    lemma_tdiv_range(vy * dt, 10_000_000_000, 1000);
    assert(tick_spec(s, dt, c)[i] == integrate_spec(fb, dt, c));
}

/// The Bounce policy never pushes a coordinate farther from the world: the
/// nudge on a hit moves one unit inward, so the result stays within the
/// larger of the old coordinate's span and the world span.
pub proof fn lemma_bounce_pos_bound(x: int, dim: int, size: int)
    requires
        0 <= size <= dim,
    ensures
        bounce_pos(x, dim, size) <= (if x > dim + 1 { x } else { dim + 1 }),
        bounce_pos(x, dim, size) >= (if x < -(dim + 1) { x } else { -(dim + 1) }),
{
    vstd::arithmetic::div_mod::lemma_div_pos_is_pos(size, 2);
    vstd::arithmetic::div_mod::lemma_fundamental_div_mod(size, 2);
    vstd::arithmetic::div_mod::lemma_mod_division_less_than_divisor(size, 2);
}

/// Polar round trip at the axis angles: converting a magnitude `m` at angle
/// 0, 900, 1800 or 2700 tenths of a degree to components is exact, the
/// magnitude comes back exactly, and the quarter-turn angle of the result
/// is uniquely the angle put in.
pub proof fn lemma_polar_round_trip_axes(m: int)
    requires
        1 <= m <= 1_000_000_000,
    ensures
        components_spec(m, 0) == (Vec2 { x: m as i64, y: 0 }),
        components_spec(m, 900) == (Vec2 { x: 0, y: m as i64 }),
        components_spec(m, 1800) == (Vec2 { x: (-m) as i64, y: 0 }),
        components_spec(m, 2700) == (Vec2 { x: 0, y: (-m) as i64 }),
        magsq(components_spec(m, 0)) == m * m,
        magsq(components_spec(m, 900)) == m * m,
        forall|r: int| is_quad_angle(m, 0, r) ==> r == 0,
        forall|r: int| is_quad_angle(0, m, r) ==> r == 900,
{
    assert(sin_half(0) == 0);
    vstd::arithmetic::div_mod::lemma_div_multiples_vanish(1_000_000, 3_240_000);
    assert(3_240_000int * 1_000_000 == 3_240_000_000_000int) by (nonlinear_arith);
    assert(sin_half(900) == 1_000_000);
    assert(sin_half(1800) == 0);
    assert(cos_fp(0) == 1_000_000 && sin_fp(0) == 0);
    assert(cos_fp(900) == 0 && sin_fp(900) == 1_000_000);
    assert(cos_fp(1800) == -1_000_000 && sin_fp(1800) == 0);
    assert(cos_fp(2700) == 0 && sin_fp(2700) == -1_000_000);
    lemma_tdiv_multiple(m, 1_000_000);
    lemma_tdiv_multiple(-m, 1_000_000);
    assert(m * 1_000_000 == 1_000_000 * m && m * (-1_000_000) == 1_000_000 * (-m) && m * 0 == 0)
        by (nonlinear_arith);
    assert(components_spec(m, 0) == (Vec2 { x: m as i64, y: 0 }));
    assert(components_spec(m, 900) == (Vec2 { x: 0, y: m as i64 }));
    assert(components_spec(m, 1800) == (Vec2 { x: (-m) as i64, y: 0 }));
    assert(components_spec(m, 2700) == (Vec2 { x: 0, y: (-m) as i64 }));
    assert(m * m + 0 * 0 == m * m) by (nonlinear_arith);
    assert forall|r: int| is_quad_angle(m, 0, r) implies r == 0 by {
        if r != 0 {
            lemma_sin_half_range(r);
            assert(m * sin_half(r) >= 1) by (nonlinear_arith)
                requires
                    m >= 1,
                    sin_half(r) >= 1;
            assert(0 * sin_half(r + 900) == 0) by (nonlinear_arith);
        }
    }
    assert forall|r: int| is_quad_angle(0, m, r) implies r == 900 by {
        if r < 900 {
            lemma_sin_half_range(r + 1);
            lemma_sin_half_range(r + 1 + 900);
            assert(0 * sin_half(r + 1) == 0) by (nonlinear_arith);
            assert(m * sin_half(r + 1 + 900) >= 0) by (nonlinear_arith)
                requires
                    m >= 1,
                    sin_half(r + 1 + 900) >= 0;
        }
    }
}

/// Separation between exactly two same-kind agents, at any positions with a
/// distance of at least one unit and strictly inside the sensory radius:
/// with the alignment and cohesion gains zero, each agent's force phase
/// accumulates exactly the separation term — the difference toward the other
/// agent, scaled by the same-kind gain, normalized by the floor distance,
/// negated, so it steers away — and no kind changes.
pub proof fn lemma_two_agent_separation(s: Seq<Boid>, i: int, c: Config)
    requires
        valid(c),
        s.len() == 2,
        0 <= i < 2,
        s[0].b_type == s[1].b_type,
        1 <= distsq(s[0].position, s[1].position) < sensory_sq(c),
        c.alignment_mult == 0,
        c.cohesion_mult == 0,
    ensures
        ({
            let o = 1 - i;
            let dist = floor_sqrt(distsq(s[i].position, s[o].position));
            let dx = (s[o].position.x as int) - (s[i].position.x as int);
            let dy = (s[o].position.y as int) - (s[i].position.y as int);
            &&& force_boid(s, i, c).acceleration.x as int == -tdiv(
                dx * sep_mult_of(c, s[i].b_type),
                dist,
            )
            &&& force_boid(s, i, c).acceleration.y as int == -tdiv(
                dy * sep_mult_of(c, s[i].b_type),
                dist,
            )
            &&& force_boid(s, i, c).b_type == s[i].b_type
            &&& force_boid(s, i, c).position == s[i].position
            &&& force_boid(s, i, c).velocity == s[i].velocity
        }),
{
    let o = 1 - i;
    let d2 = distsq(s[i].position, s[o].position);
    let dist = floor_sqrt(d2);
    let dx = (s[o].position.x as int) - (s[i].position.x as int);
    let dy = (s[o].position.y as int) - (s[i].position.y as int);
    assert(distsq(s[0].position, s[1].position) == distsq(s[1].position, s[0].position))
        by (nonlinear_arith);
    lemma_floor_sqrt(d2);
    assert(dist >= 1) by (nonlinear_arith)
        requires
            d2 >= 1,
            dist >= 0,
            d2 < (dist + 1) * (dist + 1);
    assert(dx * dx <= d2 && dy * dy <= d2) by (nonlinear_arith)
        requires
            d2 == dx * dx + dy * dy;
    assert(-dist <= dx <= dist && -dist <= dy <= dist) by (nonlinear_arith)
        requires
            dx * dx <= d2,
            dy * dy <= d2,
            d2 < (dist + 1) * (dist + 1),
            dist >= 1;
    crate::tools::lemma_tdiv_mul_le(dx, sep_mult_of(c, s[i].b_type), dist);
    crate::tools::lemma_tdiv_mul_le(dy, sep_mult_of(c, s[i].b_type), dist);
    if i == 0 {
        assert(scan(s, 0, 1, c) == scan(s, 0, 0, c));
        assert(scan(s, 0, 2, c) == crate::sim::scan_step(s[0].position, scan(s, 0, 1, c), s[1], c));
    } else {
        assert(scan(s, 1, 2, c) == scan(s, 1, 1, c));
        assert(scan(s, 1, 1, c) == crate::sim::scan_step(s[1].position, scan(s, 1, 0, c), s[0], c));
    }
    let st = scan(s, i, 2, c);
    assert(st.cnt == 1);
    assert((tdiv(st.tvx, 1) - (s[i].velocity.x as int)) * (c.alignment_mult as int) == 0
        && (tdiv(st.tvy, 1) - (s[i].velocity.y as int)) * (c.alignment_mult as int) == 0
        && (tdiv(st.tpx, 1) - (s[i].position.x as int)) * (c.cohesion_mult as int) == 0
        && (tdiv(st.tpy, 1) - (s[i].position.y as int)) * (c.cohesion_mult as int) == 0)
        by (nonlinear_arith)
        requires
            c.alignment_mult == 0,
            c.cohesion_mult == 0;
}

/// Contagion needs a predator: an agent scanning a population that holds no
/// predator at all keeps its own kind, whatever the distances.
proof fn lemma_scan_no_predator(s: Seq<Boid>, i: int, j: int, c: Config)
    requires
        0 <= i < s.len(),
        j <= s.len(),
        forall|k: int| 0 <= k < s.len() ==> (#[trigger] s[k]).b_type == BoidType::Prey,
    ensures
        scan(s, i, j, c).ty == s[i].b_type,
    decreases j,
{
    if j <= 0 {
    } else {
        lemma_scan_no_predator(s, i, j - 1, c);
    }
}

/// Among prey alone no kind ever changes: the force phase of any agent of an
/// all-prey population leaves every kind as it was, at any distance.
pub proof fn lemma_no_contagion_among_prey(s: Seq<Boid>, i: int, c: Config)
    requires
        0 <= i < s.len(),
        forall|k: int| 0 <= k < s.len() ==> (#[trigger] s[k]).b_type == BoidType::Prey,
    ensures
        force_boid(s, i, c).b_type == s[i].b_type,
{
    lemma_scan_no_predator(s, i, s.len() as int, c);
}

/// The scan never demotes a predator: whatever it meets, an agent that
/// enters its scan as a predator leaves it as one.
proof fn lemma_scan_keeps_predator(s: Seq<Boid>, i: int, j: int, c: Config)
    requires
        0 <= i < s.len(),
        s[i].b_type == BoidType::Predator,
    ensures
        scan(s, i, j, c).ty == BoidType::Predator,
    decreases j,
{
    if j <= 0 {
    } else {
        lemma_scan_keeps_predator(s, i, j - 1, c);
    }
}

/// `tick_prefix` keeps the population size and never demotes a predator.
proof fn lemma_tick_prefix_predator(s: Seq<Boid>, k: int, dt: int, c: Config)
    requires
        0 <= k <= s.len(),
    ensures
        tick_prefix(s, k, dt, c).len() == s.len(),
        forall|i: int|
            0 <= i < s.len() && s[i].b_type == BoidType::Predator ==> tick_prefix(
                s,
                k,
                dt,
                c,
            )[i].b_type == BoidType::Predator,
    decreases k,
{
    if k <= 0 {
    } else {
        lemma_tick_prefix_predator(s, k - 1, dt, c);
        let t = tick_prefix(s, k - 1, dt, c);
        assert forall|i: int|
            0 <= i < s.len() && s[i].b_type == BoidType::Predator implies tick_prefix(
            s,
            k,
            dt,
            c,
        )[i].b_type == BoidType::Predator by {
            if i == k - 1 {
                lemma_scan_keeps_predator(t, i, t.len() as int, c);
            }
        }
    }
}

/// Contagion monotonicity: once an agent is a predator, it is a predator
/// after every subsequent tick, whatever its neighbors do.
pub proof fn lemma_contagion_monotone(s: Seq<Boid>, dt: int, c: Config, i: int)
    requires
        0 <= i < s.len(),
        s[i].b_type == BoidType::Predator,
    ensures
        tick_spec(s, dt, c).len() == s.len(),
        tick_spec(s, dt, c)[i].b_type == BoidType::Predator,
{
    let sb = boundary_seq(s, c);
    assert(sb[i] == boundary_boid(s[i], c));
    assert(sb[i].b_type == BoidType::Predator);
    lemma_tick_prefix_predator(sb, s.len() as int, dt, c);
}

/// With no sensory neighbor, the scan accumulates nothing: no steering, no
/// sums, no count. (Contagion may still fire, since it goes by the bounding
/// radius, but it only changes the kind.)
proof fn lemma_scan_isolated(s: Seq<Boid>, i: int, j: int, c: Config)
    requires
        0 <= i < s.len(),
        j <= s.len(),
        forall|k: int|
            0 <= k < s.len() && k != i ==> distsq(s[i].position, (#[trigger] s[k]).position)
                >= sensory_sq(c),
    ensures
        scan(s, i, j, c).ax == 0,
        scan(s, i, j, c).ay == 0,
        scan(s, i, j, c).cnt == 0,
        scan(s, i, j, c).tvx == 0,
        scan(s, i, j, c).tvy == 0,
        scan(s, i, j, c).tpx == 0,
        scan(s, i, j, c).tpy == 0,
    decreases j,
{
    if j <= 0 {
    } else {
        lemma_scan_isolated(s, i, j - 1, c);
    }
}

/// No-neighbor stillness: an agent with no other agent strictly inside its
/// sensory radius receives exactly zero acceleration from the force phase
/// that tick; its position and velocity enter integration unchanged.
pub proof fn lemma_isolated_no_force(s: Seq<Boid>, i: int, c: Config)
    requires
        0 <= i < s.len(),
        forall|k: int|
            0 <= k < s.len() && k != i ==> distsq(s[i].position, (#[trigger] s[k]).position)
                >= sensory_sq(c),
    ensures
        force_boid(s, i, c).acceleration == (Vec2 { x: 0, y: 0 }),
        force_boid(s, i, c).position == s[i].position,
        force_boid(s, i, c).velocity == s[i].velocity,
{
    lemma_scan_isolated(s, i, s.len() as int, c);
}

/// Boundary containment under Wrap: a coordinate that is not already in the
/// dead strip just below zero comes out of the wrap in `[0, dim + size/2]`,
/// however far away it started. (A coordinate strictly between `-size` and
/// `0` is left where it is by the wrap rule, and is excluded here.)
pub proof fn lemma_wrap_containment(x: int, dim: int, size: int)
    requires
        0 <= size <= dim,
        x <= -size || x >= 0,
    ensures
        0 <= wrap_coord(x, dim, size) <= dim + size / 2,
{
    vstd::arithmetic::div_mod::lemma_div_pos_is_pos(size, 2);
    vstd::arithmetic::div_mod::lemma_div_is_ordered(size, dim, 2);
}

} // verus!
