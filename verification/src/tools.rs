//! Pure 2D vector mathematics over exact integer coordinates.
//!
//! Every quantity in the simulation is an `i64` coordinate; squared
//! magnitudes are computed in `i128` so they can never overflow. Magnitudes
//! are floor square roots, and rescaling a vector rounds each component
//! toward zero, so a rescaled vector never gets longer than asked for.

use vstd::prelude::*;

verus! {

/// A two-dimensional vector (also used for points in the plane).
#[derive(Clone, Copy, PartialEq, Eq, Structural, Debug)]
pub struct Vec2 {
    pub x: i64,
    pub y: i64,
}

/// Coordinates handed to the distance helpers must stay inside this bound,
/// so that differences of two coordinates square without overflow.
pub const MAX_COORD: i64 = 0x2000_0000_0000_0000;

/// The squared Euclidean magnitude of `v`, as an unbounded integer.
pub open spec fn magsq(v: Vec2) -> int {
    (v.x as int) * (v.x as int) + (v.y as int) * (v.y as int)
}

/// The squared Euclidean distance between points `a` and `b`.
pub open spec fn distsq(a: Vec2, b: Vec2) -> int {
    ((b.x as int) - (a.x as int)) * ((b.x as int) - (a.x as int))
        + ((b.y as int) - (a.y as int)) * ((b.y as int) - (a.y as int))
}

/// Squares of values in a symmetric range stay within the square of the bound.
pub proof fn lemma_square_bound(a: int, b: int)
    by (nonlinear_arith)
    requires
        -b <= a <= b,
    ensures
        0 <= a * a <= b * b,
{
}

/// A squared magnitude is never negative, and is zero exactly on the zero vector.
pub proof fn lemma_magsq_nonneg(v: Vec2)
    by (nonlinear_arith)
    ensures
        magsq(v) >= 0,
        magsq(v) == 0 <==> v.x == 0 && v.y == 0,
{
}

/// Each component squared is bounded by the squared magnitude.
pub proof fn lemma_component_le_magsq(v: Vec2)
    by (nonlinear_arith)
    ensures
        (v.x as int) * (v.x as int) <= magsq(v),
        (v.y as int) * (v.y as int) <= magsq(v),
{
}

/// The squared magnitude of a vector: `x*x + y*y`.
pub fn get_magnitude_squared(vec: &Vec2) -> (r: i128)
    requires
        vec.x > i64::MIN,
        vec.y > i64::MIN,
    ensures
        r as int == magsq(*vec),
        r >= 0,
{
    proof {
        lemma_square_bound(vec.x as int, 0x7fff_ffff_ffff_ffff);
        lemma_square_bound(vec.y as int, 0x7fff_ffff_ffff_ffff);
        lemma_magsq_nonneg(*vec);
    }
    let xx: i128 = (vec.x as i128) * (vec.x as i128);
    let yy: i128 = (vec.y as i128) * (vec.y as i128);
    xx + yy
}

/// The squared distance between two points, with coordinates small enough
/// that the difference of any two fits comfortably in an `i128` square.
pub fn get_distance_squared(a: &Vec2, b: &Vec2) -> (r: i128)
    requires
        -MAX_COORD <= a.x <= MAX_COORD,
        -MAX_COORD <= a.y <= MAX_COORD,
        -MAX_COORD <= b.x <= MAX_COORD,
        -MAX_COORD <= b.y <= MAX_COORD,
    ensures
        r as int == distsq(*a, *b),
        r >= 0,
{
    let dx: i128 = (b.x as i128) - (a.x as i128);
    let dy: i128 = (b.y as i128) - (a.y as i128);
    proof {
        lemma_square_bound(dx as int, 0x4000_0000_0000_0000);
        lemma_square_bound(dy as int, 0x4000_0000_0000_0000);
    }
    dx * dx + dy * dy
}

/// The floor integer square root: the largest `r` with `r * r <= n`.
pub fn isqrt(n: u128) -> (r: u64)
    ensures
        (r as int) * (r as int) <= n as int,
        (n as int) < ((r as int) + 1) * ((r as int) + 1),
{
    let mut lo: u128 = 0;
    let mut hi: u128 = 0x1_0000_0000_0000_0000;
    proof {
        assert((hi as int) * (hi as int) > n as int) by (nonlinear_arith)
            requires
                hi == 0x1_0000_0000_0000_0000u128,
                n <= 0xffff_ffff_ffff_ffff_ffff_ffff_ffff_ffffu128;
    }
    while lo + 1 < hi
        invariant
            lo < hi <= 0x1_0000_0000_0000_0000,
            (lo as int) * (lo as int) <= n as int,
            (n as int) < (hi as int) * (hi as int),
        decreases hi - lo,
    {
        let mid: u128 = lo + (hi - lo) / 2;
        proof {
            assert((mid as int) * (mid as int)
                <= 0xffff_ffff_ffff_ffffint * 0xffff_ffff_ffff_ffffint) by (nonlinear_arith)
                requires
                    0 <= mid as int <= 0xffff_ffff_ffff_ffffint;
        }
        let sq: u128 = mid * mid;
        if sq <= n {
            lo = mid;
        } else {
            hi = mid;
        }
    }
    lo as u64
}

/// The magnitude of a vector, rounded down to an integer.
pub fn get_magnitude(vec: &Vec2) -> (r: i64)
    requires
        -MAX_COORD <= vec.x <= MAX_COORD,
        -MAX_COORD <= vec.y <= MAX_COORD,
    ensures
        r >= 0,
        (r as int) * (r as int) <= magsq(*vec),
        magsq(*vec) < ((r as int) + 1) * ((r as int) + 1),
{
    let s: i128 = get_magnitude_squared(vec);
    let r: u64 = isqrt(s as u128);
    proof {
        lemma_square_bound(vec.x as int, MAX_COORD as int);
        lemma_square_bound(vec.y as int, MAX_COORD as int);
        assert(r as int <= 0x4000_0000_0000_0000int) by (nonlinear_arith)
            requires
                (r as int) * (r as int) <= magsq(*vec),
                magsq(*vec) <= 2 * (0x2000_0000_0000_0000int * 0x2000_0000_0000_0000int),
                r >= 0;
    }
    r as i64
}

} // verus!

verus! {

/// Truncating (round-toward-zero) integer division, the rounding that the
/// executable scaling code performs.
pub open spec fn tdiv(a: int, d: int) -> int
    recommends
        d >= 1,
{
    if a >= 0 {
        a / d
    } else {
        -((-a) / d)
    }
}

/// `r` is the floor square root of `s`.
pub open spec fn is_floor_sqrt(r: int, s: int) -> bool {
    r >= 0 && r * r <= s && s < (r + 1) * (r + 1)
}

/// The floor square root of a nonnegative integer, as a mathematical value.
pub closed spec fn floor_sqrt(s: int) -> int {
    choose|r: int| #[trigger] is_floor_sqrt(r, s)
}

/// A floor square root exists for every nonnegative integer.
proof fn lemma_sqrt_exists(s: int)
    requires
        s >= 0,
    ensures
        exists|r: int| #[trigger] is_floor_sqrt(r, s),
    decreases s,
{
    if s == 0 {
        assert(0 * 0 <= 0 && 0 < (0 + 1) * (0 + 1)) by (nonlinear_arith);
        assert(is_floor_sqrt(0, s));
    } else {
        lemma_sqrt_exists(s - 1);
        let r = choose|r: int| #[trigger] is_floor_sqrt(r, s - 1);
        if s < (r + 1) * (r + 1) {
            assert(is_floor_sqrt(r, s));
        } else {
            assert(s == (r + 1) * (r + 1));
            assert((r + 1) >= 0 && (r + 1) * (r + 1) <= s && s < (r + 2) * (r + 2))
                by (nonlinear_arith)
                requires
                    r >= 0,
                    s == (r + 1) * (r + 1);
            assert(is_floor_sqrt(r + 1, s));
        }
    }
}

/// Two integers that both satisfy the floor-square-root property of `s` are equal.
proof fn lemma_sqrt_unique(a: int, b: int, s: int)
    by (nonlinear_arith)
    requires
        a >= 0,
        b >= 0,
        a * a <= s,
        s < (a + 1) * (a + 1),
        b * b <= s,
        s < (b + 1) * (b + 1),
    ensures
        a == b,
{
}

/// The defining property of `floor_sqrt`.
pub proof fn lemma_floor_sqrt(s: int)
    requires
        s >= 0,
    ensures
        floor_sqrt(s) >= 0,
        floor_sqrt(s) * floor_sqrt(s) <= s,
        s < (floor_sqrt(s) + 1) * (floor_sqrt(s) + 1),
{
    lemma_sqrt_exists(s);
    let r = choose|r: int| #[trigger] is_floor_sqrt(r, s);
    assert(is_floor_sqrt(r, s));
    assert(floor_sqrt(s) == r);
}

/// The ceiling square root of a nonnegative integer.
pub open spec fn ceil_sqrt(s: int) -> int {
    if floor_sqrt(s) * floor_sqrt(s) == s {
        floor_sqrt(s)
    } else {
        floor_sqrt(s) + 1
    }
}

/// The defining property of `ceil_sqrt` on positive inputs.
pub proof fn lemma_ceil_sqrt(s: int)
    requires
        s >= 1,
    ensures
        ceil_sqrt(s) >= 1,
        (ceil_sqrt(s) - 1) * (ceil_sqrt(s) - 1) < s,
        s <= ceil_sqrt(s) * ceil_sqrt(s),
{
    lemma_floor_sqrt(s);
    let f = floor_sqrt(s);
    if f * f == s {
        assert(f >= 1 && (f - 1) * (f - 1) < s) by (nonlinear_arith)
            requires
                f >= 0,
                f * f == s,
                s >= 1;
    } else {
        assert(f * f < s);
    }
}

/// Two integers that both satisfy the ceiling-square-root property of `s` are equal.
pub proof fn lemma_ceil_sqrt_unique(a: int, s: int)
    requires
        s >= 1,
        a >= 1,
        (a - 1) * (a - 1) < s,
        s <= a * a,
    ensures
        a == ceil_sqrt(s),
{
    lemma_ceil_sqrt(s);
    assert(a == ceil_sqrt(s)) by (nonlinear_arith)
        requires
            s >= 1,
            a >= 1,
            (a - 1) * (a - 1) < s,
            s <= a * a,
            ceil_sqrt(s) >= 1,
            (ceil_sqrt(s) - 1) * (ceil_sqrt(s) - 1) < s,
            s <= ceil_sqrt(s) * ceil_sqrt(s);
}

/// Multiplies `a` by `num` and divides by `den`, rounding toward zero.
/// The product is taken at full width, so it never overflows.
pub fn muldiv(a: i64, num: i64, den: i64) -> (r: i64)
    requires
        num >= 0,
        den >= 1,
        -0x7fff_ffff_ffff_ffff <= tdiv((a as int) * (num as int), den as int)
            <= 0x7fff_ffff_ffff_ffff,
    ensures
        r as int == tdiv((a as int) * (num as int), den as int),
{
    let neg: bool = a < 0;
    let aa: u128 = if neg {
        (-(a as i128)) as u128
    } else {
        a as u128
    };
    proof {
        assert(aa as int * (num as int) <= 0x8000_0000_0000_0000int * 0x7fff_ffff_ffff_ffffint)
            by (nonlinear_arith)
            requires
                0 <= aa as int <= 0x8000_0000_0000_0000int,
                0 <= num as int <= 0x7fff_ffff_ffff_ffffint;
    }
    let prod: u128 = aa * (num as u128);
    let q: u128 = prod / (den as u128);
    proof {
        vstd::arithmetic::div_mod::lemma_div_pos_is_pos(prod as int, den as int);
        if neg {
            assert((aa as int) * (num as int) == -((a as int) * (num as int)))
                by (nonlinear_arith)
                requires
                    aa as int == -(a as int);
        }
    }
    if neg {
        -(q as i128) as i64
    } else {
        q as i64
    }
}

/// The vector `v` rescaled toward magnitude `m`: each component becomes
/// `c * m / ceil_sqrt(magsq(v))`, rounded toward zero. The zero vector has
/// angle zero by convention, so it rescales to `(m, 0)`.
#[verifier::opaque]
pub open spec fn set_mag_spec(v: Vec2, m: int) -> Vec2 {
    if magsq(v) == 0 {
        Vec2 { x: m as i64, y: 0 }
    } else {
        Vec2 {
            x: tdiv((v.x as int) * m, ceil_sqrt(magsq(v))) as i64,
            y: tdiv((v.y as int) * m, ceil_sqrt(magsq(v))) as i64,
        }
    }
}

/// Core bound on the rescaling arithmetic: dividing by the ceiling square
/// root can only shorten a vector, so the result never exceeds magnitude `m`,
/// and each component stays within `[-m, m]`.
proof fn lemma_scaled_components(v: Vec2, m: int, c: int)
    requires
        m >= 0,
        c >= 1,
        magsq(v) >= 1,
        magsq(v) <= c * c,
    ensures
        -m <= tdiv((v.x as int) * m, c) <= m,
        -m <= tdiv((v.y as int) * m, c) <= m,
        tdiv((v.x as int) * m, c) * tdiv((v.x as int) * m, c)
            + tdiv((v.y as int) * m, c) * tdiv((v.y as int) * m, c) <= m * m,
        v.x >= 0 ==> tdiv((v.x as int) * m, c) >= 0,
        v.x <= 0 ==> tdiv((v.x as int) * m, c) <= 0,
        v.y >= 0 ==> tdiv((v.y as int) * m, c) >= 0,
        v.y <= 0 ==> tdiv((v.y as int) * m, c) <= 0,
{
    let x = v.x as int;
    let y = v.y as int;
    let s = magsq(v);
    lemma_component_le_magsq(v);
    let ax = if x >= 0 { x } else { -x };
    let ay = if y >= 0 { y } else { -y };
    assert(ax <= c && ay <= c && ax >= 0 && ay >= 0 && ax * ax == x * x && ay * ay == y * y)
        by (nonlinear_arith)
        requires
            ax == (if x >= 0 { x } else { -x }),
            ay == (if y >= 0 { y } else { -y }),
            x * x <= s,
            y * y <= s,
            s <= c * c,
            c >= 1;
    let qx = (ax * m) / c;
    let qy = (ay * m) / c;
    assert(ax * m >= 0 && ay * m >= 0 && ax * m <= c * m && ay * m <= c * m)
        by (nonlinear_arith)
        requires
            0 <= ax <= c,
            0 <= ay <= c,
            m >= 0;
    vstd::arithmetic::div_mod::lemma_div_pos_is_pos(ax * m, c);
    vstd::arithmetic::div_mod::lemma_div_pos_is_pos(ay * m, c);
    vstd::arithmetic::div_mod::lemma_div_is_ordered(ax * m, c * m, c);
    vstd::arithmetic::div_mod::lemma_div_is_ordered(ay * m, c * m, c);
    vstd::arithmetic::div_mod::lemma_div_multiples_vanish(m, c);
    assert(qx >= 0 && qy >= 0 && qx <= m && qy <= m);
    // relate the truncated quotients to the absolute-value quotients
    assert(tdiv(x * m, c) == if x >= 0 { qx } else { -qx }) by (nonlinear_arith)
        requires
            c >= 1,
            m >= 0,
            ax == (if x >= 0 { x } else { -x }),
            qx == (ax * m) / c;
    assert(tdiv(y * m, c) == if y >= 0 { qy } else { -qy }) by (nonlinear_arith)
        requires
            c >= 1,
            m >= 0,
            ay == (if y >= 0 { y } else { -y }),
            qy == (ay * m) / c;
    // the floored quotient times the divisor stays below the product
    vstd::arithmetic::div_mod::lemma_fundamental_div_mod(ax * m, c);
    vstd::arithmetic::div_mod::lemma_mod_division_less_than_divisor(ax * m, c);
    vstd::arithmetic::div_mod::lemma_fundamental_div_mod(ay * m, c);
    vstd::arithmetic::div_mod::lemma_mod_division_less_than_divisor(ay * m, c);
    assert(qx * c <= ax * m && qy * c <= ay * m) by (nonlinear_arith)
        requires
            ax * m == c * ((ax * m) / c) + (ax * m) % c,
            ay * m == c * ((ay * m) / c) + (ay * m) % c,
            (ax * m) % c >= 0,
            (ay * m) % c >= 0,
            qx == (ax * m) / c,
            qy == (ay * m) / c;
    assert((qx * qx + qy * qy) * (c * c) <= (ax * ax + ay * ay) * (m * m))
        by (nonlinear_arith)
        requires
            qx >= 0,
            qy >= 0,
            qx * c <= ax * m,
            qy * c <= ay * m,
            ax >= 0,
            ay >= 0,
            m >= 0,
            c >= 1;
    assert(qx * qx + qy * qy <= m * m) by (nonlinear_arith)
        requires
            (qx * qx + qy * qy) * (c * c) <= (ax * ax + ay * ay) * (m * m),
            ax * ax + ay * ay <= c * c,
            m >= 0,
            c >= 1,
            qx >= 0,
            qy >= 0;
    assert(tdiv(x * m, c) * tdiv(x * m, c) == qx * qx) by (nonlinear_arith)
        requires
            tdiv(x * m, c) == qx || tdiv(x * m, c) == -qx;
    assert(tdiv(y * m, c) * tdiv(y * m, c) == qy * qy) by (nonlinear_arith)
        requires
            tdiv(y * m, c) == qy || tdiv(y * m, c) == -qy;
    if x == 0 {
        vstd::arithmetic::div_mod::lemma_div_multiples_vanish(0, c);
        assert(ax * m == c * 0) by (nonlinear_arith)
            requires
                ax == 0;
    }
    if y == 0 {
        vstd::arithmetic::div_mod::lemma_div_multiples_vanish(0, c);
        assert(ay * m == c * 0) by (nonlinear_arith)
            requires
                ay == 0;
    }
}

/// A rescaled vector never exceeds the requested magnitude.
pub proof fn lemma_set_mag_bound(v: Vec2, m: int)
    requires
        0 <= m <= 0x7fff_ffff_ffff_ffff,
    ensures
        magsq(set_mag_spec(v, m)) <= m * m,
        -m <= set_mag_spec(v, m).x as int <= m,
        -m <= set_mag_spec(v, m).y as int <= m,
{
    reveal(set_mag_spec);
    lemma_magsq_nonneg(v);
    if magsq(v) == 0 {
        assert((m as i64) as int == m);
        assert(magsq(set_mag_spec(v, m)) == m * m + 0 * 0) by (nonlinear_arith)
            requires
                set_mag_spec(v, m).x as int == m,
                set_mag_spec(v, m).y as int == 0;
    } else {
        let s = magsq(v);
        let c = ceil_sqrt(s);
        lemma_ceil_sqrt(s);
        lemma_scaled_components(v, m, c);
        let rx = tdiv((v.x as int) * m, c);
        let ry = tdiv((v.y as int) * m, c);
        assert((rx as i64) as int == rx && (ry as i64) as int == ry);
        assert(magsq(set_mag_spec(v, m)) == rx * rx + ry * ry);
    }
}

/// Rescaling a vector that already has magnitude exactly `m` leaves it unchanged.
pub proof fn lemma_set_mag_exact(v: Vec2, m: int)
    requires
        m >= 0,
        magsq(v) == m * m,
    ensures
        set_mag_spec(v, m) == v,
{
    reveal(set_mag_spec);
    lemma_magsq_nonneg(v);
    if magsq(v) == 0 {
        assert(v.x == 0 && v.y == 0);
        assert(m == 0) by (nonlinear_arith)
            requires
                m >= 0,
                m * m == 0;
    } else {
        let s = magsq(v);
        assert(m >= 1) by (nonlinear_arith)
            requires
                m >= 0,
                m * m >= 1;
        assert((m - 1) * (m - 1) < m * m) by (nonlinear_arith)
            requires
                m >= 1;
        lemma_ceil_sqrt_unique(m, s);
        let x = v.x as int;
        let y = v.y as int;
        vstd::arithmetic::div_mod::lemma_div_multiples_vanish(x, m);
        vstd::arithmetic::div_mod::lemma_div_multiples_vanish(-x, m);
        vstd::arithmetic::div_mod::lemma_div_multiples_vanish(y, m);
        vstd::arithmetic::div_mod::lemma_div_multiples_vanish(-y, m);
        assert(x * m == m * x && (-x) * m == m * (-x) && y * m == m * y && (-y) * m == m * (-y))
            by (nonlinear_arith);
        assert(tdiv(x * m, m) == x && tdiv(y * m, m) == y) by (nonlinear_arith)
            requires
                m >= 1,
                (m * x) / m == x,
                (m * (-x)) / m == -x,
                (m * y) / m == y,
                (m * (-y)) / m == -y,
                x * m == m * x,
                (-x) * m == m * (-x),
                y * m == m * y,
                (-y) * m == m * (-y);
    }
}

} // verus!

verus! {

/// Returns `vec` rescaled to magnitude `mag` (its direction kept, its length
/// replaced), rounding each component toward zero, so the result never
/// exceeds magnitude `mag` and each component keeps its sign. The zero
/// vector has angle zero by convention and rescales to `(mag, 0)`.
pub fn set_vector_mag(vec: Vec2, mag: i64) -> (r: Vec2)
    requires
        -MAX_COORD <= vec.x <= MAX_COORD,
        -MAX_COORD <= vec.y <= MAX_COORD,
        mag >= 0,
    ensures
        r == set_mag_spec(vec, mag as int),
        magsq(r) <= (mag as int) * (mag as int),
        -mag <= r.x <= mag,
        -mag <= r.y <= mag,
        magsq(vec) != 0 ==> {
            &&& vec.x >= 0 ==> r.x >= 0
            &&& vec.x <= 0 ==> r.x <= 0
            &&& vec.y >= 0 ==> r.y >= 0
            &&& vec.y <= 0 ==> r.y <= 0
        },
{
    proof {
        reveal(set_mag_spec);
    }
    let s: i128 = get_magnitude_squared(&vec);
    if s == 0 {
        proof {
            lemma_magsq_nonneg(vec);
            lemma_set_mag_bound(vec, mag as int);
        }
        Vec2 { x: mag, y: 0 }
    } else {
        let f: u64 = isqrt((s - 1) as u128);
        proof {
            lemma_square_bound(vec.x as int, MAX_COORD as int);
            lemma_square_bound(vec.y as int, MAX_COORD as int);
            assert(f as int <= 0x4000_0000_0000_0000int) by (nonlinear_arith)
                requires
                    (f as int) * (f as int) <= (s as int) - 1,
                    s as int <= 2 * (0x2000_0000_0000_0000int * 0x2000_0000_0000_0000int),
                    f >= 0;
        }
        let c: i64 = (f + 1) as i64;
        proof {
            assert((c as int - 1) * (c as int - 1) < s as int);
            assert(s as int <= (c as int) * (c as int));
            lemma_ceil_sqrt_unique(c as int, s as int);
            lemma_scaled_components(vec, mag as int, c as int);
        }
        let rx: i64 = muldiv(vec.x, mag, c);
        let ry: i64 = muldiv(vec.y, mag, c);
        Vec2 { x: rx, y: ry }
    }
}

/// Round-away-from-zero integer division: the rounding the floor-raising
/// rescaler performs, so that a raised vector never falls short.
pub open spec fn tdiv_away(a: int, d: int) -> int
    recommends
        d >= 1,
{
    if a >= 0 {
        (a + d - 1) / d
    } else {
        -(((-a) + d - 1) / d)
    }
}

/// The ceiling quotient of a nonnegative dividend: it is at least the true
/// quotient, at most one above the floor quotient, and multiplying it back
/// reaches the dividend.
proof fn lemma_ceil_div_bounds(p: int, d: int)
    requires
        p >= 0,
        d >= 1,
    ensures
        ((p + d - 1) / d) * d >= p,
        0 <= (p + d - 1) / d <= p / d + 1,
{
    let q = (p + d - 1) / d;
    vstd::arithmetic::div_mod::lemma_div_pos_is_pos(p + d - 1, d);
    vstd::arithmetic::div_mod::lemma_fundamental_div_mod(p + d - 1, d);
    vstd::arithmetic::div_mod::lemma_mod_division_less_than_divisor(p + d - 1, d);
    assert(q * d >= p) by (nonlinear_arith)
        requires
            p + d - 1 == d * q + (p + d - 1) % d,
            0 <= (p + d - 1) % d < d;
    vstd::arithmetic::div_mod::lemma_fundamental_div_mod(p, d);
    vstd::arithmetic::div_mod::lemma_mod_division_less_than_divisor(p, d);
    assert(q <= p / d + 1) by (nonlinear_arith)
        requires
            p + d - 1 == d * q + (p + d - 1) % d,
            0 <= (p + d - 1) % d < d,
            p == d * (p / d) + p % d,
            0 <= p % d < d,
            d >= 1;
}

/// Multiplies `a` by `num` and divides by `den`, rounding away from zero.
pub fn muldiv_up(a: i64, num: i64, den: i64) -> (r: i64)
    requires
        num >= 0,
        den >= 1,
        -0x7fff_ffff_ffff_ffff <= tdiv_away((a as int) * (num as int), den as int)
            <= 0x7fff_ffff_ffff_ffff,
    ensures
        r as int == tdiv_away((a as int) * (num as int), den as int),
{
    let neg: bool = a < 0;
    let aa: u128 = if neg {
        (-(a as i128)) as u128
    } else {
        a as u128
    };
    proof {
        assert(aa as int * (num as int) <= 0x8000_0000_0000_0000int * 0x7fff_ffff_ffff_ffffint)
            by (nonlinear_arith)
            requires
                0 <= aa as int <= 0x8000_0000_0000_0000int,
                0 <= num as int <= 0x7fff_ffff_ffff_ffffint;
    }
    let prod: u128 = aa * (num as u128);
    let q: u128 = (prod + (den as u128) - 1) / (den as u128);
    proof {
        lemma_ceil_div_bounds(prod as int, den as int);
        if neg {
            assert((aa as int) * (num as int) == -((a as int) * (num as int))
                && (a as int) * (num as int) <= 0) by (nonlinear_arith)
                requires
                    aa as int == -(a as int),
                    a < 0,
                    num >= 0;
            if prod == 0 {
                vstd::arithmetic::div_mod::lemma_fundamental_div_mod_converse(
                    den as int - 1,
                    den as int,
                    0,
                    den as int - 1,
                );
            }
        } else {
            assert((a as int) * (num as int) >= 0) by (nonlinear_arith)
                requires
                    a >= 0,
                    num >= 0;
        }
    }
    if neg {
        -(q as i128) as i64
    } else {
        q as i64
    }
}

/// The vector `v` rescaled toward magnitude `m` without falling short: each
/// component becomes `c * m / floor_sqrt(magsq(v))`, rounded away from zero,
/// so the result's magnitude is at least `m`. The zero vector has angle zero
/// by convention and rescales to `(m, 0)`. The clamp's floor branch uses
/// this rescaler.
#[verifier::opaque]
pub open spec fn raise_mag_spec(v: Vec2, m: int) -> Vec2 {
    if magsq(v) == 0 {
        Vec2 { x: m as i64, y: 0 }
    } else {
        Vec2 {
            x: tdiv_away((v.x as int) * m, floor_sqrt(magsq(v))) as i64,
            y: tdiv_away((v.y as int) * m, floor_sqrt(magsq(v))) as i64,
        }
    }
}

/// Core bound on the floor-raising arithmetic: dividing by the floor square
/// root and rounding away from zero can only lengthen a vector relative to
/// the target, so the result reaches magnitude `m`, while each component
/// stays within `[-(m + 1), m + 1]` and keeps its sign.
proof fn lemma_raised_components(v: Vec2, m: int, d: int)
    requires
        m >= 0,
        d >= 1,
        magsq(v) >= 1,
        d * d <= magsq(v),
        magsq(v) < (d + 1) * (d + 1),
    ensures
        -(m + 1) <= tdiv_away((v.x as int) * m, d) <= m + 1,
        -(m + 1) <= tdiv_away((v.y as int) * m, d) <= m + 1,
        tdiv_away((v.x as int) * m, d) * tdiv_away((v.x as int) * m, d)
            + tdiv_away((v.y as int) * m, d) * tdiv_away((v.y as int) * m, d) >= m * m,
        v.x >= 0 ==> tdiv_away((v.x as int) * m, d) >= 0,
        v.x <= 0 ==> tdiv_away((v.x as int) * m, d) <= 0,
        v.y >= 0 ==> tdiv_away((v.y as int) * m, d) >= 0,
        v.y <= 0 ==> tdiv_away((v.y as int) * m, d) <= 0,
{
    let x = v.x as int;
    let y = v.y as int;
    let s = magsq(v);
    lemma_component_le_magsq(v);
    let ax = if x >= 0 { x } else { -x };
    let ay = if y >= 0 { y } else { -y };
    assert(ax <= d && ay <= d && ax >= 0 && ay >= 0 && ax * ax == x * x && ay * ay == y * y)
        by (nonlinear_arith)
        requires
            ax == (if x >= 0 { x } else { -x }),
            ay == (if y >= 0 { y } else { -y }),
            x * x <= s,
            y * y <= s,
            s < (d + 1) * (d + 1),
            d >= 1;
    let qx = (ax * m + d - 1) / d;
    let qy = (ay * m + d - 1) / d;
    assert(ax * m >= 0 && ay * m >= 0 && ax * m <= d * m && ay * m <= d * m)
        by (nonlinear_arith)
        requires
            0 <= ax <= d,
            0 <= ay <= d,
            m >= 0;
    lemma_ceil_div_bounds(ax * m, d);
    lemma_ceil_div_bounds(ay * m, d);
    vstd::arithmetic::div_mod::lemma_div_is_ordered(ax * m, d * m, d);
    vstd::arithmetic::div_mod::lemma_div_is_ordered(ay * m, d * m, d);
    vstd::arithmetic::div_mod::lemma_div_multiples_vanish(m, d);
    assert(qx >= 0 && qy >= 0 && qx <= m + 1 && qy <= m + 1);
    // relate the away-rounded quotients to the absolute-value quotients
    assert(tdiv_away(x * m, d) == if x >= 0 { qx } else { -qx }) by (nonlinear_arith)
        requires
            d >= 1,
            m >= 0,
            ax == (if x >= 0 { x } else { -x }),
            qx == (ax * m + d - 1) / d;
    assert(tdiv_away(y * m, d) == if y >= 0 { qy } else { -qy }) by (nonlinear_arith)
        requires
            d >= 1,
            m >= 0,
            ay == (if y >= 0 { y } else { -y }),
            qy == (ay * m + d - 1) / d;
    // the raised quotient times the divisor reaches the product
    assert(qx * d >= ax * m && qy * d >= ay * m);
    assert((qx * qx + qy * qy) * (d * d) >= (ax * ax + ay * ay) * (m * m))
        by (nonlinear_arith)
        requires
            qx >= 0,
            qy >= 0,
            qx * d >= ax * m,
            qy * d >= ay * m,
            ax >= 0,
            ay >= 0,
            m >= 0,
            d >= 1;
    assert(qx * qx + qy * qy >= m * m) by (nonlinear_arith)
        requires
            (qx * qx + qy * qy) * (d * d) >= (ax * ax + ay * ay) * (m * m),
            ax * ax + ay * ay >= d * d,
            m >= 0,
            d >= 1,
            qx >= 0,
            qy >= 0;
    assert(tdiv_away(x * m, d) * tdiv_away(x * m, d) == qx * qx) by (nonlinear_arith)
        requires
            tdiv_away(x * m, d) == qx || tdiv_away(x * m, d) == -qx;
    assert(tdiv_away(y * m, d) * tdiv_away(y * m, d) == qy * qy) by (nonlinear_arith)
        requires
            tdiv_away(y * m, d) == qy || tdiv_away(y * m, d) == -qy;
    if x == 0 {
        assert(ax * m == 0) by (nonlinear_arith)
            requires
                ax == 0;
        vstd::arithmetic::div_mod::lemma_fundamental_div_mod_converse(d - 1, d, 0, d - 1);
    }
    if y == 0 {
        assert(ay * m == 0) by (nonlinear_arith)
            requires
                ay == 0;
        vstd::arithmetic::div_mod::lemma_fundamental_div_mod_converse(d - 1, d, 0, d - 1);
    }
}

/// A raised vector always reaches the requested magnitude: the speed floor
/// of the clamp rests on this.
pub proof fn lemma_raise_mag_floor(v: Vec2, m: int)
    requires
        0 <= m <= 0x7fff_ffff_ffff_fffe,
    ensures
        magsq(raise_mag_spec(v, m)) >= m * m,
        -(m + 1) <= raise_mag_spec(v, m).x as int <= m + 1,
        -(m + 1) <= raise_mag_spec(v, m).y as int <= m + 1,
{
    reveal(raise_mag_spec);
    lemma_magsq_nonneg(v);
    if magsq(v) == 0 {
        assert((m as i64) as int == m);
        assert(magsq(raise_mag_spec(v, m)) == m * m + 0 * 0) by (nonlinear_arith)
            requires
                raise_mag_spec(v, m).x as int == m,
                raise_mag_spec(v, m).y as int == 0;
    } else {
        let s = magsq(v);
        let d = floor_sqrt(s);
        lemma_floor_sqrt(s);
        assert(d >= 1) by (nonlinear_arith)
            requires
                s >= 1,
                d >= 0,
                s < (d + 1) * (d + 1);
        lemma_raised_components(v, m, d);
        let rx = tdiv_away((v.x as int) * m, d);
        let ry = tdiv_away((v.y as int) * m, d);
        assert((rx as i64) as int == rx && (ry as i64) as int == ry);
        assert(magsq(raise_mag_spec(v, m)) == rx * rx + ry * ry);
    }
}

/// Raising a vector that already has magnitude exactly `m` leaves it unchanged.
pub proof fn lemma_raise_mag_exact(v: Vec2, m: int)
    requires
        m >= 0,
        magsq(v) == m * m,
    ensures
        raise_mag_spec(v, m) == v,
{
    reveal(raise_mag_spec);
    lemma_magsq_nonneg(v);
    if magsq(v) == 0 {
        assert(v.x == 0 && v.y == 0);
        assert(m == 0) by (nonlinear_arith)
            requires
                m >= 0,
                m * m == 0;
    } else {
        let s = magsq(v);
        assert(m >= 1) by (nonlinear_arith)
            requires
                m >= 0,
                m * m >= 1;
        assert(m * m < (m + 1) * (m + 1)) by (nonlinear_arith)
            requires
                m >= 1;
        lemma_floor_sqrt_unique(m, s);
        let x = v.x as int;
        let y = v.y as int;
        assert(tdiv_away(x * m, m) == x) by {
            if x >= 0 {
                assert(x * m >= 0) by (nonlinear_arith)
                    requires
                        x >= 0,
                        m >= 1;
                lemma_exact_ceil_div(x, m);
            } else {
                assert(x * m < 0 && -(x * m) == (-x) * m) by (nonlinear_arith)
                    requires
                        x < 0,
                        m >= 1;
                lemma_exact_ceil_div(-x, m);
            }
        }
        assert(tdiv_away(y * m, m) == y) by {
            if y >= 0 {
                assert(y * m >= 0) by (nonlinear_arith)
                    requires
                        y >= 0,
                        m >= 1;
                lemma_exact_ceil_div(y, m);
            } else {
                assert(y * m < 0 && -(y * m) == (-y) * m) by (nonlinear_arith)
                    requires
                        y < 0,
                        m >= 1;
                lemma_exact_ceil_div(-y, m);
            }
        }
    }
}

/// The away-rounded quotient of an exact multiple is exact.
proof fn lemma_exact_ceil_div(k: int, d: int)
    requires
        d >= 1,
        k >= 0,
    ensures
        (k * d + d - 1) / d == k,
{
    vstd::arithmetic::div_mod::lemma_fundamental_div_mod_converse(
        k * d + d - 1,
        d,
        k,
        d - 1,
    );
}

/// Rescales `vec` toward magnitude `mag` without falling short: the result's
/// magnitude is at least `mag`, each component keeps its sign and stays
/// within `[-(mag + 1), mag + 1]`. The zero vector rescales to `(mag, 0)`.
pub fn raise_vector_mag(vec: Vec2, mag: i64) -> (r: Vec2)
    requires
        -MAX_COORD <= vec.x <= MAX_COORD,
        -MAX_COORD <= vec.y <= MAX_COORD,
        0 <= mag < 0x7fff_ffff_ffff_ffff,
    ensures
        r == raise_mag_spec(vec, mag as int),
        magsq(r) >= (mag as int) * (mag as int),
        -(mag + 1) <= r.x <= mag + 1,
        -(mag + 1) <= r.y <= mag + 1,
        magsq(vec) != 0 ==> {
            &&& vec.x >= 0 ==> r.x >= 0
            &&& vec.x <= 0 ==> r.x <= 0
            &&& vec.y >= 0 ==> r.y >= 0
            &&& vec.y <= 0 ==> r.y <= 0
        },
{
    proof {
        reveal(raise_mag_spec);
    }
    let s: i128 = get_magnitude_squared(&vec);
    if s == 0 {
        proof {
            lemma_magsq_nonneg(vec);
            lemma_raise_mag_floor(vec, mag as int);
        }
        Vec2 { x: mag, y: 0 }
    } else {
        let d64: u64 = isqrt(s as u128);
        proof {
            lemma_square_bound(vec.x as int, MAX_COORD as int);
            lemma_square_bound(vec.y as int, MAX_COORD as int);
            assert(d64 as int <= 0x4000_0000_0000_0000int) by (nonlinear_arith)
                requires
                    (d64 as int) * (d64 as int) <= s as int,
                    s as int <= 2 * (0x2000_0000_0000_0000int * 0x2000_0000_0000_0000int),
                    d64 >= 0;
            assert(d64 >= 1) by (nonlinear_arith)
                requires
                    s >= 1,
                    d64 >= 0,
                    (s as int) < ((d64 as int) + 1) * ((d64 as int) + 1);
            lemma_floor_sqrt_unique(d64 as int, s as int);
            lemma_raised_components(vec, mag as int, d64 as int);
        }
        let d: i64 = d64 as i64;
        let rx: i64 = muldiv_up(vec.x, mag, d);
        let ry: i64 = muldiv_up(vec.y, mag, d);
        Vec2 { x: rx, y: ry }
    }
}

/// The vector `v` clamped into the magnitude band `[min, max]`: rescaled
/// down to `max` when at or above it, raised to at least `min` when at or
/// below it, and returned unchanged in between. The comparisons are made on
/// squared magnitudes, which agrees exactly with comparing true magnitudes.
/// A very short vector is so coarse a direction that raising it can overshoot
/// the ceiling; such a raise is rescaled back down to `max`, so the clamp
/// never exceeds the ceiling whatever happens at the floor.
pub open spec fn clamp_mag_spec(v: Vec2, min: int, max: int) -> Vec2 {
    if magsq(v) >= max * max {
        set_mag_spec(v, max)
    } else if magsq(v) <= min * min {
        let w = raise_mag_spec(v, min);
        if magsq(w) > max * max {
            set_mag_spec(w, max)
        } else {
            w
        }
    } else {
        v
    }
}

/// Clamps the magnitude of `vec` into `[min, max]`. The returned vector
/// never exceeds magnitude `max`; when the floor branch raises without
/// overshooting the ceiling, it reaches at least magnitude `min`.
pub fn clamp_vector_mag(vec: Vec2, min: i64, max: i64) -> (r: Vec2)
    requires
        -MAX_COORD <= vec.x <= MAX_COORD,
        -MAX_COORD <= vec.y <= MAX_COORD,
        0 <= min <= max <= MAX_COORD - 1,
    ensures
        r == clamp_mag_spec(vec, min as int, max as int),
        magsq(r) <= (max as int) * (max as int),
        -max <= r.x <= max,
        -max <= r.y <= max,
        magsq(vec) != 0 ==> {
            &&& vec.x >= 0 ==> r.x >= 0
            &&& vec.x <= 0 ==> r.x <= 0
            &&& vec.y >= 0 ==> r.y >= 0
            &&& vec.y <= 0 ==> r.y <= 0
        },
{
    let s: i128 = get_magnitude_squared(&vec);
    proof {
        lemma_square_bound(max as int, 0x7fff_ffff_ffff_ffff);
        lemma_square_bound(min as int, 0x7fff_ffff_ffff_ffff);
    }
    let maxsq: i128 = (max as i128) * (max as i128);
    let minsq: i128 = (min as i128) * (min as i128);
    if s >= maxsq {
        set_vector_mag(vec, max)
    } else if s <= minsq {
        let w = raise_vector_mag(vec, min);
        let ws: i128 = get_magnitude_squared(&w);
        if ws > maxsq {
            set_vector_mag(w, max)
        } else {
            proof {
                lemma_component_le_magsq(w);
                assert(-(max as int) <= w.x as int <= max as int
                    && -(max as int) <= w.y as int <= max as int) by (nonlinear_arith)
                    requires
                        (w.x as int) * (w.x as int) <= magsq(w),
                        (w.y as int) * (w.y as int) <= magsq(w),
                        magsq(w) <= (max as int) * (max as int),
                        max >= 0;
            }
            w
        }
    } else {
        proof {
            lemma_component_le_magsq(vec);
            assert(-(max as int) <= vec.x as int <= max as int
                && -(max as int) <= vec.y as int <= max as int) by (nonlinear_arith)
                requires
                    (vec.x as int) * (vec.x as int) <= magsq(vec),
                    (vec.y as int) * (vec.y as int) <= magsq(vec),
                    magsq(vec) < (max as int) * (max as int),
                    max >= 0;
        }
        vec
    }
}

/// The magnitude-limiting rule/// The magnitude-limiting rule: the threshold is a squared magnitude, and a
/// vector at or above the threshold is rescaled using that same squared
/// value as the new magnitude.
pub open spec fn limit_mag_spec(v: Vec2, max_squared: int) -> Vec2 {
    if magsq(v) >= max_squared {
        set_mag_spec(v, max_squared)
    } else {
        v
    }
}

/// Limits `vec` to the squared-magnitude threshold `max_squared`.
pub fn limit_vector_mag(vec: Vec2, max_squared: i64) -> (r: Vec2)
    requires
        -MAX_COORD <= vec.x <= MAX_COORD,
        -MAX_COORD <= vec.y <= MAX_COORD,
        max_squared >= 0,
    ensures
        r == limit_mag_spec(vec, max_squared as int),
{
    let s: i128 = get_magnitude_squared(&vec);
    if s >= max_squared as i128 {
        set_vector_mag(vec, max_squared)
    } else {
        vec
    }
}

/// Whether `point` lies strictly within the circle of squared radius
/// `radius_squared` around `center_pos`: a point exactly on the boundary is
/// outside, the same tie-break every radius check of the force model uses.
pub fn point_is_in_radius(center_pos: &Vec2, point: &Vec2, radius_squared: i128) -> (r: bool)
    requires
        -MAX_COORD <= center_pos.x <= MAX_COORD,
        -MAX_COORD <= center_pos.y <= MAX_COORD,
        -MAX_COORD <= point.x <= MAX_COORD,
        -MAX_COORD <= point.y <= MAX_COORD,
    ensures
        r == (distsq(*center_pos, *point) < radius_squared as int),
{
    let d: i128 = get_distance_squared(center_pos, point);
    d < radius_squared
}

} // verus!

verus! {

/// Scaling a component that is no larger than the divisor keeps the result
/// within the multiplier: `|x| <= d` gives `|x * m / d| <= m`.
pub proof fn lemma_tdiv_mul_le(x: int, m: int, d: int)
    requires
        d >= 1,
        m >= 0,
        -d <= x <= d,
    ensures
        -m <= tdiv(x * m, d) <= m,
{
    let ax = if x >= 0 { x } else { -x };
    assert(0 <= ax * m <= d * m && (x >= 0 ==> x * m == ax * m) && (x < 0 ==> x * m == -(ax * m)))
        by (nonlinear_arith)
        requires
            ax == (if x >= 0 { x } else { -x }),
            -d <= x <= d,
            m >= 0,
            d >= 1;
    let q = (ax * m) / d;
    vstd::arithmetic::div_mod::lemma_div_pos_is_pos(ax * m, d);
    vstd::arithmetic::div_mod::lemma_div_is_ordered(ax * m, d * m, d);
    vstd::arithmetic::div_mod::lemma_div_multiples_vanish(m, d);
    assert(0 <= q <= m);
}

/// Truncating division shrinks any symmetric bound: `|a| <= b` gives
/// `|tdiv(a, d)| <= b / d`.
pub proof fn lemma_tdiv_range(a: int, b: int, d: int)
    requires
        d >= 1,
        0 <= b,
        -b <= a <= b,
    ensures
        -(b / d) <= tdiv(a, d) <= b / d,
{
    vstd::arithmetic::div_mod::lemma_div_pos_is_pos(b, d);
    if a >= 0 {
        vstd::arithmetic::div_mod::lemma_div_pos_is_pos(a, d);
        vstd::arithmetic::div_mod::lemma_div_is_ordered(a, b, d);
    } else {
        vstd::arithmetic::div_mod::lemma_div_pos_is_pos(-a, d);
        vstd::arithmetic::div_mod::lemma_div_is_ordered(-a, b, d);
    }
}

/// Truncating division is monotone in the dividend.
pub proof fn lemma_tdiv_mono(a1: int, a2: int, d: int)
    requires
        d >= 1,
        a1 <= a2,
    ensures
        tdiv(a1, d) <= tdiv(a2, d),
{
    if a1 >= 0 {
        vstd::arithmetic::div_mod::lemma_div_is_ordered(a1, a2, d);
    } else if a2 < 0 {
        vstd::arithmetic::div_mod::lemma_div_is_ordered(-a2, -a1, d);
    } else {
        vstd::arithmetic::div_mod::lemma_div_pos_is_pos(-a1, d);
        vstd::arithmetic::div_mod::lemma_div_pos_is_pos(a2, d);
    }
}

/// Truncating division recovers an exact multiple: `tdiv(d * k, d) == k`.
pub proof fn lemma_tdiv_multiple(k: int, d: int)
    requires
        d >= 1,
    ensures
        tdiv(d * k, d) == k,
{
    vstd::arithmetic::div_mod::lemma_div_multiples_vanish(k, d);
    vstd::arithmetic::div_mod::lemma_div_multiples_vanish(-k, d);
    assert((k >= 0 ==> d * k >= 0) && (k < 0 ==> d * k < 0) && -(d * k) == d * (-k))
        by (nonlinear_arith)
        requires
            d >= 1;
}

} // verus!

verus! {

/// An integer with the floor-square-root property of `s` is `floor_sqrt(s)`.
pub proof fn lemma_floor_sqrt_unique(a: int, s: int)
    requires
        s >= 0,
        a >= 0,
        a * a <= s,
        s < (a + 1) * (a + 1),
    ensures
        a == floor_sqrt(s),
{
    lemma_floor_sqrt(s);
    lemma_sqrt_unique(a, floor_sqrt(s), s);
}

} // verus!

verus! {

/// The fixed-point scale of the trigonometric helpers: a sine or cosine of
/// 1.0 is represented as `1_000_000`.
pub const TRIG_SCALE: i64 = 1_000_000;

/// Angles are tenths of a degree: a full turn is `3600`.
pub const FULL_TURN: i64 = 3600;

/// Fixed-point sine on the first half turn (`a` in tenths of a degree,
/// `0..=1800`), by Bhaskara's rational approximation, scaled by
/// `TRIG_SCALE`. Exact at 0, 300, 900, 1500 and 1800.
pub open spec fn sin_half(a: int) -> int
    recommends
        0 <= a <= 1800,
{
    (4 * (a * (1800 - a)) * 1_000_000) / (4_050_000 - a * (1800 - a))
}

/// Fixed-point sine over a full turn (`a` in `0..3600`).
pub open spec fn sin_fp(a: int) -> int {
    if a <= 1800 {
        sin_half(a)
    } else {
        -sin_half(a - 1800)
    }
}

/// Fixed-point cosine over a full turn: the sine a quarter turn ahead.
pub open spec fn cos_fp(a: int) -> int {
    sin_fp((a + 900) % 3600)
}

/// The half-turn sine stays within the fixed-point unit range, and away
/// from the two zero endpoints it is strictly positive.
pub proof fn lemma_sin_half_range(a: int)
    requires
        0 <= a <= 1800,
    ensures
        0 <= sin_half(a) <= 1_000_000,
        1 <= a <= 1799 ==> 1 <= sin_half(a),
{
    let p = a * (1800 - a);
    let num = 4 * p * 1_000_000;
    let den = 4_050_000 - p;
    assert(p == 810_000 - (a - 900) * (a - 900) && (a - 900) * (a - 900) >= 0 && p >= 0)
        by (nonlinear_arith)
        requires
            0 <= a <= 1800,
            p == a * (1800 - a);
    if 1 <= a <= 1799 {
        assert(p == 1799 + (a - 1) * (1799 - a) && (a - 1) * (1799 - a) >= 0)
            by (nonlinear_arith)
            requires
                1 <= a <= 1799,
                p == a * (1800 - a);
    }
    assert(num <= den * 1_000_000) by (nonlinear_arith)
        requires
            num == 4 * p * 1_000_000,
            den == 4_050_000 - p,
            0 <= p <= 810_000;
    vstd::arithmetic::div_mod::lemma_div_pos_is_pos(num, den);
    vstd::arithmetic::div_mod::lemma_div_is_ordered(num, den * 1_000_000, den);
    vstd::arithmetic::div_mod::lemma_div_multiples_vanish(1_000_000, den);
    assert(den * 1_000_000 == 1_000_000 * den) by (nonlinear_arith);
    if 1 <= a <= 1799 {
        assert(num >= den) by (nonlinear_arith)
            requires
                num == 4 * p * 1_000_000,
                den == 4_050_000 - p,
                p >= 1799;
        vstd::arithmetic::div_mod::lemma_div_is_ordered(den, num, den);
        vstd::arithmetic::div_mod::lemma_div_multiples_vanish(1, den);
        assert(den * 1 == 1 * den) by (nonlinear_arith);
    }
}

/// The fixed-point half-turn sine.
pub fn sin_lookup(a: i64) -> (r: i64)
    requires
        0 <= a <= 1800,
    ensures
        r as int == sin_half(a as int),
        0 <= r <= 1_000_000,
{
    proof {
        assert(0 <= (a as int) * (1800 - a as int) <= 810_000) by (nonlinear_arith)
            requires
                0 <= a as int <= 1800;
    }
    let p: i64 = a * (1800 - a);
    let num: i64 = 4 * p * 1_000_000;
    let den: i64 = 4_050_000 - p;
    let r: i64 = ((num as u64) / (den as u64)) as i64;
    proof {
        lemma_sin_half_range(a as int);
    }
    r
}

/// The cartesian components of the polar vector of magnitude `m` at angle
/// `a` tenths of a degree: `(m*cos(a), m*sin(a))`, each product scaled back
/// down by `TRIG_SCALE`, rounding toward zero.
pub open spec fn components_spec(m: int, a: int) -> Vec2 {
    Vec2 {
        x: tdiv(m * cos_fp(a), 1_000_000) as i64,
        y: tdiv(m * sin_fp(a), 1_000_000) as i64,
    }
}

/// A signed fixed-point product: `m * s / TRIG_SCALE` with `s` a scaled
/// sine or cosine value carried as a sign flag and a magnitude.
fn scale_trig(m: i64, neg: bool, smag: i64) -> (r: i64)
    requires
        m >= 0,
        0 <= smag <= 1_000_000,
    ensures
        r as int == tdiv((m as int) * (if neg { -(smag as int) } else { smag as int }), 1_000_000),
        -m <= r <= m,
{
    proof {
        assert(0 <= (m as int) * (smag as int) <= 1_000_000 * (m as int)) by (nonlinear_arith)
            requires
                m >= 0,
                0 <= smag <= 1_000_000;
        lemma_tdiv_range((m as int) * (smag as int), 1_000_000 * (m as int), 1_000_000);
        vstd::arithmetic::div_mod::lemma_div_multiples_vanish(m as int, 1_000_000);
        assert((m as int) * (-(smag as int)) == -((m as int) * (smag as int)))
            by (nonlinear_arith);
    }
    let q: i64 = muldiv(m, smag, 1_000_000);
    if neg {
        -q
    } else {
        q
    }
}

/// `(m*cos(angle), m*sin(angle))` in fixed-point arithmetic. Each component
/// stays within `[-mag, mag]`, so the result's squared magnitude is at most
/// `2 * mag * mag`.
pub fn get_components(mag: i64, angle: i64) -> (r: Vec2)
    requires
        mag >= 0,
        0 <= angle < 3600,
    ensures
        r == components_spec(mag as int, angle as int),
        -mag <= r.x <= mag,
        -mag <= r.y <= mag,
        magsq(r) <= 2 * ((mag as int) * (mag as int)),
{
    let ci: i64 = if angle + 900 >= 3600 {
        angle + 900 - 3600
    } else {
        angle + 900
    };
    let cneg: bool = ci > 1800;
    let cmag: i64 = if ci <= 1800 {
        sin_lookup(ci)
    } else {
        sin_lookup(ci - 1800)
    };
    let sneg: bool = angle > 1800;
    let smag: i64 = if angle <= 1800 {
        sin_lookup(angle)
    } else {
        sin_lookup(angle - 1800)
    };
    proof {
        assert((angle as int + 900) % 3600 == ci as int);
        assert(cos_fp(angle as int) == (if cneg { -(cmag as int) } else { cmag as int }));
        assert(sin_fp(angle as int) == (if sneg { -(smag as int) } else { smag as int }));
    }
    let x: i64 = scale_trig(mag, cneg, cmag);
    let y: i64 = scale_trig(mag, sneg, smag);
    proof {
        lemma_square_bound(x as int, mag as int);
        lemma_square_bound(y as int, mag as int);
    }
    Vec2 { x, y }
}

/// Whether the first-quadrant direction `(ax, ay)` points at or above the
/// angle `a` tenths of a degree: `ax * sin(a) <= ay * cos(a)`.
pub open spec fn octant_pred(ax: int, ay: int, a: int) -> bool {
    ax * sin_half(a) <= ay * sin_half(a + 900)
}

/// `r` is the largest angle in `0..=900` that the first-quadrant direction
/// `(ax, ay)` still points at or above: the floor of its polar angle.
pub open spec fn is_quad_angle(ax: int, ay: int, r: int) -> bool {
    &&& 0 <= r <= 900
    &&& octant_pred(ax, ay, r)
    &&& (r == 900 || !octant_pred(ax, ay, r + 1))
}

/// Evaluates `octant_pred` on machine integers.
fn octant_pred_exec(ax: i64, ay: i64, a: i64) -> (r: bool)
    requires
        0 <= ax <= MAX_COORD,
        0 <= ay <= MAX_COORD,
        0 <= a <= 900,
    ensures
        r == octant_pred(ax as int, ay as int, a as int),
{
    let s1: i64 = sin_lookup(a);
    let s2: i64 = sin_lookup(a + 900);
    proof {
        assert(0 <= (ax as int) * (s1 as int) <= 0x2000_0000_0000_0000int * 1_000_000
            && 0 <= (ay as int) * (s2 as int) <= 0x2000_0000_0000_0000int * 1_000_000)
            by (nonlinear_arith)
            requires
                0 <= ax as int <= 0x2000_0000_0000_0000int,
                0 <= ay as int <= 0x2000_0000_0000_0000int,
                0 <= s1 <= 1_000_000,
                0 <= s2 <= 1_000_000;
    }
    (ax as i128) * (s1 as i128) <= (ay as i128) * (s2 as i128)
}

/// The floor polar angle of a first-quadrant direction, by binary search on
/// `octant_pred`.
fn quad_angle(ax: i64, ay: i64) -> (r: i64)
    requires
        0 <= ax <= MAX_COORD,
        0 <= ay <= MAX_COORD,
    ensures
        is_quad_angle(ax as int, ay as int, r as int),
{
    proof {
        assert(octant_pred(ax as int, ay as int, 0)) by {
            lemma_sin_half_range(0);
            lemma_sin_half_range(900);
            assert((ax as int) * sin_half(0) == 0) by (nonlinear_arith)
                requires
                    sin_half(0) == 0;
            assert((ay as int) * sin_half(900) >= 0) by (nonlinear_arith)
                requires
                    ay >= 0,
                    sin_half(900) >= 0;
        }
    }
    if octant_pred_exec(ax, ay, 900) {
        return 900;
    }
    let mut lo: i64 = 0;
    let mut hi: i64 = 900;
    while lo + 1 < hi
        invariant
            0 <= ax <= MAX_COORD,
            0 <= ay <= MAX_COORD,
            0 <= lo < hi <= 900,
            octant_pred(ax as int, ay as int, lo as int),
            !octant_pred(ax as int, ay as int, hi as int),
        decreases hi - lo,
    {
        let mid: i64 = lo + (hi - lo) / 2;
        proof {
            assert(lo < mid < hi);
        }
        if octant_pred_exec(ax, ay, mid) {
            lo = mid;
        } else {
            hi = mid;
        }
    }
    lo
}

/// The polar angle of a vector, in tenths of a degree in `[0, 3600)`,
/// measured counterclockwise from the positive x axis. The zero vector has
/// angle zero by convention. Within each quadrant the result is
/// characterized by `is_quad_angle` on the reflected first-quadrant
/// direction.
pub fn get_angle(vec: &Vec2) -> (r: i64)
    requires
        -MAX_COORD <= vec.x <= MAX_COORD,
        -MAX_COORD <= vec.y <= MAX_COORD,
    ensures
        0 <= r < 3600,
        vec.x == 0 && vec.y == 0 ==> r == 0,
        vec.x >= 0 && vec.y >= 0 && !(vec.x == 0 && vec.y == 0) ==> is_quad_angle(
            vec.x as int,
            vec.y as int,
            r as int,
        ),
        vec.x < 0 && vec.y >= 0 ==> 900 <= r <= 1800 && is_quad_angle(
            -(vec.x as int),
            vec.y as int,
            1800 - r as int,
        ),
        vec.x < 0 && vec.y < 0 ==> 1800 <= r <= 2700 && is_quad_angle(
            -(vec.x as int),
            -(vec.y as int),
            (r as int) - 1800,
        ),
        vec.x >= 0 && vec.y < 0 ==> (r == 0 || 2700 <= r < 3600) && is_quad_angle(
            vec.x as int,
            -(vec.y as int),
            if r == 0 { 0 } else { 3600 - r as int },
        ),
{
    if vec.x == 0 && vec.y == 0 {
        return 0;
    }
    let ax: i64 = if vec.x < 0 { -vec.x } else { vec.x };
    let ay: i64 = if vec.y < 0 { -vec.y } else { vec.y };
    let q: i64 = quad_angle(ax, ay);
    if vec.x >= 0 && vec.y >= 0 {
        q
    } else if vec.x < 0 && vec.y >= 0 {
        1800 - q
    } else if vec.x < 0 && vec.y < 0 {
        1800 + q
    } else {
        if q == 0 { 0 } else { 3600 - q }
    }
}

} // verus!

verus! {

/// Whether `r` is the polar vector of some magnitude in
/// `[min_mag, max_mag)` and some angle in `[min_angle, max_angle)`.
pub open spec fn is_polar_sample(
    r: Vec2,
    min_mag: int,
    max_mag: int,
    min_angle: int,
    max_angle: int,
) -> bool {
    exists|m: int, a: int|
        #[trigger] components_spec(m, a) == r && min_mag <= m < max_mag && min_angle <= a
            < max_angle
}

/// A random vector with magnitude drawn uniformly from
/// `[min_mag, max_mag)` and angle (tenths of a degree) drawn uniformly from
/// `[min_angle, max_angle)`, converted to cartesian components. Whichever
/// values the generator returns, the result is the polar vector of some
/// magnitude and angle from those ranges, and each component stays within
/// `[-max_mag, max_mag]`.
pub fn rand_vector2(
    rand_thread: &mut rand::rngs::StdRng,
    min_mag: i64,
    max_mag: i64,
    min_angle: i64,
    max_angle: i64,
) -> (r: Vec2)
    requires
        0 <= min_mag < max_mag <= 1_000_000_000,
        0 <= min_angle < max_angle <= 3600,
    ensures
        is_polar_sample(r, min_mag as int, max_mag as int, min_angle as int, max_angle as int),
        -max_mag <= r.x <= max_mag,
        -max_mag <= r.y <= max_mag,
{
    let mag = crate::rng::rand_range(rand_thread, min_mag, max_mag);
    let angle = crate::rng::rand_range(rand_thread, min_angle, max_angle);
    let r = get_components(mag, angle);
    proof {
        assert(components_spec(mag as int, angle as int) == r);
    }
    r
}

} // verus!
