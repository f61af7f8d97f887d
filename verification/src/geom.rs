//! Fixed-point planar geometry: vectors in milliunits, truncating division
//! helpers, closest-approach on a segment, and the reflection formula.

use vstd::prelude::*;

verus! {

use vstd::arithmetic::div_mod::{
    lemma_div_pos_is_pos, lemma_div_nonincreasing, lemma_div_is_ordered,
    lemma_div_multiples_vanish_fancy, lemma_fundamental_div_mod,
    lemma_mod_division_less_than_divisor, lemma_div_multiples_vanish,
};

/// Milliunits per world unit: every position and vector component is an
/// `i64` count of thousandths of a world unit.
pub const MU_PER_UNIT: i64 = 1000;

/// All world coordinates handled by the engine stay within this many
/// milliunits of the origin; it bounds every intermediate product so that
/// 128-bit arithmetic never overflows.
pub const COORD_LIMIT: i64 = 0x100_0000_0000;

/// Magnitude of a mathematical integer.
pub open spec fn abs_i(a: int) -> int {
    if a < 0 {
        -a
    } else {
        a
    }
}

/// The quotient that Rust's signed `/` computes: it rounds toward zero,
/// while spec-level `/` is Euclidean. Defined from the Euclidean quotient
/// of the magnitudes, with the sign put back.
pub open spec fn div_trunc(a: int, b: int) -> int {
    if (a < 0) != (b < 0) {
        -(abs_i(a) / abs_i(b))
    } else {
        abs_i(a) / abs_i(b)
    }
}

/// A plane vector or point in milliunits.
#[derive(Clone, Copy, PartialEq, Eq, Structural, Debug)]
pub struct Vec2 {
    pub x: i64,
    pub y: i64,
}

impl Vec2 {
    /// Both components within `m` of zero.
    pub open spec fn bounded(self, m: int) -> bool {
        -m <= self.x <= m && -m <= self.y <= m
    }

    pub fn new(x: i64, y: i64) -> (v: Vec2)
        ensures
            v == (Vec2 { x, y }),
    {
        Vec2 { x, y }
    }

    pub fn zero() -> (v: Vec2)
        ensures
            v == (Vec2 { x: 0i64, y: 0i64 }),
    {
        Vec2 { x: 0, y: 0 }
    }

    /// Componentwise difference.
    pub fn minus(self, o: Vec2) -> (r: Vec2)
        requires
            self.bounded(0x2000_0000_0000_0000),
            o.bounded(0x2000_0000_0000_0000),
        ensures
            r.x == self.x - o.x,
            r.y == self.y - o.y,
    {
        Vec2 { x: self.x - o.x, y: self.y - o.y }
    }

    /// Componentwise sum.
    pub fn plus(self, o: Vec2) -> (r: Vec2)
        requires
            self.bounded(0x2000_0000_0000_0000),
            o.bounded(0x2000_0000_0000_0000),
        ensures
            r.x == self.x + o.x,
            r.y == self.y + o.y,
    {
        Vec2 { x: self.x + o.x, y: self.y + o.y }
    }
}

/// Dot product over the mathematical integers.
pub open spec fn dot(a: Vec2, b: Vec2) -> int {
    a.x * b.x + a.y * b.y
}

/// Squared magnitude.
pub open spec fn norm_sq(a: Vec2) -> int {
    dot(a, a)
}

/// The product of two magnitudes is bounded by the product of their bounds.
pub proof fn lemma_mul_abs_bound(a: int, b: int, ab: int, bb: int)
    by (nonlinear_arith)
    requires
        abs_i(a) <= ab,
        abs_i(b) <= bb,
    ensures
        abs_i(a * b) <= ab * bb,
{
}

/// Widening product of two machine coordinates.
pub fn mul_i64(a: i64, b: i64) -> (r: i128)
    ensures
        r == a as int * b as int,
{
    proof {
        lemma_mul_abs_bound(
            a as int,
            b as int,
            0x8000_0000_0000_0000,
            0x8000_0000_0000_0000,
        );
    }
    (a as i128) * (b as i128)
}

/// Widening dot product of two coordinate vectors.
pub fn dot_wide(a: Vec2, b: Vec2) -> (r: i128)
    requires
        a.bounded(0x4000_0000_0000_0000),
        b.bounded(0x4000_0000_0000_0000),
    ensures
        r == dot(a, b),
{
    let px = mul_i64(a.x, b.x);
    let py = mul_i64(a.y, b.y);
    proof {
        lemma_mul_abs_bound(a.x as int, b.x as int, 0x4000_0000_0000_0000, 0x4000_0000_0000_0000);
        lemma_mul_abs_bound(a.y as int, b.y as int, 0x4000_0000_0000_0000, 0x4000_0000_0000_0000);
    }
    px + py
}

/// Truncating division on wide intermediates; the quotient never exceeds
/// the dividend in magnitude.
pub fn div_trunc_i128(a: i128, b: i128) -> (q: i128)
    requires
        b != 0,
        -0x4000_0000_0000_0000_0000_0000_0000_0000 <= a <= 0x4000_0000_0000_0000_0000_0000_0000_0000,
        -0x4000_0000_0000_0000_0000_0000_0000_0000 <= b <= 0x4000_0000_0000_0000_0000_0000_0000_0000,
    ensures
        q == div_trunc(a as int, b as int),
        abs_i(q as int) <= abs_i(a as int),
{
    let aa: u128 = if a < 0 {
        (-a) as u128
    } else {
        a as u128
    };
    let bb: u128 = if b < 0 {
        (-b) as u128
    } else {
        b as u128
    };
    let q0: u128 = aa / bb;
    proof {
        lemma_div_pos_is_pos(aa as int, bb as int);
        lemma_div_nonincreasing(aa as int, bb as int);
    }
    let qi: i128 = q0 as i128;
    if (a < 0) != (b < 0) {
        -qi
    } else {
        qi
    }
}

/// Euclidean (floor) quotient by a positive divisor, matching spec-level `/`.
pub fn floor_div_i64(a: i64, d: i64) -> (q: i64)
    requires
        0 < d,
        -0x1000_0000_0000_0000 <= a <= 0x1000_0000_0000_0000,
    ensures
        q == a as int / d as int,
{
    if a >= 0 {
        let q0: u64 = (a as u64) / (d as u64);
        q0 as i64
    } else {
        let na: u128 = (-(a as i128)) as u128;
        let du: u128 = d as u128;
        let q0: u128 = (na + du - 1) / du;
        proof {
            lemma_div_pos_is_pos((na + du - 1) as int, du as int);
            assert(na * du >= na + du - 1) by (nonlinear_arith)
                requires na >= 1 && du >= 1;
            lemma_div_is_ordered((na + du - 1) as int, (na * du) as int, du as int);
            lemma_div_multiples_vanish(na as int, du as int);
            assert(na * du == du * na) by (nonlinear_arith);
            lemma_floor_div_negative(a as int, d as int);
        }
        (-(q0 as i128)) as i64
    }
}

/// For a negative dividend and positive divisor, the floor quotient is the
/// negated rounded-up quotient of the magnitudes.
proof fn lemma_floor_div_negative(a: int, d: int)
    requires
        a < 0,
        0 < d,
    ensures
        (-a + d - 1) / d == -(a / d),
{
    let q = a / d;
    let r = a % d;
    lemma_fundamental_div_mod(a, d);
    lemma_mod_division_less_than_divisor(a, d);
    assert(a == d * q + r);
    if r == 0 {
        assert(-a + d - 1 == d * (-q) + (d - 1)) by {
            assert(d * (-q) == -(d * q)) by (nonlinear_arith);
        }
        lemma_div_multiples_vanish_fancy(-q, d - 1, d);
    } else {
        assert(-a + d - 1 == d * (-q) + (d - r - 1)) by {
            assert(d * (-q) == -(d * q)) by (nonlinear_arith);
        }
        lemma_div_multiples_vanish_fancy(-q, d - r - 1, d);
    }
}

/// Scaling by a positive factor keeps sign and scales magnitude.
pub proof fn lemma_abs_scale(k: int, v: int)
    requires
        k >= 1,
    ensures
        abs_i(k * v) == k * abs_i(v),
        (k * v > 0) == (v > 0),
        (k * v < 0) == (v < 0),
        (k * v == 0) == (v == 0),
        abs_i(v) <= abs_i(k * v),
{
    if v > 0 {
        assert(k * v >= v) by (nonlinear_arith)
            requires
                k >= 1,
                v > 0;
    } else if v < 0 {
        assert(k * v <= v) by (nonlinear_arith)
            requires
                k >= 1,
                v < 0;
        assert(k * (-v) == -(k * v)) by (nonlinear_arith);
    } else {
        assert(k * 0 == 0) by (nonlinear_arith);
    }
}

/// Multiplying both sides by a positive factor preserves `<=` exactly.
pub proof fn lemma_scale_le(k: int, a: int, b: int)
    by (nonlinear_arith)
    requires
        k >= 1,
    ensures
        (k * a <= k * b) == (a <= b),
{
}

/// Scaling numerator and denominator by the same positive factor leaves a
/// truncating quotient unchanged.
pub proof fn lemma_div_trunc_scale(a: int, b: int, k: int)
    requires
        b != 0,
        k >= 1,
    ensures
        div_trunc(k * a, k * b) == div_trunc(a, b),
{
    lemma_abs_scale(k, a);
    lemma_abs_scale(k, b);
    let aa = abs_i(a);
    let bb = abs_i(b);
    let q = aa / bb;
    let r = aa % bb;
    lemma_fundamental_div_mod(aa, bb);
    lemma_mod_division_less_than_divisor(aa, bb);
    assert(k * aa == q * (k * bb) + k * r) by (nonlinear_arith)
        requires
            aa == bb * q + r;
    assert(0 <= k * r < k * bb) by (nonlinear_arith)
        requires
            k >= 1,
            0 <= r < bb;
    vstd::arithmetic::div_mod::lemma_fundamental_div_mod_converse(k * aa, k * bb, q, k * r);
}

/// Integer square root: the greatest `r` with `r * r <= n`.
pub fn isqrt(n: u64) -> (r: u64)
    ensures
        r * r <= n < (r + 1) * (r + 1),
{
    let mut lo: u64 = 0;
    let mut hi: u64 = 0x1_0000_0000;
    while lo + 1 < hi
        invariant
            lo < hi <= 0x1_0000_0000,
            lo * lo <= n,
            n < hi * hi,
        decreases hi - lo,
    {
        let mid: u64 = lo + (hi - lo) / 2;
        proof {
            lemma_mul_abs_bound(mid as int, mid as int, 0x1_0000_0000, 0x1_0000_0000);
        }
        if (mid as u128) * (mid as u128) <= n as u128 {
            lo = mid;
        } else {
            hi = mid;
        }
    }
    lo
}

/// A truncating quotient by a positive divisor is bounded by any `m` with
/// `|a| <= m * b`.
pub proof fn lemma_div_trunc_bound(a: int, b: int, m: int)
    requires
        b > 0,
        0 <= m,
        abs_i(a) <= m * b,
    ensures
        abs_i(div_trunc(a, b)) <= m,
{
    lemma_div_pos_is_pos(abs_i(a), b);
    lemma_div_is_ordered(abs_i(a), m * b, b);
    assert(m * b == b * m) by (nonlinear_arith);
    lemma_div_multiples_vanish(m, b);
}

/// With a clamp factor `0 <= t <= b`, the truncated scaled value
/// `div_trunc(a * t, b)` stays between `0` and `a`.
pub proof fn lemma_div_trunc_between(a: int, t: int, b: int)
    requires
        b > 0,
        0 <= t <= b,
    ensures
        a >= 0 ==> 0 <= div_trunc(a * t, b) <= a,
        a < 0 ==> a <= div_trunc(a * t, b) <= 0,
{
    lemma_mul_abs_bound(a, t, abs_i(a), b);
    lemma_div_trunc_bound(a * t, b, abs_i(a));
    if a >= 0 {
        assert(a * t >= 0) by (nonlinear_arith)
            requires
                a >= 0,
                t >= 0;
        lemma_div_pos_is_pos(abs_i(a * t), b);
    } else {
        assert(a * t <= 0) by (nonlinear_arith)
            requires
                a < 0,
                t >= 0;
        lemma_div_pos_is_pos(abs_i(a * t), b);
    }
}

/// As `lemma_div_trunc_between`, but for a divisor of either sign, with
/// the scale factor `t` running from `0` to `b`.
pub proof fn lemma_hit_between(a: int, t: int, b: int)
    requires
        b != 0,
        b > 0 ==> 0 <= t <= b,
        b < 0 ==> b <= t <= 0,
    ensures
        a >= 0 ==> 0 <= div_trunc(a * t, b) <= a,
        a < 0 ==> a <= div_trunc(a * t, b) <= 0,
{
    if b > 0 {
        lemma_div_trunc_between(a, t, b);
    } else {
        assert(a * t == -(a * (-t))) by (nonlinear_arith);
        lemma_div_trunc_between(a, -t, -b);
    }
}

/// The numerator of the reflection formula is small against `n·n`: with
/// `|v|` components bounded by `l`, `|2 (v·n) n_x| <= 3 l (n·n)`.
#[verifier::rlimit(60)]
pub proof fn lemma_reflect_num_bound(vx: int, vy: int, nx: int, ny: int, l: int)
    by (nonlinear_arith)
    requires
        abs_i(vx) <= l,
        abs_i(vy) <= l,
        0 <= l,
    ensures
        abs_i(2 * (vx * nx + vy * ny) * nx) <= 3 * (l * (nx * nx + ny * ny)),
{
}

/// Energy preservation of the exact reflection: with the reflection formula
/// scaled by `n·n` to clear its division, the reflected vector's squared
/// magnitude is exactly `(n·n)^2` times the input's. This is the identity
/// behind the elastic bounce: the truncating executable reflection differs
/// from it only by the final rounding.
pub proof fn lemma_reflection_energy(vx: int, vy: int, nx: int, ny: int)
    ensures
        ((nx * nx + ny * ny) * vx - 2 * (vx * nx + vy * ny) * nx)
            * ((nx * nx + ny * ny) * vx - 2 * (vx * nx + vy * ny) * nx)
        + ((nx * nx + ny * ny) * vy - 2 * (vx * nx + vy * ny) * ny)
            * ((nx * nx + ny * ny) * vy - 2 * (vx * nx + vy * ny) * ny)
        == (nx * nx + ny * ny) * (nx * nx + ny * ny) * (vx * vx + vy * vy),
{
    let nn = nx * nx + ny * ny;
    let d = vx * nx + vy * ny;
    let dd = d * d;
    let ax = nn * vx;
    let bx = 2 * d * nx;
    let ay = nn * vy;
    let cy = 2 * d * ny;
    assert((ax - bx) * (ax - bx) == ax * ax - 2 * (ax * bx) + bx * bx) by (nonlinear_arith);
    assert((ay - cy) * (ay - cy) == ay * ay - 2 * (ay * cy) + cy * cy) by (nonlinear_arith);
    assert(ax * ax + ay * ay == nn * nn * (vx * vx + vy * vy)) by (nonlinear_arith)
        requires
            ax == nn * vx,
            ay == nn * vy;
    assert(ax * bx == 2 * (nn * (d * (vx * nx)))) by (nonlinear_arith)
        requires
            ax == nn * vx,
            bx == 2 * d * nx;
    assert(ay * cy == 2 * (nn * (d * (vy * ny)))) by (nonlinear_arith)
        requires
            ay == nn * vy,
            cy == 2 * d * ny;
    assert(2 * (nn * (d * (vx * nx))) + 2 * (nn * (d * (vy * ny))) == 2 * (nn * dd))
        by (nonlinear_arith)
        requires
            d == vx * nx + vy * ny,
            dd == d * d;
    assert(bx * bx + cy * cy == 4 * (nn * dd)) by (nonlinear_arith)
        requires
            bx == 2 * d * nx,
            cy == 2 * d * ny,
            dd == d * d,
            nn == nx * nx + ny * ny;
}

/// What the elastic bounce computes: `v - 2 (v·n / n·n) n` with truncating
/// division, or `v` unchanged when the normal is degenerate.
pub open spec fn reflect_spec(v: Vec2, n: Vec2) -> (int, int) {
    if norm_sq(n) == 0 {
        (v.x as int, v.y as int)
    } else {
        (
            v.x - div_trunc(2 * dot(v, n) * n.x, norm_sq(n)),
            v.y - div_trunc(2 * dot(v, n) * n.y, norm_sq(n)),
        )
    }
}

/// Mirror `v` about the (not necessarily unit-length) normal `n`. A
/// degenerate zero normal leaves the vector unchanged rather than dividing
/// by zero.
pub fn reflect(v: Vec2, n: Vec2) -> (r: Vec2)
    requires
        v.bounded(COORD_LIMIT as int),
        n.bounded(COORD_LIMIT as int),
    ensures
        r.x == reflect_spec(v, n).0,
        r.y == reflect_spec(v, n).1,
        r.bounded(4 * COORD_LIMIT as int),
{
    let nn = dot_wide(n, n);
    if nn == 0 {
        v
    } else {
        proof {
            lemma_norm_sq_nonneg(n);
            lemma_mul_abs_bound(n.x as int, n.x as int, COORD_LIMIT as int, COORD_LIMIT as int);
            lemma_mul_abs_bound(n.y as int, n.y as int, COORD_LIMIT as int, COORD_LIMIT as int);
            lemma_mul_abs_bound(v.x as int, n.x as int, COORD_LIMIT as int, COORD_LIMIT as int);
            lemma_mul_abs_bound(v.y as int, n.y as int, COORD_LIMIT as int, COORD_LIMIT as int);
            lemma_mul_abs_bound(
                2 * dot(v, n),
                n.x as int,
                0x8_0000_0000_0000_0000_0000,
                COORD_LIMIT as int,
            );
            lemma_mul_abs_bound(
                2 * dot(v, n),
                n.y as int,
                0x8_0000_0000_0000_0000_0000,
                COORD_LIMIT as int,
            );
            lemma_reflect_num_bound(v.x as int, v.y as int, n.x as int, n.y as int, COORD_LIMIT as int);
            lemma_reflect_num_bound(v.y as int, v.x as int, n.y as int, n.x as int, COORD_LIMIT as int);
            lemma_div_trunc_bound(2 * dot(v, n) * n.x, norm_sq(n), 3 * COORD_LIMIT as int);
            lemma_div_trunc_bound(2 * dot(v, n) * n.y, norm_sq(n), 3 * COORD_LIMIT as int);
        }
        let d2: i128 = 2 * dot_wide(v, n);
        let qx = div_trunc_i128(d2 * (n.x as i128), nn);
        let qy = div_trunc_i128(d2 * (n.y as i128), nn);
        Vec2 { x: v.x - qx as i64, y: v.y - qy as i64 }
    }
}

/// The point of the segment `[s, s + d]` nearest to `c`: the orthogonal
/// projection of `c` onto the carrying line, clamped to the segment, with
/// the projection parameter evaluated in truncating fixed point.
pub open spec fn closest_point_spec(s: Vec2, d: Vec2, c: Vec2) -> (int, int) {
    let den = norm_sq(d);
    if den == 0 {
        (s.x as int, s.y as int)
    } else {
        let num = (c.x - s.x) * d.x + (c.y - s.y) * d.y;
        let t = if num < 0 {
            0
        } else if num > den {
            den
        } else {
            num
        };
        (s.x + div_trunc(d.x * t, den), s.y + div_trunc(d.y * t, den))
    }
}

/// Closest point of a travel segment to a circle's centre, used to detect a
/// moving projectile grazing a character even when neither endpoint of this
/// tick's travel is inside the collision radius. The result always lies on
/// the segment (componentwise between its endpoints).
pub fn closest_point_of_line_to_circle(start: Vec2, delta: Vec2, center: Vec2) -> (p: Vec2)
    requires
        start.bounded(COORD_LIMIT as int),
        delta.bounded(COORD_LIMIT as int),
        center.bounded(COORD_LIMIT as int),
    ensures
        p.x == closest_point_spec(start, delta, center).0,
        p.y == closest_point_spec(start, delta, center).1,
        delta.x >= 0 ==> start.x <= p.x <= start.x + delta.x,
        delta.x < 0 ==> start.x + delta.x <= p.x <= start.x,
        delta.y >= 0 ==> start.y <= p.y <= start.y + delta.y,
        delta.y < 0 ==> start.y + delta.y <= p.y <= start.y,
{
    let den = dot_wide(delta, delta);
    if den == 0 {
        proof {
            lemma_norm_sq_zero(delta);
        }
        start
    } else {
        let to_cx = center.x - start.x;
        let to_cy = center.y - start.y;
        proof {
            lemma_norm_sq_nonneg(delta);
            lemma_mul_abs_bound(to_cx as int, delta.x as int, 2 * COORD_LIMIT as int, COORD_LIMIT as int);
            lemma_mul_abs_bound(to_cy as int, delta.y as int, 2 * COORD_LIMIT as int, COORD_LIMIT as int);
            lemma_mul_abs_bound(delta.x as int, delta.x as int, COORD_LIMIT as int, COORD_LIMIT as int);
            lemma_mul_abs_bound(delta.y as int, delta.y as int, COORD_LIMIT as int, COORD_LIMIT as int);
        }
        let num = mul_i64(to_cx, delta.x) + mul_i64(to_cy, delta.y);
        let t: i128 = if num < 0 {
            0
        } else if num > den {
            den
        } else {
            num
        };
        proof {
            lemma_mul_abs_bound(
                delta.x as int,
                t as int,
                COORD_LIMIT as int,
                0x4_0000_0000_0000_0000_0000,
            );
            lemma_mul_abs_bound(
                delta.y as int,
                t as int,
                COORD_LIMIT as int,
                0x4_0000_0000_0000_0000_0000,
            );
            lemma_div_trunc_between(delta.x as int, t as int, norm_sq(delta));
            lemma_div_trunc_between(delta.y as int, t as int, norm_sq(delta));
        }
        let qx = div_trunc_i128((delta.x as i128) * t, den);
        let qy = div_trunc_i128((delta.y as i128) * t, den);
        Vec2 { x: start.x + qx as i64, y: start.y + qy as i64 }
    }
}

/// A vector whose squared magnitude vanishes is the zero vector.
pub proof fn lemma_norm_sq_zero(a: Vec2)
    ensures
        norm_sq(a) == 0 <==> a.x == 0 && a.y == 0,
{
    assert(a.x * a.x + a.y * a.y == 0 <==> a.x == 0 && a.y == 0) by (nonlinear_arith);
}

/// A squared magnitude is never negative.
pub proof fn lemma_norm_sq_nonneg(a: Vec2)
    ensures
        norm_sq(a) >= 0,
{
    assert(a.x * a.x + a.y * a.y >= 0) by (nonlinear_arith);
}

} // verus!
