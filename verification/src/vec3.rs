//! 3D vectors over fixed-point scalars.
//!
//! [`Vec3`] serves as a point, a direction and a color, exactly as wide as
//! three [`Fx`] scalars. Every operation is specified against the
//! integer-level functions on [`V3`], the ghost image of a vector's raw
//! bit counts. The laws at the end of the module state the algebra the
//! operations approximate: orthogonality of the cross product and
//! involutivity of reflection, in exact integer arithmetic.

use vstd::prelude::*;
use crate::fixed::{
    fx_div, fx_mul, fx_of, fx_sqrt, iabs, lemma_i64_product_in_i128, mul_scaled_i128, sat64,
    sat_to_i64, tdiv, Fx, FX_SCALE,
};
use crate::rng::rand_in_range;

verus! {

/// The smallest quantized squared length the unit-sphere sampler accepts:
/// one quarter, so every accepted sample is at least half a unit long and
/// its normalization lands near unit length.
pub const UNIT_SAMPLE_MIN_SQ_BITS: i64 = 16384;

/// The integer image of a vector: the raw fixed-point counts of its
/// components.
pub ghost struct V3 {
    pub x: int,
    pub y: int,
    pub z: int,
}

/// The zero vector.
pub open spec fn v3_zero() -> V3 {
    V3 { x: 0, y: 0, z: 0 }
}

/// Componentwise saturating sum.
pub open spec fn v3_add(a: V3, b: V3) -> V3 {
    V3 { x: sat64(a.x + b.x), y: sat64(a.y + b.y), z: sat64(a.z + b.z) }
}

/// Componentwise saturating difference.
pub open spec fn v3_sub(a: V3, b: V3) -> V3 {
    V3 { x: sat64(a.x - b.x), y: sat64(a.y - b.y), z: sat64(a.z - b.z) }
}

/// Componentwise saturating negation.
pub open spec fn v3_neg(a: V3) -> V3 {
    V3 { x: sat64(-a.x), y: sat64(-a.y), z: sat64(-a.z) }
}

/// Componentwise fixed-point product.
pub open spec fn v3_mul(a: V3, b: V3) -> V3 {
    V3 { x: fx_mul(a.x, b.x), y: fx_mul(a.y, b.y), z: fx_mul(a.z, b.z) }
}

/// Fixed-point scaling by a scalar.
pub open spec fn v3_scale(a: V3, k: int) -> V3 {
    V3 { x: fx_mul(a.x, k), y: fx_mul(a.y, k), z: fx_mul(a.z, k) }
}

/// Fixed-point division by a scalar.
pub open spec fn v3_div(a: V3, k: int) -> V3 {
    V3 { x: fx_div(a.x, k), y: fx_div(a.y, k), z: fx_div(a.z, k) }
}

/// The fixed-point dot product: each double-width component product is
/// scaled back before the three terms are summed and saturated.
pub open spec fn dot3(a: V3, b: V3) -> int {
    sat64(
        tdiv(a.x * b.x, FX_SCALE as int) + tdiv(a.y * b.y, FX_SCALE as int)
            + tdiv(a.z * b.z, FX_SCALE as int),
    )
}

/// The fixed-point cross product.
pub open spec fn cross3(a: V3, b: V3) -> V3 {
    V3 {
        x: sat64(tdiv(a.y * b.z, FX_SCALE as int) - tdiv(a.z * b.y, FX_SCALE as int)),
        y: sat64(tdiv(a.z * b.x, FX_SCALE as int) - tdiv(a.x * b.z, FX_SCALE as int)),
        z: sat64(tdiv(a.x * b.y, FX_SCALE as int) - tdiv(a.y * b.x, FX_SCALE as int)),
    }
}

/// The squared length of a vector.
pub open spec fn norm_sq3(a: V3) -> int {
    dot3(a, a)
}

/// The length of a vector.
pub open spec fn len3(a: V3) -> int {
    fx_sqrt(norm_sq3(a))
}

/// A vector divided by its own length; garbage (saturated components) on
/// the zero vector, whose length is zero.
pub open spec fn normalize3(a: V3) -> V3 {
    v3_div(a, len3(a))
}

/// Reflection about a normal: `v - n * dot(v, n) * 2`, in fixed point.
pub open spec fn reflect3(v: V3, n: V3) -> V3 {
    v3_sub(v, v3_scale(v3_scale(n, dot3(v, n)), 2 * (FX_SCALE as int)))
}

/// Snell refraction of the unit incident vector `uv` at a surface with
/// unit normal `n`, for the given ratio of refraction indices.
pub open spec fn refract3(uv: V3, n: V3, eta: int) -> V3 {
    let cos_theta = {
        let d = dot3(v3_neg(uv), n);
        if d <= FX_SCALE as int {
            d
        } else {
            FX_SCALE as int
        }
    };
    let r_out_perp = v3_scale(v3_add(uv, v3_scale(n, cos_theta)), eta);
    let r_out_parallel = v3_scale(v3_neg(n), fx_sqrt(sat64(FX_SCALE - norm_sq3(r_out_perp))));
    v3_add(r_out_perp, r_out_parallel)
}

/// All three components inside the half-open box `[lo, hi)`.
pub open spec fn v3_in_range(a: V3, lo: int, hi: int) -> bool {
    lo <= a.x < hi && lo <= a.y < hi && lo <= a.z < hi
}

/// The exact (unscaled, unsaturated) dot product.
pub open spec fn dote(a: V3, b: V3) -> int {
    a.x * b.x + a.y * b.y + a.z * b.z
}

/// The exact (unscaled, unsaturated) cross product.
pub open spec fn crosse(a: V3, b: V3) -> V3 {
    V3 { x: a.y * b.z - a.z * b.y, y: a.z * b.x - a.x * b.z, z: a.x * b.y - a.y * b.x }
}

/// The exact scaling of a vector by an integer.
pub open spec fn scalee(a: V3, k: int) -> V3 {
    V3 { x: k * a.x, y: k * a.y, z: k * a.z }
}

/// The exact difference of two vectors.
pub open spec fn sube(a: V3, b: V3) -> V3 {
    V3 { x: a.x - b.x, y: a.y - b.y, z: a.z - b.z }
}

/// Reflection about a not-necessarily-unit normal in exact arithmetic,
/// scaled through by `dot(n, n)` to stay division-free:
/// `dot(n, n) * v - 2 * dot(v, n) * n`.
pub open spec fn reflecte(v: V3, n: V3) -> V3 {
    sube(scalee(v, dote(n, n)), scalee(n, 2 * dote(v, n)))
}

/// Law: the cross product is orthogonal to both of its arguments. This is
/// the exact-arithmetic identity that the fixed-point `cross` and `dot`
/// approximate: `dot(a, cross(a, b)) == 0` and `dot(b, cross(a, b)) == 0`.
pub proof fn lemma_cross_orthogonal(a: V3, b: V3)
    ensures
        dote(a, crosse(a, b)) == 0,
        dote(b, crosse(a, b)) == 0,
{
    let ax = a.x;
    let ay = a.y;
    let az = a.z;
    let bx = b.x;
    let by = b.y;
    let bz = b.z;
    assert(ax * (ay * bz - az * by) + ay * (az * bx - ax * bz) + az * (ax * by - ay * bx)
        == 0) by (nonlinear_arith);
    assert(bx * (ay * bz - az * by) + by * (az * bx - ax * bz) + bz * (ax * by - ay * bx)
        == 0) by (nonlinear_arith);
}

/// One cross-product component of the fixed-point `cross`: clamp-free,
/// and within two units of the exact cross component scaled down.
proof fn lemma_cross_component(p1: int, p2: int)
    requires
        iabs(p1) <= 0x1000_0000_0000_0000,
        iabs(p2) <= 0x1000_0000_0000_0000,
    ensures
        sat64(tdiv(p1, FX_SCALE as int) - tdiv(p2, FX_SCALE as int)) == tdiv(
            p1,
            FX_SCALE as int,
        ) - tdiv(p2, FX_SCALE as int),
        iabs(tdiv(p1, FX_SCALE as int) - tdiv(p2, FX_SCALE as int)) <= 0x2000_0000_0000,
        iabs((p1 - p2) - (FX_SCALE as int) * (tdiv(p1, FX_SCALE as int) - tdiv(
            p2,
            FX_SCALE as int,
        ))) < 2 * (FX_SCALE as int),
{
    let s = FX_SCALE as int;
    let t1 = tdiv(p1, s);
    let t2 = tdiv(p2, s);
    crate::fixed::lemma_tdiv_mag(p1, s);
    crate::fixed::lemma_tdiv_mag(p2, s);
    vstd::arithmetic::div_mod::lemma_div_is_ordered(iabs(p1), 0x1000_0000_0000_0000, s);
    vstd::arithmetic::div_mod::lemma_div_is_ordered(iabs(p2), 0x1000_0000_0000_0000, s);
    crate::fixed::lemma_tdiv_error(p1, s);
    crate::fixed::lemma_tdiv_error(p2, s);
    assert(s * (t1 - t2) == s * t1 - s * t2) by (nonlinear_arith);
}

/// A vector exactly orthogonal to the exact cross components is nearly
/// orthogonal to their fixed-point image: the scaled measured dot product
/// stays within twice the sum of the vector's component magnitudes plus
/// three units.
proof fn lemma_dot_against_cross(v: V3, c: V3, ex1: int, ex2: int, ex3: int)
    requires
        iabs(v.x) <= 0x4000_0000,
        iabs(v.y) <= 0x4000_0000,
        iabs(v.z) <= 0x4000_0000,
        iabs(c.x) <= 0x2000_0000_0000,
        iabs(c.y) <= 0x2000_0000_0000,
        iabs(c.z) <= 0x2000_0000_0000,
        iabs(ex1 - (FX_SCALE as int) * c.x) < 2 * (FX_SCALE as int),
        iabs(ex2 - (FX_SCALE as int) * c.y) < 2 * (FX_SCALE as int),
        iabs(ex3 - (FX_SCALE as int) * c.z) < 2 * (FX_SCALE as int),
        v.x * ex1 + v.y * ex2 + v.z * ex3 == 0,
    ensures
        iabs(dot3(v, c)) * (FX_SCALE as int) <= 2 * (iabs(v.x) + iabs(v.y) + iabs(v.z)) + 3 * (
        FX_SCALE as int),
{
    let s = FX_SCALE as int;
    let dx = ex1 - s * c.x;
    let dy = ex2 - s * c.y;
    let dz = ex3 - s * c.z;
    crate::fixed::lemma_iabs_mul_bound(v.x, c.x, 0x4000_0000, 0x2000_0000_0000);
    crate::fixed::lemma_iabs_mul_bound(v.y, c.y, 0x4000_0000, 0x2000_0000_0000);
    crate::fixed::lemma_iabs_mul_bound(v.z, c.z, 0x4000_0000, 0x2000_0000_0000);
    let u1 = tdiv(v.x * c.x, s);
    let u2 = tdiv(v.y * c.y, s);
    let u3 = tdiv(v.z * c.z, s);
    crate::fixed::lemma_tdiv_mag(v.x * c.x, s);
    crate::fixed::lemma_tdiv_mag(v.y * c.y, s);
    crate::fixed::lemma_tdiv_mag(v.z * c.z, s);
    vstd::arithmetic::div_mod::lemma_div_is_ordered(iabs(v.x * c.x), 0x8000_0000_0000_0000_0000, s);
    vstd::arithmetic::div_mod::lemma_div_is_ordered(iabs(v.y * c.y), 0x8000_0000_0000_0000_0000, s);
    vstd::arithmetic::div_mod::lemma_div_is_ordered(iabs(v.z * c.z), 0x8000_0000_0000_0000_0000, s);
    crate::fixed::lemma_tdiv_error(v.x * c.x, s);
    crate::fixed::lemma_tdiv_error(v.y * c.y, s);
    crate::fixed::lemma_tdiv_error(v.z * c.z, s);
    let d = u1 + u2 + u3;
    assert(dot3(v, c) == d);
    let rho = (v.x * c.x - s * u1) + (v.y * c.y - s * u2) + (v.z * c.z - s * u3);
    assert(iabs(rho) < 3 * s);

    // Scale the sum back up and substitute the exact cross components.
    assert(s * (v.x * c.x) == v.x * ex1 - v.x * dx) by (nonlinear_arith)
        requires
            s * c.x == ex1 - dx,
    ;
    assert(s * (v.y * c.y) == v.y * ex2 - v.y * dy) by (nonlinear_arith)
        requires
            s * c.y == ex2 - dy,
    ;
    assert(s * (v.z * c.z) == v.z * ex3 - v.z * dz) by (nonlinear_arith)
        requires
            s * c.z == ex3 - dz,
    ;
    assert(s * (v.x * c.x) + s * (v.y * c.y) + s * (v.z * c.z) == -(v.x * dx + v.y * dy + v.z
        * dz));
    crate::fixed::lemma_iabs_mul_bound(v.x, dx, iabs(v.x), 2 * s);
    crate::fixed::lemma_iabs_mul_bound(v.y, dy, iabs(v.y), 2 * s);
    crate::fixed::lemma_iabs_mul_bound(v.z, dz, iabs(v.z), 2 * s);
    let aa = iabs(v.x) + iabs(v.y) + iabs(v.z);

    // s * s * d == s * (v.x c.x + ...) - s * rho, bounded by 2 s A + 3 s^2.
    assert(s * (s * d) == s * (v.x * c.x) + s * (v.y * c.y) + s * (v.z * c.z) - s * rho)
        by (nonlinear_arith)
        requires
            s * d == (v.x * c.x + v.y * c.y + v.z * c.z) - rho,
    ;
    crate::fixed::lemma_iabs_mul_bound(s, rho, s, 3 * s);
    assert(iabs(s * (s * d)) <= 2 * s * aa + 3 * (s * s)) by (nonlinear_arith)
        requires
            s * (s * d) == -(v.x * dx + v.y * dy + v.z * dz) - s * rho,
            iabs(v.x * dx) <= iabs(v.x) * (2 * s),
            iabs(v.y * dy) <= iabs(v.y) * (2 * s),
            iabs(v.z * dz) <= iabs(v.z) * (2 * s),
            iabs(s * rho) <= s * (3 * s),
            aa == iabs(v.x) + iabs(v.y) + iabs(v.z),
            s == 65536,
            iabs(v.x) == if v.x < 0 { -v.x } else { v.x },
            iabs(v.y) == if v.y < 0 { -v.y } else { v.y },
            iabs(v.z) == if v.z < 0 { -v.z } else { v.z },
            iabs(v.x * dx) == if v.x * dx < 0 { -(v.x * dx) } else { v.x * dx },
            iabs(v.y * dy) == if v.y * dy < 0 { -(v.y * dy) } else { v.y * dy },
            iabs(v.z * dz) == if v.z * dz < 0 { -(v.z * dz) } else { v.z * dz },
            iabs(s * (s * d)) == if s * (s * d) < 0 {
                -(s * (s * d))
            } else {
                s * (s * d)
            },
    ;
    assert(iabs(d) * s <= 2 * aa + 3 * s) by (nonlinear_arith)
        requires
            iabs(s * (s * d)) <= 2 * s * aa + 3 * (s * s),
            s == 65536,
            aa >= 0,
            iabs(d) == if d < 0 { -d } else { d },
            iabs(s * (s * d)) == if s * (s * d) < 0 {
                -(s * (s * d))
            } else {
                s * (s * d)
            },
    ;
}

/// Law: the fixed-point cross product is orthogonal to both of its inputs
/// within an explicit truncation tolerance: the magnitude of the measured
/// dot product of either input with the cross product, scaled back up by
/// one unit, stays below twice the sum of that input's component
/// magnitudes plus three units. For vectors of around unit length that
/// keeps the measured dot products within a few dozen counts of zero.
pub proof fn lemma_cross_orthogonal_fx(a: V3, b: V3)
    requires
        iabs(a.x) <= 0x4000_0000,
        iabs(a.y) <= 0x4000_0000,
        iabs(a.z) <= 0x4000_0000,
        iabs(b.x) <= 0x4000_0000,
        iabs(b.y) <= 0x4000_0000,
        iabs(b.z) <= 0x4000_0000,
    ensures
        iabs(dot3(a, cross3(a, b))) * (FX_SCALE as int) <= 2 * (iabs(a.x) + iabs(a.y) + iabs(
            a.z,
        )) + 3 * (FX_SCALE as int),
        iabs(dot3(b, cross3(a, b))) * (FX_SCALE as int) <= 2 * (iabs(b.x) + iabs(b.y) + iabs(
            b.z,
        )) + 3 * (FX_SCALE as int),
{
    let s = FX_SCALE as int;
    crate::fixed::lemma_iabs_mul_bound(a.y, b.z, 0x4000_0000, 0x4000_0000);
    crate::fixed::lemma_iabs_mul_bound(a.z, b.y, 0x4000_0000, 0x4000_0000);
    crate::fixed::lemma_iabs_mul_bound(a.z, b.x, 0x4000_0000, 0x4000_0000);
    crate::fixed::lemma_iabs_mul_bound(a.x, b.z, 0x4000_0000, 0x4000_0000);
    crate::fixed::lemma_iabs_mul_bound(a.x, b.y, 0x4000_0000, 0x4000_0000);
    crate::fixed::lemma_iabs_mul_bound(a.y, b.x, 0x4000_0000, 0x4000_0000);
    lemma_cross_component(a.y * b.z, a.z * b.y);
    lemma_cross_component(a.z * b.x, a.x * b.z);
    lemma_cross_component(a.x * b.y, a.y * b.x);
    let c = cross3(a, b);
    let ex1 = a.y * b.z - a.z * b.y;
    let ex2 = a.z * b.x - a.x * b.z;
    let ex3 = a.x * b.y - a.y * b.x;
    assert(c.x == tdiv(a.y * b.z, s) - tdiv(a.z * b.y, s) && c.y == tdiv(a.z * b.x, s) - tdiv(
        a.x * b.z,
        s,
    ) && c.z == tdiv(a.x * b.y, s) - tdiv(a.y * b.x, s));
    lemma_cross_orthogonal(a, b);
    assert(a.x * ex1 + a.y * ex2 + a.z * ex3 == 0);
    assert(b.x * ex1 + b.y * ex2 + b.z * ex3 == 0);
    lemma_dot_against_cross(a, c, ex1, ex2, ex3);
    lemma_dot_against_cross(b, c, ex1, ex2, ex3);
}

/// The exact Lagrange identity: the squared length of the cross product
/// is the product of the squared lengths minus the squared dot product.
pub proof fn lemma_lagrange(a: V3, b: V3)
    ensures
        dote(crosse(a, b), crosse(a, b)) == dote(a, a) * dote(b, b) - dote(a, b) * dote(a, b),
{
    let ax = a.x;
    let ay = a.y;
    let az = a.z;
    let bx = b.x;
    let by = b.y;
    let bz = b.z;
    let m1 = ax * bx;
    let m2 = ay * by;
    let m3 = az * bz;
    let sa1 = ax * ax;
    let sa2 = ay * ay;
    let sa3 = az * az;
    let sb1 = bx * bx;
    let sb2 = by * by;
    let sb3 = bz * bz;
    assert((m1 + m2 + m3) * (m1 + m2 + m3) == m1 * m1 + m2 * m2 + m3 * m3 + 2 * (m1 * m2) + 2 * (
    m1 * m3) + 2 * (m2 * m3)) by (nonlinear_arith);
    assert(m1 * m1 == sa1 * sb1) by (nonlinear_arith)
        requires
            m1 == ax * bx,
            sa1 == ax * ax,
            sb1 == bx * bx,
    ;
    assert(m2 * m2 == sa2 * sb2) by (nonlinear_arith)
        requires
            m2 == ay * by,
            sa2 == ay * ay,
            sb2 == by * by,
    ;
    assert(m3 * m3 == sa3 * sb3) by (nonlinear_arith)
        requires
            m3 == az * bz,
            sa3 == az * az,
            sb3 == bz * bz,
    ;
    lemma_pair_square(ay, az, by, bz, m2, m3, sa2, sa3, sb2, sb3);
    lemma_pair_square(az, ax, bz, bx, m3, m1, sa3, sa1, sb3, sb1);
    lemma_pair_square(ax, ay, bx, by, m1, m2, sa1, sa2, sb1, sb2);
    assert((ay * bz - az * by) * (ay * bz - az * by) == sa2 * sb3 + sa3 * sb2 - 2 * (m2 * m3));
    assert((az * bx - ax * bz) * (az * bx - ax * bz) == sa3 * sb1 + sa1 * sb3 - 2 * (m3 * m1));
    assert((ax * by - ay * bx) * (ax * by - ay * bx) == sa1 * sb2 + sa2 * sb1 - 2 * (m1 * m2));
    assert(m3 * m1 == m1 * m3) by (nonlinear_arith);
    assert((sa1 + sa2 + sa3) * (sb1 + sb2 + sb3) == sa1 * sb1 + sa1 * sb2 + sa1 * sb3 + sa2 * sb1
        + sa2 * sb2 + sa2 * sb3 + sa3 * sb1 + sa3 * sb2 + sa3 * sb3) by (nonlinear_arith);
}

/// One pair of the Lagrange expansion: the squared off-diagonal minor in
/// terms of the squared components and the mixed products.
proof fn lemma_pair_square(
    a1: int,
    a2: int,
    b1: int,
    b2: int,
    m1: int,
    m2: int,
    s1: int,
    s2: int,
    t1: int,
    t2: int,
)
    requires
        m1 == a1 * b1,
        m2 == a2 * b2,
        s1 == a1 * a1,
        s2 == a2 * a2,
        t1 == b1 * b1,
        t2 == b2 * b2,
    ensures
        (a1 * b2 - a2 * b1) * (a1 * b2 - a2 * b1) == s1 * t2 + s2 * t1 - 2 * (m1 * m2),
{
    let p = a1 * b2;
    let q = a2 * b1;
    assert((p - q) * (p - q) == p * p - 2 * (p * q) + q * q) by (nonlinear_arith);
    assert(p * p == s1 * t2) by (nonlinear_arith)
        requires
            p == a1 * b2,
            s1 == a1 * a1,
            t2 == b2 * b2,
    ;
    assert(q * q == s2 * t1) by (nonlinear_arith)
        requires
            q == a2 * b1,
            s2 == a2 * a2,
            t1 == b1 * b1,
    ;
    assert(p * q == m1 * m2) by (nonlinear_arith)
        requires
            p == a1 * b2,
            q == a2 * b1,
            m1 == a1 * b1,
            m2 == a2 * b2,
    ;
}

/// Law-support: the fixed-point cross product of two near-unit,
/// near-orthogonal vectors is itself near unit, within 192 fixed-point
/// units — the Lagrange identity carried through the truncation errors.
pub proof fn lemma_cross_norm_unit(w: V3, u: V3)
    requires
        iabs(w.x) < 2 * (FX_SCALE as int),
        iabs(w.y) < 2 * (FX_SCALE as int),
        iabs(w.z) < 2 * (FX_SCALE as int),
        iabs(u.x) < 2 * (FX_SCALE as int),
        iabs(u.y) < 2 * (FX_SCALE as int),
        iabs(u.z) < 2 * (FX_SCALE as int),
        iabs(norm_sq3(w) - FX_SCALE as int) <= 32,
        iabs(norm_sq3(u) - FX_SCALE as int) <= 32,
        iabs(dot3(w, u)) <= 45,
    ensures
        iabs(norm_sq3(cross3(w, u)) - FX_SCALE as int) <= 192,
{
    let s = FX_SCALE as int;
    // The exact squared lengths against their fixed-point images.
    assert(w.x * w.x >= 0 && w.y * w.y >= 0 && w.z * w.z >= 0) by (nonlinear_arith);
    assert(u.x * u.x >= 0 && u.y * u.y >= 0 && u.z * u.z >= 0) by (nonlinear_arith);
    lemma_scaled_square(w.x * w.x);
    lemma_scaled_square(w.y * w.y);
    lemma_scaled_square(w.z * w.z);
    lemma_scaled_square(u.x * u.x);
    lemma_scaled_square(u.y * u.y);
    lemma_scaled_square(u.z * u.z);
    crate::fixed::lemma_iabs_mul_bound(w.x, w.x, 0x2_0000, 0x2_0000);
    crate::fixed::lemma_iabs_mul_bound(w.y, w.y, 0x2_0000, 0x2_0000);
    crate::fixed::lemma_iabs_mul_bound(w.z, w.z, 0x2_0000, 0x2_0000);
    crate::fixed::lemma_iabs_mul_bound(u.x, u.x, 0x2_0000, 0x2_0000);
    crate::fixed::lemma_iabs_mul_bound(u.y, u.y, 0x2_0000, 0x2_0000);
    crate::fixed::lemma_iabs_mul_bound(u.z, u.z, 0x2_0000, 0x2_0000);
    let ew = dote(w, w);
    let eu = dote(u, u);
    assert(s * (s - 32) <= s * norm_sq3(w) && s * norm_sq3(w) <= s * (s + 32)) by (nonlinear_arith)
        requires
            iabs(norm_sq3(w) - s) <= 32,
            iabs(norm_sq3(w) - s) == if norm_sq3(w) - s < 0 {
                -(norm_sq3(w) - s)
            } else {
                norm_sq3(w) - s
            },
            s == 65536,
    ;
    assert(s * (s - 32) <= s * norm_sq3(u) && s * norm_sq3(u) <= s * (s + 32)) by (nonlinear_arith)
        requires
            iabs(norm_sq3(u) - s) <= 32,
            iabs(norm_sq3(u) - s) == if norm_sq3(u) - s < 0 {
                -(norm_sq3(u) - s)
            } else {
                norm_sq3(u) - s
            },
            s == 65536,
    ;
    assert(s * (s - 32) <= ew && ew < s * (s + 32) + 3 * s);
    assert(s * (s - 32) <= eu && eu < s * (s + 32) + 3 * s);

    // The exact dot product against its fixed-point image.
    crate::fixed::lemma_iabs_mul_bound(w.x, u.x, 0x2_0000, 0x2_0000);
    crate::fixed::lemma_iabs_mul_bound(w.y, u.y, 0x2_0000, 0x2_0000);
    crate::fixed::lemma_iabs_mul_bound(w.z, u.z, 0x2_0000, 0x2_0000);
    crate::fixed::lemma_tdiv_error(w.x * u.x, s);
    crate::fixed::lemma_tdiv_error(w.y * u.y, s);
    crate::fixed::lemma_tdiv_error(w.z * u.z, s);
    crate::fixed::lemma_tdiv_mag(w.x * u.x, s);
    crate::fixed::lemma_tdiv_mag(w.y * u.y, s);
    crate::fixed::lemma_tdiv_mag(w.z * u.z, s);
    let dd = dote(w, u);
    assert(iabs(dd) <= 48 * s) by (nonlinear_arith)
        requires
            iabs(dd - s * dot3(w, u)) < 3 * s,
            iabs(dot3(w, u)) <= 45,
            s == 65536,
            iabs(dd) == if dd < 0 { -dd } else { dd },
            iabs(dd - s * dot3(w, u)) == if dd - s * dot3(w, u) < 0 {
                -(dd - s * dot3(w, u))
            } else {
                dd - s * dot3(w, u)
            },
            iabs(dot3(w, u)) == if dot3(w, u) < 0 { -dot3(w, u) } else { dot3(w, u) },
    ;

    // The cross components against the exact cross product.
    crate::fixed::lemma_iabs_mul_bound(w.y, u.z, 0x2_0000, 0x2_0000);
    crate::fixed::lemma_iabs_mul_bound(w.z, u.y, 0x2_0000, 0x2_0000);
    crate::fixed::lemma_iabs_mul_bound(w.z, u.x, 0x2_0000, 0x2_0000);
    crate::fixed::lemma_iabs_mul_bound(w.x, u.z, 0x2_0000, 0x2_0000);
    crate::fixed::lemma_iabs_mul_bound(w.x, u.y, 0x2_0000, 0x2_0000);
    crate::fixed::lemma_iabs_mul_bound(w.y, u.x, 0x2_0000, 0x2_0000);
    lemma_cross_component(w.y * u.z, w.z * u.y);
    lemma_cross_component(w.z * u.x, w.x * u.z);
    lemma_cross_component(w.x * u.y, w.y * u.x);
    let v = cross3(w, u);
    let xc = crosse(w, u);
    let d1 = xc.x - s * v.x;
    let d2 = xc.y - s * v.y;
    let d3 = xc.z - s * v.z;
    assert(iabs(d1) < 2 * s && iabs(d2) < 2 * s && iabs(d3) < 2 * s);
    assert(iabs(xc.x) <= 0x8_0000_0000 && iabs(xc.y) <= 0x8_0000_0000 && iabs(xc.z)
        <= 0x8_0000_0000);
    assert(iabs(xc.x) <= 8 * (s * s) && iabs(xc.y) <= 8 * (s * s) && iabs(xc.z) <= 8 * (s * s))
        by (nonlinear_arith)
        requires
            iabs(xc.x) <= 0x8_0000_0000,
            iabs(xc.y) <= 0x8_0000_0000,
            iabs(xc.z) <= 0x8_0000_0000,
            s == 65536,
    ;
    assert(iabs(v.x) <= 8 * s + 2 && iabs(v.y) <= 8 * s + 2 && iabs(v.z) <= 8 * s + 2)
        by (nonlinear_arith)
        requires
            iabs(xc.x - s * v.x) < 2 * s,
            iabs(xc.y - s * v.y) < 2 * s,
            iabs(xc.z - s * v.z) < 2 * s,
            iabs(xc.x) <= 8 * (s * s),
            iabs(xc.y) <= 8 * (s * s),
            iabs(xc.z) <= 8 * (s * s),
            s == 65536,
            iabs(v.x) == if v.x < 0 { -v.x } else { v.x },
            iabs(v.y) == if v.y < 0 { -v.y } else { v.y },
            iabs(v.z) == if v.z < 0 { -v.z } else { v.z },
            iabs(xc.x) == if xc.x < 0 { -xc.x } else { xc.x },
            iabs(xc.y) == if xc.y < 0 { -xc.y } else { xc.y },
            iabs(xc.z) == if xc.z < 0 { -xc.z } else { xc.z },
            iabs(xc.x - s * v.x) == if xc.x - s * v.x < 0 {
                -(xc.x - s * v.x)
            } else {
                xc.x - s * v.x
            },
            iabs(xc.y - s * v.y) == if xc.y - s * v.y < 0 {
                -(xc.y - s * v.y)
            } else {
                xc.y - s * v.y
            },
            iabs(xc.z - s * v.z) == if xc.z - s * v.z < 0 {
                -(xc.z - s * v.z)
            } else {
                xc.z - s * v.z
            },
    ;

    // The measured squared length of the cross product.
    assert(v.x * v.x >= 0 && v.y * v.y >= 0 && v.z * v.z >= 0) by (nonlinear_arith);
    lemma_scaled_square(v.x * v.x);
    lemma_scaled_square(v.y * v.y);
    lemma_scaled_square(v.z * v.z);
    crate::fixed::lemma_iabs_mul_bound(v.x, v.x, 0x8_0002, 0x8_0002);
    crate::fixed::lemma_iabs_mul_bound(v.y, v.y, 0x8_0002, 0x8_0002);
    crate::fixed::lemma_iabs_mul_bound(v.z, v.z, 0x8_0002, 0x8_0002);
    let tt = v.x * v.x + v.y * v.y + v.z * v.z;
    assert(65536 * tdiv(v.x * v.x, s) <= 0x8_0002 * 0x8_0002);
    assert(65536 * tdiv(v.y * v.y, s) <= 0x8_0002 * 0x8_0002);
    assert(65536 * tdiv(v.z * v.z, s) <= 0x8_0002 * 0x8_0002);
    let qv = norm_sq3(v);
    assert(qv == tdiv(v.x * v.x, s) + tdiv(v.y * v.y, s) + tdiv(v.z * v.z, s));
    assert(s * qv <= tt < s * qv + 3 * s);

    // Expand each scaled square and apply the Lagrange identity.
    lemma_component_square_plain(xc.x, s, v.x, d1);
    lemma_component_square_plain(xc.y, s, v.y, d2);
    lemma_component_square_plain(xc.z, s, v.z, d3);
    assert(s * s * tt == s * s * (v.x * v.x) + s * s * (v.y * v.y) + s * s * (v.z * v.z))
        by (nonlinear_arith)
        requires
            tt == v.x * v.x + v.y * v.y + v.z * v.z,
    ;
    lemma_lagrange(w, u);
    let xsum = xc.x * xc.x + xc.y * xc.y + xc.z * xc.z;
    assert(xsum == ew * eu - dd * dd);
    let mix = xc.x * d1 + xc.y * d2 + xc.z * d3;
    let dsq = d1 * d1 + d2 * d2 + d3 * d3;
    assert(s * s * tt == xsum - 2 * mix + dsq);
    crate::fixed::lemma_iabs_mul_bound(xc.x, d1, 8 * (s * s), 2 * s);
    crate::fixed::lemma_iabs_mul_bound(xc.y, d2, 8 * (s * s), 2 * s);
    crate::fixed::lemma_iabs_mul_bound(xc.z, d3, 8 * (s * s), 2 * s);
    crate::fixed::lemma_iabs_mul_bound(d1, d1, 2 * s, 2 * s);
    crate::fixed::lemma_iabs_mul_bound(d2, d2, 2 * s, 2 * s);
    crate::fixed::lemma_iabs_mul_bound(d3, d3, 2 * s, 2 * s);
    crate::fixed::lemma_iabs_mul_bound(dd, dd, 48 * s, 48 * s);
    assert(dd * dd >= 0) by (nonlinear_arith);
    assert(d1 * d1 >= 0 && d2 * d2 >= 0 && d3 * d3 >= 0) by (nonlinear_arith);
    assert((s * (s - 32)) * (s * (s - 32)) <= ew * eu && ew * eu <= (s * (s + 35)) * (s * (s
        + 35))) by (nonlinear_arith)
        requires
            s * (s - 32) <= ew,
            ew <= s * (s + 35),
            s * (s - 32) <= eu,
            eu <= s * (s + 35),
            s == 65536,
    ;

    // Sandwich the exact squared length, then the measured one.
    assert(s * s * tt >= (s * (s - 32)) * (s * (s - 32)) - 2304 * (s * s) - 96 * (s * (s * s)))
        by (nonlinear_arith)
        requires
            s * s * tt == xsum - 2 * mix + dsq,
            xsum == ew * eu - dd * dd,
            ew * eu >= (s * (s - 32)) * (s * (s - 32)),
            iabs(dd * dd) <= (48 * s) * (48 * s),
            dd * dd >= 0,
            iabs(mix) <= 3 * ((8 * (s * s)) * (2 * s)),
            dsq >= 0,
            s == 65536,
            iabs(mix) == if mix < 0 { -mix } else { mix },
            iabs(dd * dd) == if dd * dd < 0 { -(dd * dd) } else { dd * dd },
            dsq == d1 * d1 + d2 * d2 + d3 * d3,
            d1 * d1 >= 0,
            d2 * d2 >= 0,
            d3 * d3 >= 0,
            mix == xc.x * d1 + xc.y * d2 + xc.z * d3,
    ;
    assert(s * s * tt <= (s * (s + 35)) * (s * (s + 35)) + 96 * (s * (s * s)) + 12 * (s * s))
        by (nonlinear_arith)
        requires
            s * s * tt == xsum - 2 * mix + dsq,
            xsum == ew * eu - dd * dd,
            ew * eu <= (s * (s + 35)) * (s * (s + 35)),
            dd * dd >= 0,
            iabs(mix) <= 3 * ((8 * (s * s)) * (2 * s)),
            iabs(d1 * d1) <= (2 * s) * (2 * s),
            iabs(d2 * d2) <= (2 * s) * (2 * s),
            iabs(d3 * d3) <= (2 * s) * (2 * s),
            dsq == d1 * d1 + d2 * d2 + d3 * d3,
            s == 65536,
            iabs(mix) == if mix < 0 { -mix } else { mix },
            iabs(d1 * d1) == if d1 * d1 < 0 { -(d1 * d1) } else { d1 * d1 },
            iabs(d2 * d2) == if d2 * d2 < 0 { -(d2 * d2) } else { d2 * d2 },
            iabs(d3 * d3) == if d3 * d3 < 0 { -(d3 * d3) } else { d3 * d3 },
            mix == xc.x * d1 + xc.y * d2 + xc.z * d3,
    ;
    assert(tt >= s * s - 160 * s - 1280) by (nonlinear_arith)
        requires
            s * s * tt >= (s * (s - 32)) * (s * (s - 32)) - 2304 * (s * s) - 96 * (s * (s * s)),
            s == 65536,
    ;
    assert(tt <= s * s + 167 * s) by (nonlinear_arith)
        requires
            s * s * tt <= (s * (s + 35)) * (s * (s + 35)) + 96 * (s * (s * s)) + 12 * (s * s),
            s == 65536,
    ;
    assert(qv <= s + 167) by (nonlinear_arith)
        requires
            s * qv <= tt,
            tt <= s * s + 167 * s,
            s == 65536,
    ;
    assert(qv >= s - 164) by (nonlinear_arith)
        requires
            tt < s * qv + 3 * s,
            tt >= s * s - 160 * s - 1280,
            s == 65536,
    ;
}

/// The plain binomial square behind one scaled cross component:
/// `(l * r)^2` expanded through `l * r == x - e`.
proof fn lemma_component_square_plain(x: int, l: int, r: int, e: int)
    requires
        l * r == x - e,
    ensures
        l * l * (r * r) == x * x - 2 * (x * e) + e * e,
{
    let q = l * r;
    assert(q * q == x * x - 2 * (x * e) + e * e) by (nonlinear_arith)
        requires
            q == x - e,
    ;
    assert(q * q == l * l * (r * r)) by (nonlinear_arith)
        requires
            q == l * r,
    ;
}

/// Normalizing one side of a nearly-orthogonal pair keeps it nearly
/// orthogonal: if the measured dot product of `a` (at least half a unit
/// long) with `w` (of at most two units per component) is within `dbound`
/// of zero, the dot product of `normalize(a)` with `w` is within
/// `2 * dbound + 15`.
pub proof fn lemma_normalized_orthogonality(a: V3, w: V3, dbound: int)
    requires
        iabs(a.x) < 0x40_0000_0000,
        iabs(a.y) < 0x40_0000_0000,
        iabs(a.z) < 0x40_0000_0000,
        iabs(w.x) < 2 * (FX_SCALE as int),
        iabs(w.y) < 2 * (FX_SCALE as int),
        iabs(w.z) < 2 * (FX_SCALE as int),
        norm_sq3(a) >= UNIT_SAMPLE_MIN_SQ_BITS as int,
        iabs(dot3(a, w)) <= dbound,
        dbound >= 0,
    ensures
        iabs(dot3(normalize3(a), w)) <= 2 * dbound + 15,
{
    let s = FX_SCALE as int;
    let nq = norm_sq3(a);
    assert(nq <= i64::MAX as int);
    assert(nq * s > 0 && nq * s <= 0x8000_0000_0000_0000_0000) by (nonlinear_arith)
        requires
            16384 <= nq <= 0x7fff_ffff_ffff_ffff,
            s == 65536,
    ;
    let l = crate::fixed::fx_sqrt(nq);
    assert(l == crate::fixed::isqrt((nq * s) as nat) as int);
    crate::fixed::lemma_isqrt_bounds((nq * s) as nat);
    assert(l * l <= nq * s < (l + 1) * (l + 1));
    assert(2 * l >= s) by (nonlinear_arith)
        requires
            nq >= 16384,
            s == 65536,
            l >= 0,
            nq * s < (l + 1) * (l + 1),
    ;
    assert(l < 0x2_0000_0000_0000) by (nonlinear_arith)
        requires
            l * l <= nq * s,
            nq * s <= 0x8000_0000_0000_0000_0000,
            l >= 0,
    ;

    // The normalized components and their scaled remainders.
    assert(len3(a) == l);
    let u = normalize3(a);
    lemma_norm_component(a.x, l);
    lemma_norm_component(a.y, l);
    lemma_norm_component(a.z, l);
    assert(u.x == tdiv(a.x * s, l) && u.y == tdiv(a.y * s, l) && u.z == tdiv(a.z * s, l));
    let e1 = a.x * s - l * u.x;
    let e2 = a.y * s - l * u.y;
    let e3 = a.z * s - l * u.z;

    // Both measured dot products are clamp-free under these bounds.
    crate::fixed::lemma_iabs_mul_bound(u.x, w.x, 0x80_0000_0000, 2 * s);
    crate::fixed::lemma_iabs_mul_bound(u.y, w.y, 0x80_0000_0000, 2 * s);
    crate::fixed::lemma_iabs_mul_bound(u.z, w.z, 0x80_0000_0000, 2 * s);
    crate::fixed::lemma_tdiv_mag(u.x * w.x, s);
    crate::fixed::lemma_tdiv_mag(u.y * w.y, s);
    crate::fixed::lemma_tdiv_mag(u.z * w.z, s);
    vstd::arithmetic::div_mod::lemma_div_is_ordered(
        iabs(u.x * w.x),
        0x100_0000_0000_0000_0000,
        s,
    );
    vstd::arithmetic::div_mod::lemma_div_is_ordered(
        iabs(u.y * w.y),
        0x100_0000_0000_0000_0000,
        s,
    );
    vstd::arithmetic::div_mod::lemma_div_is_ordered(
        iabs(u.z * w.z),
        0x100_0000_0000_0000_0000,
        s,
    );
    crate::fixed::lemma_tdiv_error(u.x * w.x, s);
    crate::fixed::lemma_tdiv_error(u.y * w.y, s);
    crate::fixed::lemma_tdiv_error(u.z * w.z, s);
    let duw = tdiv(u.x * w.x, s) + tdiv(u.y * w.y, s) + tdiv(u.z * w.z, s);
    assert(dot3(u, w) == duw);
    let rho = (u.x * w.x - s * tdiv(u.x * w.x, s)) + (u.y * w.y - s * tdiv(u.y * w.y, s)) + (u.z
        * w.z - s * tdiv(u.z * w.z, s));
    assert(iabs(rho) < 3 * s);

    crate::fixed::lemma_iabs_mul_bound(a.x, w.x, 0x40_0000_0000, 2 * s);
    crate::fixed::lemma_iabs_mul_bound(a.y, w.y, 0x40_0000_0000, 2 * s);
    crate::fixed::lemma_iabs_mul_bound(a.z, w.z, 0x40_0000_0000, 2 * s);
    crate::fixed::lemma_tdiv_error(a.x * w.x, s);
    crate::fixed::lemma_tdiv_error(a.y * w.y, s);
    crate::fixed::lemma_tdiv_error(a.z * w.z, s);
    crate::fixed::lemma_tdiv_mag(a.x * w.x, s);
    crate::fixed::lemma_tdiv_mag(a.y * w.y, s);
    crate::fixed::lemma_tdiv_mag(a.z * w.z, s);
    vstd::arithmetic::div_mod::lemma_div_is_ordered(
        iabs(a.x * w.x),
        0x80_0000_0000_0000,
        s,
    );
    vstd::arithmetic::div_mod::lemma_div_is_ordered(
        iabs(a.y * w.y),
        0x80_0000_0000_0000,
        s,
    );
    vstd::arithmetic::div_mod::lemma_div_is_ordered(
        iabs(a.z * w.z),
        0x80_0000_0000_0000,
        s,
    );
    let daw = tdiv(a.x * w.x, s) + tdiv(a.y * w.y, s) + tdiv(a.z * w.z, s);
    assert(dot3(a, w) == daw);
    let rho2 = (a.x * w.x - s * tdiv(a.x * w.x, s)) + (a.y * w.y - s * tdiv(a.y * w.y, s)) + (a.z
        * w.z - s * tdiv(a.z * w.z, s));
    assert(iabs(rho2) < 3 * s);

    // Scale the normalized dot product back up through the length.
    assert(l * (u.x * w.x) == s * (a.x * w.x) - e1 * w.x) by (nonlinear_arith)
        requires
            l * u.x == a.x * s - e1,
    ;
    assert(l * (u.y * w.y) == s * (a.y * w.y) - e2 * w.y) by (nonlinear_arith)
        requires
            l * u.y == a.y * s - e2,
    ;
    assert(l * (u.z * w.z) == s * (a.z * w.z) - e3 * w.z) by (nonlinear_arith)
        requires
            l * u.z == a.z * s - e3,
    ;
    crate::fixed::lemma_iabs_mul_bound(e1, w.x, l, 2 * s);
    crate::fixed::lemma_iabs_mul_bound(e2, w.y, l, 2 * s);
    crate::fixed::lemma_iabs_mul_bound(e3, w.z, l, 2 * s);
    let esum = e1 * w.x + e2 * w.y + e3 * w.z;
    assert(iabs(esum) <= 3 * (l * (2 * s)));
    assert(l * (s * duw + rho) == s * (s * daw + rho2) - esum) by (nonlinear_arith)
        requires
            s * duw + rho == u.x * w.x + u.y * w.y + u.z * w.z,
            s * daw + rho2 == a.x * w.x + a.y * w.y + a.z * w.z,
            l * (u.x * w.x) == s * (a.x * w.x) - e1 * w.x,
            l * (u.y * w.y) == s * (a.y * w.y) - e2 * w.y,
            l * (u.z * w.z) == s * (a.z * w.z) - e3 * w.z,
            esum == e1 * w.x + e2 * w.y + e3 * w.z,
    ;
    assert(l * (s * duw) == s * (s * daw) + s * rho2 - esum - l * rho) by (nonlinear_arith)
        requires
            l * (s * duw + rho) == s * (s * daw + rho2) - esum,
    ;
    crate::fixed::lemma_iabs_mul_bound(s, daw, s, dbound);
    crate::fixed::lemma_iabs_mul_bound(s, rho2, s, 3 * s);
    crate::fixed::lemma_iabs_mul_bound(l, rho, l, 3 * s);
    assert(iabs(l * (s * duw)) <= s * (s * dbound) + s * (3 * s) + 3 * (l * (2 * s)) + l * (3
        * s)) by (nonlinear_arith)
        requires
            l * (s * duw) == s * (s * daw) + s * rho2 - esum - l * rho,
            iabs(s * daw) <= s * dbound,
            iabs(s * rho2) <= s * (3 * s),
            iabs(esum) <= 3 * (l * (2 * s)),
            iabs(l * rho) <= l * (3 * s),
            iabs(s * daw) == if s * daw < 0 { -(s * daw) } else { s * daw },
            iabs(s * rho2) == if s * rho2 < 0 { -(s * rho2) } else { s * rho2 },
            iabs(esum) == if esum < 0 { -esum } else { esum },
            iabs(l * rho) == if l * rho < 0 { -(l * rho) } else { l * rho },
            iabs(l * (s * duw)) == if l * (s * duw) < 0 {
                -(l * (s * duw))
            } else {
                l * (s * duw)
            },
            iabs(s * (s * daw)) == if s * (s * daw) < 0 {
                -(s * (s * daw))
            } else {
                s * (s * daw)
            },
            s == 65536,
            l > 0,
            dbound >= 0,
    ;
    assert(iabs(duw) <= 2 * dbound + 15) by (nonlinear_arith)
        requires
            iabs(l * (s * duw)) <= s * (s * dbound) + s * (3 * s) + 3 * (l * (2 * s)) + l * (3
                * s),
            2 * l >= s,
            s == 65536,
            dbound >= 0,
            iabs(duw) == if duw < 0 { -duw } else { duw },
            iabs(l * (s * duw)) == if l * (s * duw) < 0 {
                -(l * (s * duw))
            } else {
                l * (s * duw)
            },
            l > 0,
    ;
}

/// Law: reflection about a normal is involutive on every component. In the
/// division-free exact form each application scales by `dot(n, n)`, so two
/// applications return the original vector scaled by `dot(n, n)` squared;
/// with an exactly unit normal the round trip is the identity.
pub proof fn lemma_reflect_involutive(v: V3, n: V3)
    ensures
        reflecte(reflecte(v, n), n) == scalee(v, dote(n, n) * dote(n, n)),
{
    let vx = v.x;
    let vy = v.y;
    let vz = v.z;
    let nx = n.x;
    let ny = n.y;
    let nz = n.z;
    let k = dote(n, n);
    let d = dote(v, n);
    let r1 = reflecte(v, n);
    assert((k * vx - 2 * d * nx) * nx == k * (vx * nx) - 2 * d * (nx * nx)) by (nonlinear_arith);
    assert((k * vy - 2 * d * ny) * ny == k * (vy * ny) - 2 * d * (ny * ny)) by (nonlinear_arith);
    assert((k * vz - 2 * d * nz) * nz == k * (vz * nz) - 2 * d * (nz * nz)) by (nonlinear_arith);
    assert(k * (vx * nx) + k * (vy * ny) + k * (vz * nz) == k * (vx * nx + vy * ny + vz * nz))
        by (nonlinear_arith);
    assert(2 * d * (nx * nx) + 2 * d * (ny * ny) + 2 * d * (nz * nz) == 2 * d * (nx * nx + ny * ny
        + nz * nz)) by (nonlinear_arith);
    assert(r1.x * nx + r1.y * ny + r1.z * nz == k * (vx * nx + vy * ny + vz * nz) - 2 * d * (nx
        * nx + ny * ny + nz * nz));
    assert(k * d - 2 * d * k == -(k * d)) by (nonlinear_arith);
    assert(dote(r1, n) == -(k * d));
    let r2 = reflecte(r1, n);
    assert(r2.x == k * r1.x - 2 * (-(k * d)) * nx);
    assert(r2.x == k * k * vx) by (nonlinear_arith)
        requires
            r1.x == k * vx - 2 * d * nx,
            r2.x == k * r1.x - 2 * (-(k * d)) * nx,
    ;
    assert(r2.y == k * k * vy) by (nonlinear_arith)
        requires
            r1.y == k * vy - 2 * d * ny,
            r2.y == k * r1.y - 2 * (-(k * d)) * ny,
    ;
    assert(r2.z == k * k * vz) by (nonlinear_arith)
        requires
            r1.z == k * vz - 2 * d * nz,
            r2.z == k * r1.z - 2 * (-(k * d)) * nz,
    ;
}

/// Law: with an exactly unit normal, reflecting twice in exact arithmetic
/// returns the original vector.
pub proof fn lemma_reflect_involutive_unit(v: V3, n: V3)
    requires
        dote(n, n) == 1,
    ensures
        reflecte(reflecte(v, n), n) == v,
{
    lemma_reflect_involutive(v, n);
}

/// The vector whose components carry the (in-range) raw bits of `v`.
pub open spec fn from_v3(v: V3) -> Vec3 {
    Vec3 { x: fx_of(v.x), y: fx_of(v.y), z: fx_of(v.z) }
}

/// A 3D vector of fixed-point components; also used as a point and as an
/// RGB color.
#[derive(Clone, Copy, Debug, PartialEq, Eq, Structural)]
pub struct Vec3 {
    /// The x component.
    pub x: Fx,
    /// The y component.
    pub y: Fx,
    /// The z component.
    pub z: Fx,
}

/// An alias for `Vec3` naming a point in space.
pub type Point3 = Vec3;

impl View for Vec3 {
    type V = V3;

    open spec fn view(&self) -> V3 {
        V3 { x: self.x@, y: self.y@, z: self.z@ }
    }
}

impl Default for Vec3 {
    /// The zero vector.
    fn default() -> (r: Vec3)
        ensures
            r@ == v3_zero(),
    {
        Vec3 { x: Fx::zero(), y: Fx::zero(), z: Fx::zero() }
    }
}

impl Vec3 {
    /// The vector with the given components.
    pub fn new(x: Fx, y: Fx, z: Fx) -> (r: Vec3)
        ensures
            r@ == (V3 { x: x@, y: y@, z: z@ }),
    {
        Vec3 { x, y, z }
    }

    /// The vector with all three components equal to `n`.
    pub fn splat(n: Fx) -> (r: Vec3)
        ensures
            r@ == (V3 { x: n@, y: n@, z: n@ }),
    {
        Vec3 { x: n, y: n, z: n }
    }

    /// Componentwise saturating sum.
    pub fn add(self, rhs: Vec3) -> (r: Vec3)
        ensures
            r@ == v3_add(self@, rhs@),
    {
        Vec3 { x: self.x.add(rhs.x), y: self.y.add(rhs.y), z: self.z.add(rhs.z) }
    }

    /// Componentwise saturating difference.
    pub fn sub(self, rhs: Vec3) -> (r: Vec3)
        ensures
            r@ == v3_sub(self@, rhs@),
    {
        Vec3 { x: self.x.sub(rhs.x), y: self.y.sub(rhs.y), z: self.z.sub(rhs.z) }
    }

    /// Componentwise saturating negation.
    pub fn neg(self) -> (r: Vec3)
        ensures
            r@ == v3_neg(self@),
    {
        Vec3 { x: self.x.neg(), y: self.y.neg(), z: self.z.neg() }
    }

    /// Componentwise fixed-point product.
    pub fn mul(self, rhs: Vec3) -> (r: Vec3)
        ensures
            r@ == v3_mul(self@, rhs@),
    {
        Vec3 { x: self.x.mul(rhs.x), y: self.y.mul(rhs.y), z: self.z.mul(rhs.z) }
    }

    /// Fixed-point scaling by a scalar.
    pub fn scale(self, k: Fx) -> (r: Vec3)
        ensures
            r@ == v3_scale(self@, k@),
    {
        Vec3 { x: self.x.mul(k), y: self.y.mul(k), z: self.z.mul(k) }
    }

    /// Fixed-point division by a scalar.
    pub fn div_scalar(self, k: Fx) -> (r: Vec3)
        ensures
            r@ == v3_div(self@, k@),
    {
        Vec3 { x: self.x.div(k), y: self.y.div(k), z: self.z.div(k) }
    }

    /// The squared length of the vector.
    pub fn length_squared(&self) -> (r: Fx)
        ensures
            r@ == norm_sq3(self@),
    {
        dot(self, self)
    }

    /// The length of the vector.
    pub fn length(&self) -> (r: Fx)
        ensures
            r@ == len3(self@),
    {
        self.length_squared().sqrt()
    }

    /// Whether the vector is too close to zero to be a usable direction.
    /// At this scale that is exactly the zero vector.
    pub fn near_zero(&self) -> (r: bool)
        ensures
            r == (self@ == v3_zero()),
    {
        self.x.bits == 0 && self.y.bits == 0 && self.z.bits == 0
    }

    /// The vector divided by its own length. The zero vector has length
    /// zero and yields saturated garbage; callers keep directions nonzero.
    pub fn normalized(self) -> (r: Vec3)
        ensures
            r@ == normalize3(self@),
    {
        self.div_scalar(self.length())
    }

    /// Reflection of the vector about the surface normal `n`.
    pub fn reflect(self, n: &Vec3) -> (r: Vec3)
        ensures
            r@ == reflect3(self@, n@),
    {
        self.sub(n.scale(dot(&self, n)).scale(Fx::from_int(2)))
    }

    /// A vector whose components are independent uniform draws from
    /// `[min, max)`.
    pub fn random(min: Fx, max: Fx, rng: &mut rand::rngs::ThreadRng) -> (r: Vec3)
        requires
            min@ < max@,
        ensures
            v3_in_range(r@, min@, max@),
    {
        let x = rand_in_range(rng, min.bits, max.bits);
        let y = rand_in_range(rng, min.bits, max.bits);
        let z = rand_in_range(rng, min.bits, max.bits);
        Vec3 { x: Fx::from_bits(x), y: Fx::from_bits(y), z: Fx::from_bits(z) }
    }

    /// A vector inside the unit sphere but at least half a unit long, by
    /// rejection sampling over the cube `[-1, 1)^3`; samples shorter than
    /// one half are rejected too, since their normalization error would
    /// be unbounded at this scale. After a bounded number of rejections
    /// it falls back to a unit axis vector, so the routine always
    /// terminates.
    fn random_in_unit_sphere(rng: &mut rand::rngs::ThreadRng) -> (r: Vec3)
        ensures
            UNIT_SAMPLE_MIN_SQ_BITS as int <= norm_sq3(r@) <= FX_SCALE as int,
            iabs(r@.x) <= FX_SCALE as int,
            iabs(r@.y) <= FX_SCALE as int,
            iabs(r@.z) <= FX_SCALE as int,
    {
        let mut tries: u32 = 0;
        while tries < 64
            invariant
                true,
            decreases 64 - tries,
        {
            let p = Vec3::random(Fx::from_int(-1), Fx::one(), rng);
            let ls = p.length_squared();
            if Fx::from_bits(UNIT_SAMPLE_MIN_SQ_BITS).le(ls) && ls.lt(Fx::one()) {
                return p;
            }
            tries = tries + 1;
        }
        let axis = Vec3::new(Fx::one(), Fx::zero(), Fx::zero());
        proof {
            crate::fixed::lemma_tdiv_mag(FX_SCALE as int * FX_SCALE as int, FX_SCALE as int);
            assert(tdiv(FX_SCALE as int * FX_SCALE as int, FX_SCALE as int) == FX_SCALE as int);
        }
        axis
    }

    /// A vector in the unit disk of the XY plane: z is zero and the
    /// squared length is below one. Bounded rejection sampling with a
    /// fallback to the zero vector, matching an accepted all-zero draw.
    pub fn random_in_unit_disk(rng: &mut rand::rngs::ThreadRng) -> (r: Vec3)
        ensures
            r@.z == 0,
            0 <= norm_sq3(r@) < FX_SCALE as int,
    {
        let mut tries: u32 = 0;
        while tries < 64
            invariant
                true,
            decreases 64 - tries,
        {
            let x = rand_in_range(rng, -FX_SCALE, FX_SCALE);
            let y = rand_in_range(rng, -FX_SCALE, FX_SCALE);
            let p = Vec3::new(Fx::from_bits(x), Fx::from_bits(y), Fx::zero());
            let ls = p.length_squared();
            if ls.lt(Fx::one()) {
                proof {
                    lemma_norm_sq_nonneg(p@);
                }
                return p;
            }
            tries = tries + 1;
        }
        let origin = Vec3::new(Fx::zero(), Fx::zero(), Fx::zero());
        origin
    }

    /// A vector of approximately unit length: a sample from the unit
    /// sphere, normalized. The squared length of the result is within 32
    /// fixed-point units of one.
    pub fn random_normalized(rng: &mut rand::rngs::ThreadRng) -> (r: Vec3)
        ensures
            is_unit_sample(r@),
    {
        let p = Vec3::random_in_unit_sphere(rng);
        let r = p.normalized();
        proof {
            lemma_normalize_unit(p@);
            assert(UNIT_SAMPLE_MIN_SQ_BITS as int <= norm_sq3(p@) <= FX_SCALE as int && r@
                == normalize3(p@));
        }
        r
    }

    /// An approximately unit-length sample on the hemisphere around
    /// `normal`: the sphere sample itself when it points with the normal,
    /// otherwise its negation. The squared length of the result is within
    /// 32 fixed-point units of one either way.
    pub fn random_on_hemisphere(normal: Vec3, rng: &mut rand::rngs::ThreadRng) -> (r: Vec3)
        ensures
            exists|s: V3|
                #[trigger] is_unit_sample(s) && r@ == if dot3(s, normal@) > 0 {
                    s
                } else {
                    v3_neg(s)
                },
            iabs(norm_sq3(r@) - FX_SCALE as int) <= 32,
    {
        let on_sphere = Vec3::random_normalized(rng);
        let res = if dot(&on_sphere, &normal).gt(Fx::zero()) {
            on_sphere
        } else {
            on_sphere.neg()
        };
        proof {
            let s = on_sphere@;
            assert(is_unit_sample(s) && res@ == if dot3(s, normal@) > 0 {
                s
            } else {
                v3_neg(s)
            });
            if !(dot3(s, normal@) > 0) {
                lemma_norm_components_bounded(s);
                lemma_neg_preserves_norm(s);
            }
        }
        res
    }
}

/// Whether a vector is a unit-direction draw of this library: the
/// normalization of a sample from the unit sphere at least half a unit
/// long, with squared length within 32 fixed-point units of one.
pub open spec fn is_unit_sample(s: V3) -> bool {
    &&& exists|p: V3|
        UNIT_SAMPLE_MIN_SQ_BITS as int <= #[trigger] norm_sq3(p) <= FX_SCALE as int && s
            == normalize3(p)
    &&& iabs(norm_sq3(s) - FX_SCALE as int) <= 32
}

/// A vector whose measured squared length is at most two has every
/// component shorter than two units.
pub proof fn lemma_norm_components_bounded(s: V3)
    requires
        norm_sq3(s) <= 2 * (FX_SCALE as int),
    ensures
        iabs(s.x) < 2 * (FX_SCALE as int),
        iabs(s.y) < 2 * (FX_SCALE as int),
        iabs(s.z) < 2 * (FX_SCALE as int),
{
    let fs = FX_SCALE as int;
    assert(s.x * s.x >= 0 && s.y * s.y >= 0 && s.z * s.z >= 0) by (nonlinear_arith);
    lemma_scaled_square(s.x * s.x);
    lemma_scaled_square(s.y * s.y);
    lemma_scaled_square(s.z * s.z);
    if iabs(s.x) >= 2 * fs {
        assert(s.x * s.x >= 4 * (fs * fs)) by (nonlinear_arith)
            requires
                iabs(s.x) >= 2 * fs,
                fs == 65536,
                iabs(s.x) == if s.x < 0 { -s.x } else { s.x },
        ;
        vstd::arithmetic::div_mod::lemma_div_is_ordered(4 * (fs * fs), s.x * s.x, fs);
        crate::fixed::lemma_tdiv_mag(s.x * s.x, fs);
        assert(tdiv(s.x * s.x, fs) >= 4 * fs);
        assert(false);
    }
    if iabs(s.y) >= 2 * fs {
        assert(s.y * s.y >= 4 * (fs * fs)) by (nonlinear_arith)
            requires
                iabs(s.y) >= 2 * fs,
                fs == 65536,
                iabs(s.y) == if s.y < 0 { -s.y } else { s.y },
        ;
        vstd::arithmetic::div_mod::lemma_div_is_ordered(4 * (fs * fs), s.y * s.y, fs);
        crate::fixed::lemma_tdiv_mag(s.y * s.y, fs);
        assert(tdiv(s.y * s.y, fs) >= 4 * fs);
        assert(false);
    }
    if iabs(s.z) >= 2 * fs {
        assert(s.z * s.z >= 4 * (fs * fs)) by (nonlinear_arith)
            requires
                iabs(s.z) >= 2 * fs,
                fs == 65536,
                iabs(s.z) == if s.z < 0 { -s.z } else { s.z },
        ;
        vstd::arithmetic::div_mod::lemma_div_is_ordered(4 * (fs * fs), s.z * s.z, fs);
        crate::fixed::lemma_tdiv_mag(s.z * s.z, fs);
        assert(tdiv(s.z * s.z, fs) >= 4 * fs);
        assert(false);
    }
}

/// Negation preserves the measured squared length when the components are
/// far from the saturation rails.
proof fn lemma_neg_preserves_norm(s: V3)
    requires
        iabs(s.x) < 2 * (FX_SCALE as int),
        iabs(s.y) < 2 * (FX_SCALE as int),
        iabs(s.z) < 2 * (FX_SCALE as int),
    ensures
        norm_sq3(v3_neg(s)) == norm_sq3(s),
{
    let n = v3_neg(s);
    assert(n.x == -s.x && n.y == -s.y && n.z == -s.z);
    assert((-s.x) * (-s.x) == s.x * s.x) by (nonlinear_arith);
    assert((-s.y) * (-s.y) == s.y * s.y) by (nonlinear_arith);
    assert((-s.z) * (-s.z) == s.z * s.z) by (nonlinear_arith);
}

/// A ghost vector with in-range components is the view of the vector
/// built from its raw bits.
pub proof fn lemma_from_v3_view(v: V3)
    requires
        i64::MIN as int <= v.x <= i64::MAX as int,
        i64::MIN as int <= v.y <= i64::MAX as int,
        i64::MIN as int <= v.z <= i64::MAX as int,
    ensures
        from_v3(v)@ == v,
{
}

/// Scaling the zero vector gives the zero vector for every scalar.
pub proof fn lemma_scale_zero(k: int)
    ensures
        v3_scale(v3_zero(), k) == v3_zero(),
{
    assert(0 * k == 0) by (nonlinear_arith);
    vstd::arithmetic::div_mod::lemma_div_of0(FX_SCALE as int);
}

/// The scaled binomial square behind one normalized component:
/// `(l * r)^2` expanded through `l * r == ai * s - e`.
proof fn lemma_component_square(ai: int, l: int, r: int, e: int)
    requires
        l * r == ai * (FX_SCALE as int) - e,
    ensures
        l * l * (r * r) == (FX_SCALE as int) * (FX_SCALE as int) * (ai * ai) - 2 * (
        FX_SCALE as int) * (ai * e) + e * e,
{
    let s = FX_SCALE as int;
    let xs = ai * s;
    let u = l * r;
    assert(u * u == xs * xs - 2 * (xs * e) + e * e) by (nonlinear_arith)
        requires
            u == xs - e,
    ;
    assert(xs * xs == s * s * (ai * ai)) by (nonlinear_arith)
        requires
            xs == ai * s,
    ;
    assert(xs * e == s * (ai * e)) by (nonlinear_arith)
        requires
            xs == ai * s,
    ;
    assert(u * u == l * l * (r * r)) by (nonlinear_arith)
        requires
            u == l * r,
    ;
    assert(l * l * (r * r) == s * s * (ai * ai) - 2 * s * (ai * e) + e * e) by (nonlinear_arith)
        requires
            l * l * (r * r) == u * u,
            u * u == xs * xs - 2 * (xs * e) + e * e,
            xs * xs == s * s * (ai * ai),
            xs * e == s * (ai * e),
    ;
}

/// A nonnegative mixed term `ai * e` stays below `bound * l` when the
/// factors' magnitudes do.
proof fn lemma_mixed_bound(ai: int, e: int, l: int, bound: int)
    requires
        ai * e >= 0,
        iabs(ai) <= bound,
        iabs(e) < l,
        l > 0,
        bound >= 0,
    ensures
        ai * e <= bound * l,
{
    assert(ai * e <= iabs(ai) * iabs(e)) by (nonlinear_arith)
        requires
            iabs(ai) == if ai < 0 { -ai } else { ai },
            iabs(e) == if e < 0 { -e } else { e },
    ;
    assert(iabs(ai) * iabs(e) <= bound * l) by (nonlinear_arith)
        requires
            0 <= iabs(ai) <= bound,
            0 <= iabs(e) <= l,
            l > 0,
    ;
}

/// One component of a normalized vector: the division is clamp-free, its
/// scaled remainder is below the length, and the remainder never crosses
/// zero against the component's sign.
proof fn lemma_norm_component(ai: int, l: int)
    requires
        2 * l >= FX_SCALE as int,
        iabs(ai) < 0x40_0000_0000,
    ensures
        fx_div(ai, l) == tdiv(ai * (FX_SCALE as int), l),
        iabs(fx_div(ai, l)) <= 2 * iabs(ai),
        iabs(ai * (FX_SCALE as int) - l * tdiv(ai * (FX_SCALE as int), l)) < l,
        ai * (ai * (FX_SCALE as int) - l * tdiv(ai * (FX_SCALE as int), l)) >= 0,
{
    let s = FX_SCALE as int;
    let x = ai * s;
    let t = tdiv(x, l);
    crate::fixed::lemma_iabs_mul(ai, s);
    crate::fixed::lemma_tdiv_mag(x, l);
    vstd::arithmetic::div_mod::lemma_div_is_ordered_by_denominator(iabs(x), 32768, l);
    vstd::arithmetic::div_mod::lemma_div_multiples_vanish(2 * iabs(ai), 32768);
    assert(iabs(x) == 32768 * (2 * iabs(ai)));
    assert(iabs(x) / 32768 == 2 * iabs(ai));
    assert(iabs(t) <= 2 * iabs(ai));
    crate::fixed::lemma_tdiv_error(x, l);
    crate::fixed::lemma_tdiv_remainder_sign(x, l);
    let e = x - l * t;
    if ai >= 0 {
        assert(x >= 0) by (nonlinear_arith)
            requires
                ai >= 0,
                x == ai * s,
                s > 0,
        ;
        assert(ai * e >= 0) by (nonlinear_arith)
            requires
                ai >= 0,
                e >= 0,
        ;
    } else {
        assert(x <= 0) by (nonlinear_arith)
            requires
                ai < 0,
                x == ai * s,
                s > 0,
        ;
        assert(ai * e >= 0) by (nonlinear_arith)
            requires
                ai < 0,
                e <= 0,
        ;
    }
}

/// One scaled square: `s * tdiv(v, s)` brackets the nonnegative `v` from
/// below within `s`, and the quotient is nonnegative.
proof fn lemma_scaled_square(v: int)
    requires
        v >= 0,
    ensures
        0 <= tdiv(v, FX_SCALE as int),
        (FX_SCALE as int) * tdiv(v, FX_SCALE as int) <= v,
        v < (FX_SCALE as int) * tdiv(v, FX_SCALE as int) + FX_SCALE as int,
{
    let s = FX_SCALE as int;
    crate::fixed::lemma_tdiv_error(v, s);
    crate::fixed::lemma_tdiv_remainder_sign(v, s);
    crate::fixed::lemma_tdiv_mag(v, s);
    vstd::arithmetic::div_mod::lemma_div_pos_is_pos(v, s);
    assert(tdiv(v, s) == v / s);
}

/// Law: a vector of length at least one half normalizes to
/// (approximately) unit length: the squared length of the normalized
/// vector is within 32 fixed-point units of one. Shorter vectors are
/// excluded: at this scale their quantization error can dominate the
/// quotient.
pub proof fn lemma_normalize_unit(a: V3)
    requires
        iabs(a.x) < 0x40_0000_0000,
        iabs(a.y) < 0x40_0000_0000,
        iabs(a.z) < 0x40_0000_0000,
        norm_sq3(a) >= UNIT_SAMPLE_MIN_SQ_BITS as int,
    ensures
        iabs(norm_sq3(normalize3(a)) - FX_SCALE as int) <= 32,
{
    let s = FX_SCALE as int;
    let ex = a.x * a.x;
    let ey = a.y * a.y;
    let ez = a.z * a.z;
    assert(0 <= ex < 0x1000_0000_0000_0000_0000) by (nonlinear_arith)
        requires
            iabs(a.x) < 0x40_0000_0000,
            iabs(a.x) == if a.x < 0 { -a.x } else { a.x },
            ex == a.x * a.x,
    ;
    assert(0 <= ey < 0x1000_0000_0000_0000_0000) by (nonlinear_arith)
        requires
            iabs(a.y) < 0x40_0000_0000,
            iabs(a.y) == if a.y < 0 { -a.y } else { a.y },
            ey == a.y * a.y,
    ;
    assert(0 <= ez < 0x1000_0000_0000_0000_0000) by (nonlinear_arith)
        requires
            iabs(a.z) < 0x40_0000_0000,
            iabs(a.z) == if a.z < 0 { -a.z } else { a.z },
            ez == a.z * a.z,
    ;
    let esum = ex + ey + ez;
    let q1 = tdiv(ex, s);
    let q2 = tdiv(ey, s);
    let q3 = tdiv(ez, s);
    lemma_scaled_square(ex);
    lemma_scaled_square(ey);
    lemma_scaled_square(ez);
    let q = q1 + q2 + q3;
    vstd::arithmetic::div_mod::lemma_div_is_ordered(ex, 0x1000_0000_0000_0000_0000, s);
    vstd::arithmetic::div_mod::lemma_div_is_ordered(ey, 0x1000_0000_0000_0000_0000, s);
    vstd::arithmetic::div_mod::lemma_div_is_ordered(ez, 0x1000_0000_0000_0000_0000, s);
    crate::fixed::lemma_tdiv_mag(ex, s);
    crate::fixed::lemma_tdiv_mag(ey, s);
    crate::fixed::lemma_tdiv_mag(ez, s);
    assert(q < 0x8000_0000_0000_0000);
    assert(norm_sq3(a) == q);
    assert(q >= 16384);
    assert(s * q <= esum < s * q + 3 * s);

    // The fixed-point length.
    assert(q * s > 0) by (nonlinear_arith)
        requires
            q >= 16384,
            s == 65536,
    ;
    let l = crate::fixed::fx_sqrt(q);
    assert(l == crate::fixed::isqrt((q * s) as nat) as int);
    crate::fixed::lemma_isqrt_bounds((q * s) as nat);
    assert(l * l <= q * s < (l + 1) * (l + 1));
    assert(2 * l >= s) by (nonlinear_arith)
        requires
            q >= 16384,
            s == 65536,
            l >= 0,
            q * s < (l + 1) * (l + 1),
    ;
    assert(q * s <= esum) by (nonlinear_arith)
        requires
            s * q <= esum,
    ;
    assert(l < 0x80_0000_0000) by (nonlinear_arith)
        requires
            l * l <= q * s,
            q * s <= esum,
            esum < 0x3000_0000_0000_0000_0000,
            l >= 0,
    ;

    // The normalized components and their scaled remainders.
    assert(len3(a) == l);
    let n = normalize3(a);
    lemma_norm_component(a.x, l);
    lemma_norm_component(a.y, l);
    lemma_norm_component(a.z, l);
    let r1 = tdiv(a.x * s, l);
    let r2 = tdiv(a.y * s, l);
    let r3 = tdiv(a.z * s, l);
    assert(n.x == r1 && n.y == r2 && n.z == r3);
    let e1 = a.x * s - l * r1;
    let e2 = a.y * s - l * r2;
    let e3 = a.z * s - l * r3;

    // Expand each squared component.
    lemma_component_square(a.x, l, r1, e1);
    lemma_component_square(a.y, l, r2, e2);
    lemma_component_square(a.z, l, r3, e3);
    let ns = r1 * r1 + r2 * r2 + r3 * r3;
    assert(l * l * ns == l * l * (r1 * r1) + l * l * (r2 * r2) + l * l * (r3 * r3))
        by (nonlinear_arith)
        requires
            ns == r1 * r1 + r2 * r2 + r3 * r3,
    ;
    let pp = a.x * e1 + a.y * e2 + a.z * e3;
    let qq = e1 * e1 + e2 * e2 + e3 * e3;
    assert(l * l * ns == s * s * esum - 2 * s * pp + qq);
    assert(qq < 3 * (l * l)) by (nonlinear_arith)
        requires
            iabs(e1) < l,
            iabs(e2) < l,
            iabs(e3) < l,
            iabs(e1) == if e1 < 0 { -e1 } else { e1 },
            iabs(e2) == if e2 < 0 { -e2 } else { e2 },
            iabs(e3) == if e3 < 0 { -e3 } else { e3 },
            qq == e1 * e1 + e2 * e2 + e3 * e3,
            l > 0,
    ;
    assert(qq >= 0) by (nonlinear_arith)
        requires
            qq == e1 * e1 + e2 * e2 + e3 * e3,
    ;

    // Bound the mixed term by the component magnitudes.
    assert((l + 1) * (l + 1) + 3 * s <= (l + 5) * (l + 5)) by (nonlinear_arith)
        requires
            2 * l >= s,
            s == 65536,
    ;
    crate::fixed::lemma_iabs_mul(a.x, a.x);
    crate::fixed::lemma_iabs_mul(a.y, a.y);
    crate::fixed::lemma_iabs_mul(a.z, a.z);
    assert(esum < (l + 5) * (l + 5));
    assert(iabs(a.x) <= l + 4) by (nonlinear_arith)
        requires
            iabs(a.x) * iabs(a.x) <= esum,
            esum < (l + 5) * (l + 5),
            iabs(a.x) >= 0,
            l >= 0,
    ;
    assert(iabs(a.y) <= l + 4) by (nonlinear_arith)
        requires
            iabs(a.y) * iabs(a.y) <= esum,
            esum < (l + 5) * (l + 5),
            iabs(a.y) >= 0,
            l >= 0,
    ;
    assert(iabs(a.z) <= l + 4) by (nonlinear_arith)
        requires
            iabs(a.z) * iabs(a.z) <= esum,
            esum < (l + 5) * (l + 5),
            iabs(a.z) >= 0,
            l >= 0,
    ;
    assert(pp >= 0);
    lemma_mixed_bound(a.x, e1, l, l + 4);
    lemma_mixed_bound(a.y, e2, l, l + 4);
    lemma_mixed_bound(a.z, e3, l, l + 4);
    assert(pp <= 3 * ((l + 4) * l));

    // Upper bound on the exact squared length of the normalized vector.
    assert(s * s * esum < s * s * (q * s) + s * s * (3 * s)) by (nonlinear_arith)
        requires
            esum < s * q + 3 * s,
            s == 65536,
    ;
    assert(s * s * (q * s) <= s * s * ((l + 1) * (l + 1))) by (nonlinear_arith)
        requires
            q * s < (l + 1) * (l + 1),
            s == 65536,
    ;
    assert(l * l * ns < s * s * ((l + 1) * (l + 1)) + s * s * (3 * s) + 3 * (l * l));
    if ns >= s * s + 17 * s + 1 {
        assert(l * l * ns >= l * l * (s * s + 17 * s + 1)) by (nonlinear_arith)
            requires
                ns >= s * s + 17 * s + 1,
                l > 0,
        ;
        assert(l * l * (s * s + 17 * s + 1) >= s * s * ((l + 1) * (l + 1)) + s * s * (3 * s) + 3
            * (l * l)) by (nonlinear_arith)
            requires
                2 * l >= s,
                s == 65536,
        ;
        assert(false);
    }
    assert(ns <= s * s + 17 * s);

    // Lower bound on the exact squared length.
    assert(s * s * esum >= s * s * (l * l)) by (nonlinear_arith)
        requires
            esum >= q * s,
            q * s >= l * l,
            s == 65536,
    ;
    assert(l * l * ns >= s * s * (l * l) - 2 * s * (3 * ((l + 4) * l)));
    if ns <= s * s - 6 * s - 49 {
        assert(l * l * ns <= l * l * (s * s - 6 * s - 49)) by (nonlinear_arith)
            requires
                ns <= s * s - 6 * s - 49,
                l > 0,
        ;
        assert(l * l * (s * s - 6 * s - 49) < s * s * (l * l) - 2 * s * (3 * ((l + 4) * l)))
            by (nonlinear_arith)
            requires
                2 * l >= s,
                s == 65536,
        ;
        assert(false);
    }
    assert(ns >= s * s - 6 * s - 48);

    // The measured fixed-point squared length of the normalized vector.
    assert(r1 * r1 >= 0) by (nonlinear_arith);
    assert(r2 * r2 >= 0) by (nonlinear_arith);
    assert(r3 * r3 >= 0) by (nonlinear_arith);
    let t1 = tdiv(r1 * r1, s);
    let t2 = tdiv(r2 * r2, s);
    let t3 = tdiv(r3 * r3, s);
    lemma_scaled_square(r1 * r1);
    lemma_scaled_square(r2 * r2);
    lemma_scaled_square(r3 * r3);
    let t = t1 + t2 + t3;
    assert(s * t <= ns < s * t + 3 * s);
    assert(t < 0x8000_0000_0000_0000) by (nonlinear_arith)
        requires
            s * t <= ns,
            ns <= s * s + 17 * s,
            s == 65536,
            t >= 0,
    ;
    assert(norm_sq3(n) == t);
    assert(t <= s + 17) by (nonlinear_arith)
        requires
            s * t <= ns,
            ns <= s * s + 17 * s,
            s == 65536,
    ;
    assert(t >= s - 10) by (nonlinear_arith)
        requires
            ns < s * t + 3 * s,
            ns >= s * s - 6 * s - 48,
            s == 65536,
    ;
}

/// The squared length of any vector is nonnegative.
pub proof fn lemma_norm_sq_nonneg(a: V3)
    ensures
        norm_sq3(a) >= 0,
{
    assert(a.x * a.x >= 0) by (nonlinear_arith);
    assert(a.y * a.y >= 0) by (nonlinear_arith);
    assert(a.z * a.z >= 0) by (nonlinear_arith);
    crate::fixed::lemma_tdiv_mag(a.x * a.x, FX_SCALE as int);
    crate::fixed::lemma_tdiv_mag(a.y * a.y, FX_SCALE as int);
    crate::fixed::lemma_tdiv_mag(a.z * a.z, FX_SCALE as int);
    vstd::arithmetic::div_mod::lemma_div_pos_is_pos(a.x * a.x, FX_SCALE as int);
    vstd::arithmetic::div_mod::lemma_div_pos_is_pos(a.y * a.y, FX_SCALE as int);
    vstd::arithmetic::div_mod::lemma_div_pos_is_pos(a.z * a.z, FX_SCALE as int);
}

/// The fixed-point dot product of two vectors.
pub fn dot(u: &Vec3, v: &Vec3) -> (r: Fx)
    ensures
        r@ == dot3(u@, v@),
{
    let q1 = mul_scaled_i128(u.x.bits, v.x.bits);
    let q2 = mul_scaled_i128(u.y.bits, v.y.bits);
    let q3 = mul_scaled_i128(u.z.bits, v.z.bits);
    let s: i128 = q1 + q2 + q3;
    Fx { bits: sat_to_i64(s) }
}

/// The fixed-point cross product of two vectors.
pub fn cross(a: &Vec3, b: &Vec3) -> (r: Vec3)
    ensures
        r@ == cross3(a@, b@),
{
    let cx: i128 = mul_scaled_i128(a.y.bits, b.z.bits) - mul_scaled_i128(a.z.bits, b.y.bits);
    let cy: i128 = mul_scaled_i128(a.z.bits, b.x.bits) - mul_scaled_i128(a.x.bits, b.z.bits);
    let cz: i128 = mul_scaled_i128(a.x.bits, b.y.bits) - mul_scaled_i128(a.y.bits, b.x.bits);
    Vec3 {
        x: Fx { bits: sat_to_i64(cx) },
        y: Fx { bits: sat_to_i64(cy) },
        z: Fx { bits: sat_to_i64(cz) },
    }
}

/// Refraction of the unit vector `uv` at a surface with unit normal `n`,
/// for the given ratio of refraction indices.
pub fn refract(uv: Vec3, n: &Vec3, etai_over_etat: Fx) -> (r: Vec3)
    ensures
        r@ == refract3(uv@, n@, etai_over_etat@),
{
    let cos_theta = dot(&uv.neg(), n).min(Fx::one());
    let r_out_perp = uv.add(n.scale(cos_theta)).scale(etai_over_etat);
    let r_out_parallel = n.neg().scale(Fx::one().sub(r_out_perp.length_squared()).sqrt());
    r_out_perp.add(r_out_parallel)
}

} // verus!
