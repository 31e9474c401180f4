//! Saturating fixed-point scalars.
//!
//! A [`Fx`] value is a count of 1/65536 units stored in an `i64`. Every
//! operation is total: intermediate products are taken in 128-bit integers,
//! scaled back with truncation toward zero, and clamped into the `i64`
//! range. Each executable operation is specified exactly against the
//! integer-level functions in this module.

use vstd::prelude::*;

verus! {

/// Number of fixed-point units per 1.0.
pub const FX_SCALE: i64 = 65536;

/// Absolute value of an unbounded integer.
pub open spec fn iabs(a: int) -> int {
    if a < 0 { -a } else { a }
}

/// Clamp an unbounded integer into the `i64` range.
pub open spec fn sat64(x: int) -> int {
    if x > i64::MAX as int {
        i64::MAX as int
    } else if x < i64::MIN as int {
        i64::MIN as int
    } else {
        x
    }
}

/// Division truncating toward zero, the convention of the executable code.
pub open spec fn tdiv(a: int, b: int) -> int
    recommends
        b != 0,
{
    let q = iabs(a) / iabs(b);
    if (a < 0) == (b < 0) {
        q
    } else {
        -q
    }
}

/// The fixed-point product: double-width product scaled back down.
pub open spec fn fx_mul(a: int, b: int) -> int {
    sat64(tdiv(a * b, FX_SCALE as int))
}

/// The fixed-point quotient. A zero divisor saturates toward the sign of
/// the dividend, standing in for the infinities of a floating-point core.
pub open spec fn fx_div(a: int, b: int) -> int {
    if b == 0 {
        if a > 0 {
            i64::MAX as int
        } else if a < 0 {
            i64::MIN as int
        } else {
            0
        }
    } else {
        sat64(tdiv(a * (FX_SCALE as int), b))
    }
}

/// The integer square root: the largest `r` with `r * r <= n`.
pub open spec fn isqrt(n: nat) -> nat
    decreases n,
{
    if n == 0 {
        0
    } else {
        let r = isqrt((n - 1) as nat);
        if (r + 1) * (r + 1) <= n {
            (r + 1) as nat
        } else {
            r
        }
    }
}

/// The fixed-point square root: `sqrt(v / S) == isqrt(v * S) / S`.
/// Negative inputs map to zero.
pub open spec fn fx_sqrt(a: int) -> int {
    if a <= 0 {
        0
    } else {
        isqrt((a * (FX_SCALE as int)) as nat) as int
    }
}

/// `isqrt(n)` is the unique integer whose square brackets `n`.
pub proof fn lemma_isqrt_bounds(n: nat)
    ensures
        isqrt(n) * isqrt(n) <= n,
        n < (isqrt(n) as int + 1) * (isqrt(n) as int + 1),
    decreases n,
{
    if n == 0 {
        assert(isqrt(0) == 0);
    } else {
        lemma_isqrt_bounds((n - 1) as nat);
        let r = isqrt((n - 1) as nat);
        if (r as int + 1) * (r as int + 1) <= n {
            assert(isqrt(n) == r + 1);
            assert(n - 1 < (r as int + 1) * (r as int + 1));
            assert(n == (r as int + 1) * (r as int + 1));
            assert(n < (r as int + 2) * (r as int + 2)) by (nonlinear_arith)
                requires
                    n == (r as int + 1) * (r as int + 1),
                    r >= 0,
            ;
            assert(isqrt(n) as int + 1 == r as int + 2);
        } else {
            assert(isqrt(n) == r);
            assert(r * r <= n - 1);
            assert(n < (r as int + 1) * (r as int + 1));
        }
    }
}

/// Magnitude of a truncated quotient: exactly `|a| / b`, never above `|a|`.
pub proof fn lemma_tdiv_mag(a: int, b: int)
    requires
        b > 0,
    ensures
        iabs(tdiv(a, b)) == iabs(a) / b,
        iabs(tdiv(a, b)) <= iabs(a),
{
    vstd::arithmetic::div_mod::lemma_div_pos_is_pos(iabs(a), b);
    vstd::arithmetic::div_mod::lemma_div_nonincreasing(iabs(a), b);
}

/// Error of a truncated quotient: `b * tdiv(a, b)` lands within `b` of `a`
/// and never overshoots `a`'s magnitude.
pub proof fn lemma_tdiv_error(a: int, b: int)
    requires
        b > 0,
    ensures
        iabs(a - b * tdiv(a, b)) < b,
        iabs(b * tdiv(a, b)) <= iabs(a),
{
    let m = iabs(a);
    vstd::arithmetic::div_mod::lemma_fundamental_div_mod(m, b);
    vstd::arithmetic::div_mod::lemma_div_pos_is_pos(m, b);
    assert(m == b * (m / b) + m % b);
    assert(0 <= m % b < b);
    assert(b * (m / b) <= m);
    if a >= 0 {
        assert(tdiv(a, b) == m / b);
    } else {
        assert(tdiv(a, b) == -(m / b));
        assert(b * tdiv(a, b) == -(b * (m / b))) by (nonlinear_arith)
            requires
                tdiv(a, b) == -(m / b),
        ;
    }
}

/// The remainder of a truncated quotient never crosses zero: it has the
/// sign of the dividend.
pub proof fn lemma_tdiv_remainder_sign(a: int, b: int)
    requires
        b > 0,
    ensures
        a >= 0 ==> 0 <= a - b * tdiv(a, b),
        a <= 0 ==> a - b * tdiv(a, b) <= 0,
{
    let m = iabs(a);
    vstd::arithmetic::div_mod::lemma_fundamental_div_mod(m, b);
    vstd::arithmetic::div_mod::lemma_div_pos_is_pos(m, b);
    assert(m == b * (m / b) + m % b);
    assert(0 <= m % b);
    if a >= 0 {
        assert(tdiv(a, b) == m / b);
    } else {
        assert(tdiv(a, b) == -(m / b));
        assert(b * (-(m / b)) == -(b * (m / b))) by (nonlinear_arith);
    }
}

/// The magnitude of a product is the product of the magnitudes.
pub proof fn lemma_iabs_mul(a: int, b: int)
    ensures
        iabs(a * b) == iabs(a) * iabs(b),
{
    assert(iabs(a * b) == iabs(a) * iabs(b)) by (nonlinear_arith)
        requires
            iabs(a) == if a < 0 { -a } else { a },
            iabs(b) == if b < 0 { -b } else { b },
            iabs(a * b) == if a * b < 0 { -(a * b) } else { a * b },
    ;
}

/// Bounds multiply: a product's magnitude is at most the product of the
/// factors' magnitude bounds.
pub proof fn lemma_iabs_mul_bound(x: int, y: int, bx: int, by: int)
    requires
        iabs(x) <= bx,
        iabs(y) <= by,
    ensures
        iabs(x * y) <= bx * by,
{
    lemma_iabs_mul(x, y);
    assert(iabs(x) * iabs(y) <= bx * by) by (nonlinear_arith)
        requires
            0 <= iabs(x) <= bx,
            0 <= iabs(y) <= by,
    ;
}

/// The product of two `i64`-range integers stays well inside the `i128` range.
pub(crate) proof fn lemma_i64_product_in_i128(a: int, b: int)
    requires
        i64::MIN as int <= a <= i64::MAX as int,
        i64::MIN as int <= b <= i64::MAX as int,
    ensures
        i128::MIN < a * b,
        a * b < i128::MAX,
        iabs(a * b) <= 0x4000_0000_0000_0000_0000_0000_0000_0000,
{
    assert(-0x4000_0000_0000_0000_0000_0000_0000_0000 <= a * b
        <= 0x4000_0000_0000_0000_0000_0000_0000_0000) by (nonlinear_arith)
        requires
            -0x8000_0000_0000_0000 <= a <= 0x7fff_ffff_ffff_ffff,
            -0x8000_0000_0000_0000 <= b <= 0x7fff_ffff_ffff_ffff,
    ;
}

/// Every fixed-point quotient lands inside the `i64` range.
pub proof fn lemma_fx_div_range(a: int, b: int)
    ensures
        i64::MIN as int <= fx_div(a, b) <= i64::MAX as int,
{
}

/// Any integer whose square brackets `n` equals `isqrt(n)`.
pub proof fn lemma_isqrt_unique(n: nat, r: nat)
    requires
        r * r <= n,
        n < (r + 1) * (r + 1),
    ensures
        r == isqrt(n),
{
    lemma_isqrt_bounds(n);
    let s = isqrt(n);
    if r < s {
        assert((r + 1) * (r + 1) <= s * s) by (nonlinear_arith)
            requires
                r + 1 <= s,
                r >= 0,
        ;
    } else if s < r {
        assert((s + 1) * (s + 1) <= r * r) by (nonlinear_arith)
            requires
                s + 1 <= r,
                s >= 0,
        ;
    }
}

/// The scalar whose raw bits are the (in-range) integer `bits`.
pub open spec fn fx_of(bits: int) -> Fx {
    Fx { bits: bits as i64 }
}

/// A saturating fixed-point scalar: `bits` counts of 1/65536.
#[derive(Clone, Copy, Debug, PartialEq, Eq, Structural)]
pub struct Fx {
    /// The raw count of 1/65536 units.
    pub bits: i64,
}

impl View for Fx {
    type V = int;

    open spec fn view(&self) -> int {
        self.bits as int
    }
}

/// Clamp a 128-bit value into the `i64` range.
pub(crate) fn sat_to_i64(x: i128) -> (r: i64)
    ensures
        r as int == sat64(x as int),
{
    if x > i64::MAX as i128 {
        i64::MAX
    } else if x < i64::MIN as i128 {
        i64::MIN
    } else {
        x as i64
    }
}

/// 128-bit division truncating toward zero, via unsigned magnitudes.
fn tdiv_i128(a: i128, b: i128) -> (r: i128)
    requires
        b != 0,
        a > i128::MIN,
        b > i128::MIN,
    ensures
        r as int == tdiv(a as int, b as int),
{
    let ua: u128 = if a < 0 {
        (-a) as u128
    } else {
        a as u128
    };
    let ub: u128 = if b < 0 {
        (-b) as u128
    } else {
        b as u128
    };
    let uq: u128 = ua / ub;
    assert(uq == iabs(a as int) / iabs(b as int));
    assert(uq <= ua) by (nonlinear_arith)
        requires
            uq == ua / ub,
            ub >= 1,
    ;
    if (a < 0) != (b < 0) {
        -(uq as i128)
    } else {
        uq as i128
    }
}

/// The scaled-product step shared by the vector routines:
/// `tdiv(a * b, FX_SCALE)` in 128-bit arithmetic, with a magnitude bound
/// loose enough that a few such terms can be summed without overflow.
pub(crate) fn mul_scaled_i128(a: i64, b: i64) -> (r: i128)
    ensures
        r as int == tdiv((a as int) * (b as int), FX_SCALE as int),
        iabs(r as int) < 0x8000_0000_0000_0000_0000_0000_0000,
{
    proof {
        lemma_i64_product_in_i128(a as int, b as int);
    }
    let p: i128 = (a as i128) * (b as i128);
    let q = tdiv_i128(p, FX_SCALE as i128);
    proof {
        lemma_tdiv_mag(p as int, FX_SCALE as int);
        vstd::arithmetic::div_mod::lemma_div_is_ordered(
            iabs(p as int),
            0x4000_0000_0000_0000_0000_0000_0000_0000,
            FX_SCALE as int,
        );
    }
    q
}

impl Fx {
    /// The scalar with the given raw count of 1/65536 units.
    pub fn from_bits(bits: i64) -> (r: Fx)
        ensures
            r@ == bits as int,
    {
        Fx { bits }
    }

    /// The whole number `v`, saturated.
    pub fn from_int(v: i64) -> (r: Fx)
        ensures
            r@ == sat64(v * (FX_SCALE as int)),
    {
        proof {
            lemma_i64_product_in_i128(v as int, FX_SCALE as int);
        }
        let p: i128 = (v as i128) * (FX_SCALE as i128);
        Fx { bits: sat_to_i64(p) }
    }

    /// The ratio `num / den` as a fixed-point value.
    pub fn from_ratio(num: i64, den: i64) -> (r: Fx)
        ensures
            r@ == fx_div(num as int, den as int),
    {
        Fx::from_bits(num).div(Fx { bits: den })
    }

    /// Zero.
    pub fn zero() -> (r: Fx)
        ensures
            r@ == 0,
    {
        Fx { bits: 0 }
    }

    /// One.
    pub fn one() -> (r: Fx)
        ensures
            r@ == FX_SCALE as int,
    {
        Fx { bits: FX_SCALE }
    }

    /// The largest representable value, standing in for infinity.
    pub fn max_value() -> (r: Fx)
        ensures
            r@ == i64::MAX as int,
    {
        Fx { bits: i64::MAX }
    }

    /// Saturating sum.
    pub fn add(self, rhs: Fx) -> (r: Fx)
        ensures
            r@ == sat64(self@ + rhs@),
    {
        let s: i128 = (self.bits as i128) + (rhs.bits as i128);
        Fx { bits: sat_to_i64(s) }
    }

    /// Saturating difference.
    pub fn sub(self, rhs: Fx) -> (r: Fx)
        ensures
            r@ == sat64(self@ - rhs@),
    {
        let s: i128 = (self.bits as i128) - (rhs.bits as i128);
        Fx { bits: sat_to_i64(s) }
    }

    /// Saturating negation.
    pub fn neg(self) -> (r: Fx)
        ensures
            r@ == sat64(-self@),
    {
        let s: i128 = -(self.bits as i128);
        Fx { bits: sat_to_i64(s) }
    }

    /// Saturating fixed-point product.
    pub fn mul(self, rhs: Fx) -> (r: Fx)
        ensures
            r@ == fx_mul(self@, rhs@),
    {
        proof {
            lemma_i64_product_in_i128(self.bits as int, rhs.bits as int);
        }
        let p: i128 = (self.bits as i128) * (rhs.bits as i128);
        let q = tdiv_i128(p, FX_SCALE as i128);
        Fx { bits: sat_to_i64(q) }
    }

    /// Saturating fixed-point quotient; a zero divisor saturates toward
    /// the sign of the dividend.
    pub fn div(self, rhs: Fx) -> (r: Fx)
        ensures
            r@ == fx_div(self@, rhs@),
    {
        if rhs.bits == 0 {
            if self.bits > 0 {
                Fx { bits: i64::MAX }
            } else if self.bits < 0 {
                Fx { bits: i64::MIN }
            } else {
                Fx { bits: 0 }
            }
        } else {
            proof {
                lemma_i64_product_in_i128(self.bits as int, FX_SCALE as int);
            }
            let a: i128 = (self.bits as i128) * (FX_SCALE as i128);
            let q = tdiv_i128(a, rhs.bits as i128);
            Fx { bits: sat_to_i64(q) }
        }
    }

    /// Fixed-point square root; negative inputs map to zero.
    pub fn sqrt(self) -> (r: Fx)
        ensures
            r@ == fx_sqrt(self@),
    {
        if self.bits <= 0 {
            Fx { bits: 0 }
        } else {
            let n: u128 = (self.bits as u128) * (FX_SCALE as u128);
            let s = isqrt_u128(n);
            proof {
                lemma_isqrt_unique(n as nat, s as nat);
                assert(s * s <= n < 0x1_0000_0000_0000_0000_0000u128);
                assert(s < 0x1_00_0000_0000u128) by (nonlinear_arith)
                    requires
                        s * s <= n,
                        n < 0x1_0000_0000_0000_0000_0000u128,
                        s >= 0,
                ;
            }
            Fx { bits: s as i64 }
        }
    }

    /// Absolute value, saturating.
    pub fn abs(self) -> (r: Fx)
        ensures
            r@ == sat64(iabs(self@)),
    {
        if self.bits < 0 {
            self.neg()
        } else {
            self
        }
    }

    /// The smaller of two values.
    pub fn min(self, rhs: Fx) -> (r: Fx)
        ensures
            r@ == if self@ <= rhs@ { self@ } else { rhs@ },
    {
        if self.bits <= rhs.bits {
            self
        } else {
            rhs
        }
    }

    /// The larger of two values.
    pub fn max(self, rhs: Fx) -> (r: Fx)
        ensures
            r@ == if self@ >= rhs@ { self@ } else { rhs@ },
    {
        if self.bits >= rhs.bits {
            self
        } else {
            rhs
        }
    }

    /// Strictly less than.
    pub fn lt(self, rhs: Fx) -> (r: bool)
        ensures
            r == (self@ < rhs@),
    {
        self.bits < rhs.bits
    }

    /// Less than or equal.
    pub fn le(self, rhs: Fx) -> (r: bool)
        ensures
            r == (self@ <= rhs@),
    {
        self.bits <= rhs.bits
    }

    /// Strictly greater than.
    pub fn gt(self, rhs: Fx) -> (r: bool)
        ensures
            r == (self@ > rhs@),
    {
        self.bits > rhs.bits
    }

    /// Greater than or equal.
    pub fn ge(self, rhs: Fx) -> (r: bool)
        ensures
            r == (self@ >= rhs@),
    {
        self.bits >= rhs.bits
    }
}

/// Degrees to radians: the fixed-point image of pi / 180.
pub const DEG_TO_RAD_BITS: i64 = 1144;

/// The truncated Taylor sine: `x - x^3/6 + x^5/120 - x^7/5040` in fixed
/// point, accurate to a few units near the origin (used for angles below
/// a right angle).
pub open spec fn sin3(x: int) -> int {
    let x2 = fx_mul(x, x);
    let x3 = fx_mul(x2, x);
    let x5 = fx_mul(x3, x2);
    let x7 = fx_mul(x5, x2);
    sat64(
        sat64(sat64(x - fx_div(x3, 6 * (FX_SCALE as int))) + fx_div(x5, 120 * (FX_SCALE as int)))
            - fx_div(x7, 5040 * (FX_SCALE as int)),
    )
}

/// The truncated Taylor cosine: `1 - x^2/2 + x^4/24 - x^6/720` in fixed
/// point.
pub open spec fn cos3(x: int) -> int {
    let x2 = fx_mul(x, x);
    let x4 = fx_mul(x2, x2);
    let x6 = fx_mul(x4, x2);
    sat64(
        sat64(sat64(FX_SCALE - fx_div(x2, 2 * (FX_SCALE as int))) + fx_div(
            x4,
            24 * (FX_SCALE as int),
        )) - fx_div(x6, 720 * (FX_SCALE as int)),
    )
}

/// The tangent as the quotient of the Taylor sine and cosine.
pub open spec fn tan3(x: int) -> int {
    fx_div(sin3(x), cos3(x))
}

impl Fx {
    /// The angle in radians of a value in degrees.
    pub fn to_radians(self) -> (r: Fx)
        ensures
            r@ == fx_mul(self@, DEG_TO_RAD_BITS as int),
    {
        self.mul(Fx { bits: DEG_TO_RAD_BITS })
    }

    /// The truncated Taylor sine.
    pub fn sin(self) -> (r: Fx)
        ensures
            r@ == sin3(self@),
    {
        let x2 = self.mul(self);
        let x3 = x2.mul(self);
        let x5 = x3.mul(x2);
        let x7 = x5.mul(x2);
        self.sub(x3.div(Fx::from_int(6))).add(x5.div(Fx::from_int(120))).sub(
            x7.div(Fx::from_int(5040)),
        )
    }

    /// The truncated Taylor cosine.
    pub fn cos(self) -> (r: Fx)
        ensures
            r@ == cos3(self@),
    {
        let x2 = self.mul(self);
        let x4 = x2.mul(x2);
        let x6 = x4.mul(x2);
        Fx::one().sub(x2.div(Fx::from_int(2))).add(x4.div(Fx::from_int(24))).sub(
            x6.div(Fx::from_int(720)),
        )
    }

    /// The tangent: sine over cosine.
    pub fn tan(self) -> (r: Fx)
        ensures
            r@ == tan3(self@),
    {
        self.sin().div(self.cos())
    }
}

/// Binary search for the integer square root of a 128-bit value.
fn isqrt_u128(n: u128) -> (r: u128)
    ensures
        r * r <= n,
        n < (r + 1) * (r + 1),
{
    let mut lo: u128 = 0;
    let mut hi: u128 = 0x1_0000_0000_0000_0000u128;
    proof {
        assert(n < hi * hi) by (nonlinear_arith)
            requires
                hi == 0x1_0000_0000_0000_0000u128,
                n <= u128::MAX,
        ;
    }
    while lo + 1 < hi
        invariant
            lo < hi,
            hi <= 0x1_0000_0000_0000_0000u128,
            lo * lo <= n,
            n < hi * hi,
        decreases hi - lo,
    {
        let mid = lo + (hi - lo) / 2;
        proof {
            assert(mid * mid <= u128::MAX) by (nonlinear_arith)
                requires
                    mid < 0x1_0000_0000_0000_0000u128,
            ;
        }
        if mid * mid <= n {
            lo = mid;
        } else {
            hi = mid;
        }
    }
    lo
}

} // verus!
