//! Fixed-point scalar arithmetic.
//!
//! A [`Fx`] holds an `i64` count of 1/65536 units: the value it stands for is
//! `raw / SCALE`.  Multiplication, division and square root truncate toward
//! zero, and each executable operation is specified exactly by the spec
//! functions [`fx_mul`], [`fx_div`] and [`fx_sqrt`] over the raw counts.

use vstd::arithmetic::div_mod::{
    lemma_div_is_ordered, lemma_div_is_ordered_by_denominator, lemma_div_nonincreasing,
    lemma_div_pos_is_pos, lemma_fundamental_div_mod, lemma_mod_bound,
};
use vstd::arithmetic::mul::{lemma_mul_inequality, lemma_mul_upper_bound};
use vstd::math::abs;
use vstd::prelude::*;

verus! {

/// Number of raw steps per unit: a raw count `r` stands for the value `r / 65536`.
pub const SCALE: i64 = 65536;

/// A symmetric range check: `x` fits an `i64` (the sign-magnitude
/// representation used by the executable operations excludes `i64::MIN`).
pub open spec fn fits(x: int) -> bool {
    -0x7fff_ffff_ffff_ffff <= x <= 0x7fff_ffff_ffff_ffff
}

/// Quotient of `n` by `d`, truncated toward zero (the rounding used by the
/// executable operations), defined for `d != 0`.
pub open spec fn tquot(n: int, d: int) -> int {
    if (n >= 0) == (d >= 0) {
        (abs(n) / abs(d)) as int
    } else {
        -((abs(n) / abs(d)) as int)
    }
}

/// Raw count of the product of two fixed-point values.
pub open spec fn fx_mul(a: int, b: int) -> int {
    tquot(a * b, SCALE as int)
}

/// Raw count of the quotient of two fixed-point values, for `b != 0`.
pub open spec fn fx_div(a: int, b: int) -> int {
    tquot(a * SCALE, b)
}

/// `r` is the integer square root of `n`: the largest integer whose square
/// does not exceed `n`.
pub open spec fn is_sqrt(n: int, r: int) -> bool {
    0 <= r && r * r <= n && n < (r + 1) * (r + 1)
}

/// The integer square root of `n` (meaningful for `n >= 0`; see
/// [`lemma_sqrt_floor`]).
pub open spec fn sqrt_floor(n: int) -> int {
    choose|r: int| is_sqrt(n, r)
}

/// Raw count of the square root of a nonnegative fixed-point value.
pub open spec fn fx_sqrt(a: int) -> int {
    sqrt_floor(a * SCALE)
}

/// Every nonnegative integer has an integer square root.
pub proof fn lemma_sqrt_floor(n: int)
    requires
        n >= 0,
    ensures
        is_sqrt(n, sqrt_floor(n)),
    decreases n,
{
    if n == 0 {
        assert(is_sqrt(0, 0));
    } else {
        lemma_sqrt_floor(n - 1);
        let r = sqrt_floor(n - 1);
        if (r + 1) * (r + 1) <= n {
            assert(n - 1 < (r + 1) * (r + 1));
            assert(n == (r + 1) * (r + 1));
            assert((r + 2) * (r + 2) > n) by (nonlinear_arith)
                requires n == (r + 1) * (r + 1) && r >= 0;
            assert(is_sqrt(n, r + 1));
        } else {
            assert(is_sqrt(n, r));
        }
    }
    assert(exists|x: int| is_sqrt(n, x));
}

/// Squaring is monotone on nonnegative integers.
pub proof fn lemma_sq_mono(a: int, b: int)
    requires
        0 <= a <= b,
    ensures
        a * a <= b * b,
{
    lemma_mul_inequality(a, b, a);
    lemma_mul_inequality(a, b, b);
}

/// The integer square root is unique.
pub proof fn lemma_sqrt_unique(n: int, r: int)
    requires
        is_sqrt(n, r),
    ensures
        r == sqrt_floor(n),
{
    assert(exists|x: int| is_sqrt(n, x));
    let s = sqrt_floor(n);
    assert(is_sqrt(n, s));
    if r < s {
        lemma_sq_mono(r + 1, s);
        assert(false);
    }
    if s < r {
        lemma_sq_mono(s + 1, r);
        assert(false);
    }
}

/// The magnitude of a product is the product of the magnitudes, and the sign
/// of a product follows the signs of its factors.
pub proof fn lemma_abs_mul(a: int, b: int)
    ensures
        abs(a * b) == abs(a) * abs(b),
        ((a >= 0) == (b >= 0)) ==> a * b >= 0,
        ((a >= 0) != (b >= 0)) ==> a * b <= 0,
{
    assert(abs(a * b) == abs(a) * abs(b)
        && (((a >= 0) == (b >= 0)) ==> a * b >= 0)
        && (((a >= 0) != (b >= 0)) ==> a * b <= 0)) by (nonlinear_arith);
}

/// Truncating division by a positive divisor is monotone.
pub proof fn lemma_tquot_mono(n1: int, n2: int, d: int)
    requires
        n1 <= n2,
        d > 0,
    ensures
        tquot(n1, d) <= tquot(n2, d),
{
    if n1 >= 0 {
        lemma_div_is_ordered(n1, n2, d);
    } else if n2 < 0 {
        lemma_div_is_ordered(-n2, -n1, d);
    } else {
        lemma_div_pos_is_pos(-n1, d);
        lemma_div_pos_is_pos(n2, d);
    }
}

/// A bound on the numerator bounds a truncating quotient.
pub proof fn lemma_tquot_bound(n: int, d: int, m: int)
    requires
        abs(n) <= m,
        d >= 1,
    ensures
        abs(tquot(n, d)) <= m / d,
        abs(tquot(n, d)) <= m,
        m / d <= m,
{
    lemma_div_is_ordered(abs(n) as int, m, d);
    lemma_div_nonincreasing(m, d);
    lemma_div_pos_is_pos(abs(n) as int, d);
}

/// A bound on the numerator and a lower bound on the divisor's magnitude
/// bound a truncating quotient.
pub proof fn lemma_tquot_bound_div(n: int, d: int, m: int, dmin: int)
    requires
        abs(n) <= m,
        1 <= dmin <= abs(d),
    ensures
        abs(tquot(n, d)) <= m / dmin,
        abs(tquot(n, d)) <= m,
{
    lemma_div_is_ordered(abs(n) as int, m, abs(d) as int);
    lemma_div_is_ordered_by_denominator(m, dmin, abs(d) as int);
    lemma_div_nonincreasing(m, dmin);
}

/// A product of bounded factors is bounded by the product of the bounds.
pub proof fn lemma_mul_abs_bound(a: int, b: int, ma: int, mb: int)
    requires
        abs(a) <= ma,
        abs(b) <= mb,
    ensures
        abs(a * b) <= ma * mb,
        -(ma * mb) <= a * b <= ma * mb,
{
    lemma_abs_mul(a, b);
    lemma_mul_upper_bound(abs(a) as int, ma, abs(b) as int, mb);
}

/// Truncating division leaves a remainder smaller than the divisor:
/// `|n - d * tquot(n, d)| < |d|`.
pub proof fn lemma_tquot_rem(n: int, d: int)
    requires
        d >= 1,
    ensures
        abs(n - d * tquot(n, d)) < d,
{
    lemma_fundamental_div_mod(abs(n) as int, d);
    lemma_mod_bound(abs(n) as int, d);
    if n >= 0 {
        assert(n == d * tquot(n, d) + (abs(n) as int) % d);
    } else {
        assert(abs(n) as int == d * ((abs(n) as int) / d) + (abs(n) as int) % d);
        assert(n == -(abs(n) as int));
        assert(tquot(n, d) == -((abs(n) as int) / d));
        assert(d * tquot(n, d) == -(d * ((abs(n) as int) / d))) by (nonlinear_arith)
            requires
                tquot(n, d) == -((abs(n) as int) / d),
        ;
        assert(n - d * tquot(n, d) == -((abs(n) as int) % d));
    }
}

/// A scalar determines its model and the model determines the scalar: two
/// scalars with the same raw count are bit-identical.  Together with the
/// exact contracts of the operations, this makes every pure operation
/// deterministic: two results of the same operation on the same inputs have
/// the same model, hence are the same value.
pub proof fn lemma_fx_determined(a: Fx, b: Fx)
    requires
        a@ == b@,
    ensures
        a == b,
{
}

/// `x` clamped to `[lo, hi]`.
pub open spec fn clamp_fx(x: int, lo: int, hi: int) -> int {
    if x < lo {
        lo
    } else if x > hi {
        hi
    } else {
        x
    }
}

/// A fixed-point scalar: `raw` counts of 1/65536.
#[derive(Clone, Copy, Debug, PartialEq, Eq, Structural)]
pub struct Fx {
    raw: i64,
}

impl View for Fx {
    type V = int;

    closed spec fn view(&self) -> int {
        self.raw as int
    }
}

/// The magnitude of an `i64`, as a `u64`.
fn mag64(x: i64) -> (m: u64)
    ensures
        m == abs(x as int),
{
    if x >= 0 {
        x as u64
    } else {
        (-(x as i128)) as u64
    }
}

impl Fx {
    /// The scalar with the given raw count of 1/65536 units.
    pub fn from_raw(raw: i64) -> (r: Fx)
        ensures
            r@ == raw as int,
    {
        Fx { raw }
    }

    /// The raw count of this scalar.
    pub fn raw(self) -> (r: i64)
        ensures
            r as int == self@,
    {
        self.raw
    }

    /// The scalar standing for the whole number `units`.
    pub fn from_int(units: i32) -> (r: Fx)
        ensures
            r@ == units * (SCALE as int),
    {
        Fx { raw: (units as i64) * SCALE }
    }

    /// Exact sum.
    pub fn add(self, o: Fx) -> (r: Fx)
        requires
            fits(self@ + o@),
        ensures
            r@ == self@ + o@,
    {
        Fx { raw: self.raw + o.raw }
    }

    /// Exact difference.
    pub fn sub(self, o: Fx) -> (r: Fx)
        requires
            fits(self@ - o@),
        ensures
            r@ == self@ - o@,
    {
        Fx { raw: self.raw - o.raw }
    }

    /// Exact negation.
    pub fn neg(self) -> (r: Fx)
        requires
            fits(self@),
        ensures
            r@ == -self@,
    {
        Fx { raw: -self.raw }
    }

    /// Truncating fixed-point product.
    pub fn mul(self, o: Fx) -> (r: Fx)
        requires
            fits(fx_mul(self@, o@)),
        ensures
            r@ == fx_mul(self@, o@),
    {
        let ma = mag64(self.raw);
        let mb = mag64(o.raw);
        proof {
            lemma_abs_mul(self@, o@);
            lemma_mul_upper_bound(
                ma as int,
                0x8000_0000_0000_0000,
                mb as int,
                0x8000_0000_0000_0000,
            );
            assert((0x8000_0000_0000_0000 as int) * 0x8000_0000_0000_0000
                == 0x4000_0000_0000_0000_0000_0000_0000_0000) by (nonlinear_arith);
        }
        let prod: u128 = (ma as u128) * (mb as u128);
        let q: u128 = prod / 65536;
        proof {
            assert(abs(self@ * o@) == prod);
            assert(abs(fx_mul(self@, o@)) == q);
        }
        let qi = q as i64;
        if (self.raw < 0) != (o.raw < 0) {
            Fx { raw: -qi }
        } else {
            Fx { raw: qi }
        }
    }

    /// Truncating fixed-point quotient.
    pub fn div(self, o: Fx) -> (r: Fx)
        requires
            o@ != 0,
            fits(fx_div(self@, o@)),
        ensures
            r@ == fx_div(self@, o@),
    {
        let ma = mag64(self.raw);
        let mb = mag64(o.raw);
        proof {
            lemma_abs_mul(self@, SCALE as int);
            lemma_mul_upper_bound(ma as int, 0x8000_0000_0000_0000, 65536, 65536);
        }
        let num: u128 = (ma as u128) * 65536;
        let q: u128 = num / (mb as u128);
        proof {
            assert(abs(self@ * SCALE) == num);
            assert(abs(fx_div(self@, o@)) == q);
        }
        let qi = q as i64;
        if (self.raw < 0) != (o.raw < 0) {
            Fx { raw: -qi }
        } else {
            Fx { raw: qi }
        }
    }

    /// Truncating fixed-point square root of a nonnegative scalar.
    pub fn sqrt(self) -> (r: Fx)
        requires
            self@ >= 0,
        ensures
            r@ == fx_sqrt(self@),
            is_sqrt(self@ * SCALE, r@),
    {
        proof {
            lemma_mul_upper_bound(self@, 0x8000_0000_0000_0000, 65536, 65536);
        }
        let n: u128 = (self.raw as u128) * 65536;
        let root = isqrt_u128(n);
        proof {
            let rt = sqrt_floor(n as int);
            if rt > 0x7fff_ffff_ffff_ffff {
                lemma_sq_mono(0x8000_0000_0000_0000, rt);
                assert(false);
            }
        }
        Fx { raw: root as i64 }
    }

    /// Comparison: `self < o`.
    pub fn lt(self, o: Fx) -> (b: bool)
        ensures
            b == (self@ < o@),
    {
        self.raw < o.raw
    }

    /// Comparison: `self <= o`.
    pub fn le(self, o: Fx) -> (b: bool)
        ensures
            b == (self@ <= o@),
    {
        self.raw <= o.raw
    }

    /// Comparison: `self > o`.
    pub fn gt(self, o: Fx) -> (b: bool)
        ensures
            b == (self@ > o@),
    {
        self.raw > o.raw
    }
}

/// Scales a wide intermediate product down to a fixed-point scalar.
pub(crate) fn scale_down_i128(n: i128) -> (r: Fx)
    requires
        -0x8000_0000_0000_0000_0000_0000_0000_0000 < n,
        fits(tquot(n as int, SCALE as int)),
    ensures
        r@ == tquot(n as int, SCALE as int),
{
    let m: u128 = if n >= 0 {
        n as u128
    } else {
        (-n) as u128
    };
    let q: u128 = m / 65536;
    proof {
        assert(abs(n as int) == m);
        assert(abs(tquot(n as int, SCALE as int)) == q);
    }
    let qi = q as i64;
    if n < 0 {
        Fx { raw: -qi }
    } else {
        Fx { raw: qi }
    }
}

/// `x` clamped to `[lo, hi]`.
pub fn clamp(x: Fx, lo: Fx, hi: Fx) -> (r: Fx)
    ensures
        r@ == clamp_fx(x@, lo@, hi@),
{
    if x.lt(lo) {
        lo
    } else if x.gt(hi) {
        hi
    } else {
        x
    }
}

/// Integer square root by bisection.
fn isqrt_u128(n: u128) -> (r: u64)
    requires
        (n as int) < 0x4000_0000_0000_0000_0000_0000_0000_0000,
    ensures
        r == sqrt_floor(n as int),
        is_sqrt(n as int, r as int),
{
    let mut lo: u128 = 0;
    let mut hi: u128 = 0x8000_0000_0000_0000;
    proof {
        assert((0x8000_0000_0000_0000 as int) * (0x8000_0000_0000_0000 as int)
            == 0x4000_0000_0000_0000_0000_0000_0000_0000) by (nonlinear_arith);
    }
    while hi - lo > 1
        invariant
            lo * lo <= n,
            (n as int) < hi * hi,
            lo < hi <= 0x8000_0000_0000_0000,
        decreases hi - lo,
    {
        let mid = lo + (hi - lo) / 2;
        proof {
            lemma_sq_mono(mid as int, 0x8000_0000_0000_0000);
        }
        if mid * mid <= n {
            lo = mid;
        } else {
            hi = mid;
        }
    }
    proof {
        assert(is_sqrt(n as int, lo as int));
        lemma_sqrt_unique(n as int, lo as int);
    }
    lo as u64
}

} // verus!
