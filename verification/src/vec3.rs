//! Three-component vectors over fixed-point scalars, used interchangeably as
//! points, directions and linear colors (components then read as r/g/b).
//!
//! The mathematical model of a [`Vec3`] is the ghost triple [`V3`] of raw
//! counts; every executable operation is specified exactly by a spec function
//! over that model.  Additions and subtractions are exact; products,
//! quotients and square roots truncate as described in [`crate::fixed`].

use crate::fixed::{
    fits, fx_div, fx_mul, fx_sqrt, lemma_mul_abs_bound, lemma_sq_mono, lemma_sqrt_floor,
    lemma_tquot_bound, lemma_tquot_bound_div, scale_down_i128, tquot, Fx, SCALE,
};
use vstd::arithmetic::div_mod::{
    lemma_div_is_ordered, lemma_div_pos_is_pos, lemma_fundamental_div_mod,
};
use vstd::arithmetic::mul::{
    lemma_mul_is_associative, lemma_mul_is_commutative, lemma_mul_is_distributive_add,
};
use vstd::math::abs;
use vstd::prelude::*;
use vstd::string::StringSliceAdditionalSpecFns;

verus! {

/// Largest component magnitude accepted by the dot/cross/length operations:
/// keeps every intermediate product inside an `i128` and every result inside
/// an `i64` without further conditions.
pub const GEOM_MAX: i64 = 0x40_0000_0000;

/// The mathematical model of a vector: the three raw counts.
pub ghost struct V3 {
    pub x: int,
    pub y: int,
    pub z: int,
}

/// Componentwise sum (exact).
pub open spec fn v3_add(a: V3, b: V3) -> V3 {
    V3 { x: a.x + b.x, y: a.y + b.y, z: a.z + b.z }
}

/// Componentwise difference (exact).
pub open spec fn v3_sub(a: V3, b: V3) -> V3 {
    V3 { x: a.x - b.x, y: a.y - b.y, z: a.z - b.z }
}

/// Componentwise negation (exact).
pub open spec fn v3_neg(a: V3) -> V3 {
    V3 { x: -a.x, y: -a.y, z: -a.z }
}

/// Componentwise truncating product.
pub open spec fn v3_mul(a: V3, b: V3) -> V3 {
    V3 { x: fx_mul(a.x, b.x), y: fx_mul(a.y, b.y), z: fx_mul(a.z, b.z) }
}

/// Componentwise truncating quotient.
pub open spec fn v3_div(a: V3, b: V3) -> V3 {
    V3 { x: fx_div(a.x, b.x), y: fx_div(a.y, b.y), z: fx_div(a.z, b.z) }
}

/// Scaling by a fixed-point scalar (truncating).
pub open spec fn v3_scale(k: int, a: V3) -> V3 {
    V3 { x: fx_mul(k, a.x), y: fx_mul(k, a.y), z: fx_mul(k, a.z) }
}

/// Division of every component by a fixed-point scalar (truncating).
pub open spec fn v3_div_scalar(a: V3, k: int) -> V3 {
    V3 { x: fx_div(a.x, k), y: fx_div(a.y, k), z: fx_div(a.z, k) }
}

/// The exact (unscaled) inner product of the raw counts: `SCALE` times too
/// large, rescaled by [`dot3`].
pub open spec fn dot_num(a: V3, b: V3) -> int {
    a.x * b.x + a.y * b.y + a.z * b.z
}

/// Fixed-point dot product: the exact sum of products, rescaled once.
pub open spec fn dot3(a: V3, b: V3) -> int {
    tquot(dot_num(a, b), SCALE as int)
}

/// The exact (unscaled) cross product of the raw counts.
pub open spec fn cross_num(a: V3, b: V3) -> V3 {
    V3 {
        x: a.y * b.z - a.z * b.y,
        y: a.z * b.x - a.x * b.z,
        z: a.x * b.y - a.y * b.x,
    }
}

/// Fixed-point cross product: each exact component, rescaled once.
pub open spec fn cross3(a: V3, b: V3) -> V3 {
    V3 {
        x: tquot(cross_num(a, b).x, SCALE as int),
        y: tquot(cross_num(a, b).y, SCALE as int),
        z: tquot(cross_num(a, b).z, SCALE as int),
    }
}

/// Fixed-point squared length.
pub open spec fn sq_len3(a: V3) -> int {
    dot3(a, a)
}

/// Fixed-point Euclidean length.
pub open spec fn len3(a: V3) -> int {
    fx_sqrt(sq_len3(a))
}

/// The vector rescaled to (approximately) unit length.
pub open spec fn unit3(a: V3) -> V3 {
    v3_div_scalar(a, len3(a))
}

/// All components within `[-m, m]`.
pub open spec fn within(a: V3, m: int) -> bool {
    -m <= a.x <= m && -m <= a.y <= m && -m <= a.z <= m
}

/// All components within `[0, 1]` (a well-formed linear color).
pub open spec fn within01(a: V3) -> bool {
    0 <= a.x <= SCALE && 0 <= a.y <= SCALE && 0 <= a.z <= SCALE
}

/// All components fit an `i64`.
pub open spec fn fits3(a: V3) -> bool {
    fits(a.x) && fits(a.y) && fits(a.z)
}

/// The exact cross product of two vectors is orthogonal to both factors:
/// before the final rescaling, `dot_num(cross_num(a, b), a)` and
/// `dot_num(cross_num(a, b), b)` vanish identically.
pub proof fn lemma_cross_orthogonal(a: V3, b: V3)
    ensures
        dot_num(cross_num(a, b), a) == 0,
        dot_num(cross_num(a, b), b) == 0,
{
    assert((a.y * b.z - a.z * b.y) * a.x + (a.z * b.x - a.x * b.z) * a.y + (a.x * b.y - a.y
        * b.x) * a.z == 0) by (nonlinear_arith);
    assert((a.y * b.z - a.z * b.y) * b.x + (a.z * b.x - a.x * b.z) * b.y + (a.x * b.y - a.y
        * b.x) * b.z == 0) by (nonlinear_arith);
}

/// Squaring distributes over a product.
proof fn lemma_sq_of_prod(x: int, y: int)
    ensures
        (x * y) * (x * y) == (x * x) * (y * y),
{
    assert((x * y) * (x * y) == (x * x) * (y * y)) by (nonlinear_arith);
}

/// The square of `p` written through the difference `m - p`.
proof fn lemma_sq_diff(m: int, p: int)
    ensures
        p * p == m * m - 2 * (m * (m - p)) + (m - p) * (m - p),
{
    assert(p * p == m * m - 2 * (m * (m - p)) + (m - p) * (m - p)) by (nonlinear_arith);
}

/// Multiplication distributes over a three-term sum.
proof fn lemma_mul_distributes3(k: int, x: int, y: int, z: int)
    ensures
        k * (x + y + z) == k * x + k * y + k * z,
{
    lemma_mul_is_distributive_add(k, x + y, z);
    lemma_mul_is_distributive_add(k, x, y);
}

/// The fixed-point cross product stays orthogonal to its factors up to
/// truncation: each of its components is within one count of the exact
/// component, so its dot product with either factor is within `3*m/SCALE`
/// counts of zero for factors bounded by `m`.
pub proof fn lemma_cross_dot3_small(a: V3, b: V3, m: int)
    requires
        within(a, m),
        within(b, m),
        0 <= m,
    ensures
        abs(dot3(cross3(a, b), a)) <= 3 * m / (SCALE as int),
        abs(dot3(cross3(a, b), b)) <= 3 * m / (SCALE as int),
{
    lemma_cross_orthogonal(a, b);
    lemma_cross_dot3_small_one(a, b, a, m);
    lemma_cross_dot3_small_one(a, b, b, m);
}

/// The common step of [`lemma_cross_dot3_small`]: `w` is either factor.
proof fn lemma_cross_dot3_small_one(a: V3, b: V3, w: V3, m: int)
    requires
        within(a, m),
        within(b, m),
        within(w, m),
        0 <= m,
        dot_num(cross_num(a, b), w) == 0,
    ensures
        abs(dot3(cross3(a, b), w)) <= 3 * m / (SCALE as int),
{
    let s = SCALE as int;
    let cn = cross_num(a, b);
    let c = cross3(a, b);
    crate::fixed::lemma_tquot_rem(cn.x, s);
    crate::fixed::lemma_tquot_rem(cn.y, s);
    crate::fixed::lemma_tquot_rem(cn.z, s);
    let rx = cn.x - s * c.x;
    let ry = cn.y - s * c.y;
    let rz = cn.z - s * c.z;
    assert((s * c.x) * w.x == cn.x * w.x - rx * w.x) by (nonlinear_arith)
        requires
            rx == cn.x - s * c.x,
    ;
    assert((s * c.y) * w.y == cn.y * w.y - ry * w.y) by (nonlinear_arith)
        requires
            ry == cn.y - s * c.y,
    ;
    assert((s * c.z) * w.z == cn.z * w.z - rz * w.z) by (nonlinear_arith)
        requires
            rz == cn.z - s * c.z,
    ;
    lemma_mul_distributes3(s, c.x * w.x, c.y * w.y, c.z * w.z);
    lemma_mul_is_associative(s, c.x, w.x);
    lemma_mul_is_associative(s, c.y, w.y);
    lemma_mul_is_associative(s, c.z, w.z);
    assert(s * dot_num(c, w) == (s * c.x) * w.x + (s * c.y) * w.y + (s * c.z) * w.z);
    assert(s * dot_num(c, w) == dot_num(cn, w) - (rx * w.x + ry * w.y + rz * w.z));
    lemma_mul_abs_bound(rx, w.x, s, m);
    lemma_mul_abs_bound(ry, w.y, s, m);
    lemma_mul_abs_bound(rz, w.z, s, m);
    assert(abs(s * dot_num(c, w)) <= 3 * (s * m));
    assert(abs(dot_num(c, w)) <= 3 * m) by (nonlinear_arith)
        requires
            abs(s * dot_num(c, w)) <= 3 * (s * m) && s == 0x1_0000 && m >= 0,
    ;
    lemma_tquot_bound(dot_num(c, w), s, 3 * m);
}

/// A vector determines its model and the model determines the vector: the
/// counterpart of [`crate::fixed::lemma_fx_determined`], making every pure
/// vector operation deterministic.
pub proof fn lemma_vec3_determined(a: Vec3, b: Vec3)
    requires
        a@ == b@,
    ensures
        a == b,
{
    crate::fixed::lemma_fx_determined(a.x, b.x);
    crate::fixed::lemma_fx_determined(a.y, b.y);
    crate::fixed::lemma_fx_determined(a.z, b.z);
}

/// A nonzero squared length forces a length of at least 256 raw counts.
pub proof fn lemma_len3_lower(a: V3)
    requires
        sq_len3(a) >= 1,
    ensures
        len3(a) >= 256,
{
    lemma_sqrt_floor(sq_len3(a) * SCALE);
    let r = len3(a);
    if r <= 255 {
        lemma_sq_mono(r + 1, 256);
        assert(false);
    }
}

/// Squared lengths are nonnegative.
pub proof fn lemma_sq_len3_nonneg(a: V3)
    ensures
        sq_len3(a) >= 0,
        dot_num(a, a) >= 0,
{
    lemma_mul_abs_bound(a.x, a.x, abs(a.x) as int, abs(a.x) as int);
    lemma_mul_abs_bound(a.y, a.y, abs(a.y) as int, abs(a.y) as int);
    lemma_mul_abs_bound(a.z, a.z, abs(a.z) as int, abs(a.z) as int);
    assert(a.x * a.x >= 0 && a.y * a.y >= 0 && a.z * a.z >= 0) by (nonlinear_arith);
}

/// Multiplying a color (components in `[0, 1]`) into a vector bounded by
/// `m` keeps the result bounded by `m`, and nonnegative components stay
/// nonnegative.
pub proof fn lemma_v3_mul_color(a: V3, b: V3, m: int)
    requires
        within01(a),
        within(b, m),
        0 <= m,
    ensures
        within(v3_mul(a, b), m),
        fits(m) ==> fits3(v3_mul(a, b)),
{
    lemma_mul_abs_bound(a.x, b.x, SCALE as int, m);
    lemma_mul_abs_bound(a.y, b.y, SCALE as int, m);
    lemma_mul_abs_bound(a.z, b.z, SCALE as int, m);
    lemma_tquot_bound(a.x * b.x, SCALE as int, (SCALE as int) * m);
    lemma_tquot_bound(a.y * b.y, SCALE as int, (SCALE as int) * m);
    lemma_tquot_bound(a.z * b.z, SCALE as int, (SCALE as int) * m);
    assert(((SCALE as int) * m) / (SCALE as int) == m) by (nonlinear_arith)
        requires
            m >= 0,
    ;
}

/// Scaling a bounded vector by a bounded scalar bounds the result.
pub proof fn lemma_v3_scale_bound(k: int, a: V3, mk: int, m: int)
    requires
        abs(k) <= mk,
        within(a, m),
        0 <= m,
    ensures
        within(v3_scale(k, a), (mk * m) / (SCALE as int)),
{
    lemma_mul_abs_bound(k, a.x, mk, m);
    lemma_mul_abs_bound(k, a.y, mk, m);
    lemma_mul_abs_bound(k, a.z, mk, m);
    lemma_tquot_bound(k * a.x, SCALE as int, mk * m);
    lemma_tquot_bound(k * a.y, SCALE as int, mk * m);
    lemma_tquot_bound(k * a.z, SCALE as int, mk * m);
}

/// Dividing a bounded vector by a scalar of magnitude at least `dmin` bounds
/// the result.
pub proof fn lemma_v3_div_scalar_bound(a: V3, k: int, m: int, dmin: int)
    requires
        within(a, m),
        0 <= m,
        1 <= dmin <= abs(k),
    ensures
        within(v3_div_scalar(a, k), (m * (SCALE as int)) / dmin),
{
    lemma_mul_abs_bound(a.x, SCALE as int, m, SCALE as int);
    lemma_mul_abs_bound(a.y, SCALE as int, m, SCALE as int);
    lemma_mul_abs_bound(a.z, SCALE as int, m, SCALE as int);
    lemma_tquot_bound_div(a.x * SCALE, k, m * (SCALE as int), dmin);
    lemma_tquot_bound_div(a.y * SCALE, k, m * (SCALE as int), dmin);
    lemma_tquot_bound_div(a.z * SCALE, k, m * (SCALE as int), dmin);
}

/// Bounds on the factors bound a dot product.
pub proof fn lemma_dot3_bound(a: V3, b: V3, m1: int, m2: int)
    requires
        within(a, m1),
        within(b, m2),
        0 <= m1,
        0 <= m2,
    ensures
        abs(dot_num(a, b)) <= 3 * (m1 * m2),
        abs(dot3(a, b)) <= (3 * (m1 * m2)) / (SCALE as int),
{
    lemma_mul_abs_bound(a.x, b.x, m1, m2);
    lemma_mul_abs_bound(a.y, b.y, m1, m2);
    lemma_mul_abs_bound(a.z, b.z, m1, m2);
    lemma_tquot_bound(dot_num(a, b), SCALE as int, 3 * (m1 * m2));
}

/// A component of a vector is no more than 256 counts above its length:
/// `(len+1)^2` exceeds `sq_len * SCALE`, which undershoots the exact sum of
/// squares by less than `SCALE`.
proof fn lemma_comp_le_len(a: V3, c: int)
    requires
        sq_len3(a) >= 1,
        c == a.x || c == a.y || c == a.z,
    ensures
        abs(c) <= len3(a) + 256,
{
    let s = SCALE as int;
    let num = dot_num(a, a);
    lemma_sq_len3_nonneg(a);
    lemma_mul_abs_bound(a.x, a.x, abs(a.x) as int, abs(a.x) as int);
    lemma_mul_abs_bound(a.y, a.y, abs(a.y) as int, abs(a.y) as int);
    lemma_mul_abs_bound(a.z, a.z, abs(a.z) as int, abs(a.z) as int);
    assert(c * c <= num) by (nonlinear_arith)
        requires
            num == a.x * a.x + a.y * a.y + a.z * a.z,
            c == a.x || c == a.y || c == a.z,
    ;
    assert(sq_len3(a) == num / s);
    lemma_fundamental_div_mod(num, s);
    assert(sq_len3(a) * s > num - s);
    lemma_sqrt_floor(sq_len3(a) * s);
    let len = len3(a);
    lemma_len3_lower(a);
    assert((len + 1) * (len + 1) > sq_len3(a) * s);
    assert(c * c < (len + 1) * (len + 1) + s);
    if abs(c) > len + 256 {
        lemma_sq_mono(len + 257, abs(c) as int);
        assert((len + 257) * (len + 257) >= (len + 1) * (len + 1) + 65536) by (nonlinear_arith)
            requires
                len >= 0,
        ;
        assert(abs(c) * abs(c) == c * c) by (nonlinear_arith);
        assert(false);
    }
}

/// Normalization yields a vector of length one, up to truncation: the
/// squared length of `unit3(a)` never falls more than 12 counts below one,
/// and for inputs of at least unit length it never rises more than 11 counts
/// above one.  (Below unit length the computed length is too coarse for an
/// upper bound: normalizing a vector of true length `sqrt(2) - epsilon`
/// whose squared length truncates to one count stretches it by `sqrt(2)`.)
pub proof fn lemma_unit3_sq_len(a: V3)
    requires
        sq_len3(a) >= 1,
    ensures
        sq_len3(unit3(a)) >= SCALE - 12,
        sq_len3(a) >= SCALE ==> sq_len3(unit3(a)) <= SCALE + 11,
{
    let s = SCALE as int;
    let d = dot_num(a, a);
    let q = sq_len3(a);
    lemma_sq_len3_nonneg(a);
    lemma_fundamental_div_mod(d, s);
    vstd::arithmetic::div_mod::lemma_mod_bound(d, s);
    assert(q == d / s);
    assert(q * s <= d <= q * s + s - 1);
    lemma_sqrt_floor(q * s);
    let len = len3(a);
    lemma_len3_lower(a);
    lemma_comp_le_len(a, a.x);
    lemma_comp_le_len(a, a.y);
    lemma_comp_le_len(a, a.z);
    let u = unit3(a);
    crate::fixed::lemma_tquot_rem(a.x * s, len);
    crate::fixed::lemma_tquot_rem(a.y * s, len);
    crate::fixed::lemma_tquot_rem(a.z * s, len);
    let rx = a.x * s - len * u.x;
    let ry = a.y * s - len * u.y;
    let rz = a.z * s - len * u.z;
    let n = dot_num(u, u);
    lemma_sq_of_prod(len, u.x);
    lemma_sq_of_prod(len, u.y);
    lemma_sq_of_prod(len, u.z);
    lemma_sq_of_prod(a.x, s);
    lemma_sq_of_prod(a.y, s);
    lemma_sq_of_prod(a.z, s);
    lemma_sq_diff(a.x * s, len * u.x);
    lemma_sq_diff(a.y * s, len * u.y);
    lemma_sq_diff(a.z * s, len * u.z);
    lemma_mul_is_commutative(a.x * a.x, s * s);
    lemma_mul_is_commutative(a.y * a.y, s * s);
    lemma_mul_is_commutative(a.z * a.z, s * s);
    assert((len * len) * (u.x * u.x) == (s * s) * (a.x * a.x) - 2 * ((a.x * s) * rx) + rx * rx);
    assert((len * len) * (u.y * u.y) == (s * s) * (a.y * a.y) - 2 * ((a.y * s) * ry) + ry * ry);
    assert((len * len) * (u.z * u.z) == (s * s) * (a.z * a.z) - 2 * ((a.z * s) * rz) + rz * rz);
    let err = (a.x * s) * rx + (a.y * s) * ry + (a.z * s) * rz;
    let rem_sq = rx * rx + ry * ry + rz * rz;
    lemma_mul_distributes3(len * len, u.x * u.x, u.y * u.y, u.z * u.z);
    lemma_mul_distributes3(s * s, a.x * a.x, a.y * a.y, a.z * a.z);
    assert((len * len) * n == (s * s) * d - 2 * err + rem_sq);
    // |a_i * s| <= (len + 256) * s and |r_i| < len, so the cross term and
    // the remainder square are small against (len * len) * (s * s).
    lemma_mul_abs_bound(a.x * s, rx, (len + 256) * s, len);
    lemma_mul_abs_bound(a.y * s, ry, (len + 256) * s, len);
    lemma_mul_abs_bound(a.z * s, rz, (len + 256) * s, len);
    lemma_mul_abs_bound(a.x, s, len + 256, s);
    lemma_mul_abs_bound(a.y, s, len + 256, s);
    lemma_mul_abs_bound(a.z, s, len + 256, s);
    lemma_mul_abs_bound(rx, rx, len, len);
    lemma_mul_abs_bound(ry, ry, len, len);
    lemma_mul_abs_bound(rz, rz, len, len);
    crate::fixed::lemma_abs_mul(rx, rx);
    crate::fixed::lemma_abs_mul(ry, ry);
    crate::fixed::lemma_abs_mul(rz, rz);
    assert(abs(err) <= 3 * (((len + 256) * s) * len));
    assert(0 <= rem_sq <= 3 * (len * len));
    lemma_sq_len3_nonneg(u);
    // Lower bound: d >= q*s >= len*len.
    assert((s * s) * d >= (s * s) * (len * len)) by (nonlinear_arith)
        requires
            d >= q * s && q * s >= len * len && s > 0,
    ;
    if n <= s * s - 12 * s - 1 {
        assert((len * len) * n <= (len * len) * (s * s - 12 * s - 1)) by (nonlinear_arith)
            requires
                n <= s * s - 12 * s - 1 && len * len >= 0,
        ;
        assert((len * len) * (s * s - 12 * s - 1) < (s * s) * (len * len) - 2 * (3 * (((len + 256)
            * s) * len))) by (nonlinear_arith)
            requires
                len >= 256 && s == 0x1_0000,
        ;
        assert(false);
    }
    assert(n >= s * s - 12 * s);
    lemma_div_pos_is_pos(n, s);
    lemma_div_is_ordered(s * s - 12 * s, n, s);
    assert((s * s - 12 * s) / s == s - 12) by (nonlinear_arith)
        requires
            s == 0x1_0000,
    ;
    assert(sq_len3(u) == n / s);
    // Upper bound, for inputs of at least unit length.
    if q >= s {
        if len < s {
            lemma_sq_mono(len + 1, s);
            assert((s * s) <= q * s) by (nonlinear_arith)
                requires
                    q >= s && s > 0,
            ;
            assert(false);
        }
        assert((s * s) * d <= (s * s) * (q * s + s - 1)) by (nonlinear_arith)
            requires
                d <= q * s + s - 1 && s > 0,
        ;
        assert((s * s) * (q * s + s - 1) <= (s * s) * ((len + 1) * (len + 1) - 1 + s - 1))
            by (nonlinear_arith)
            requires
                q * s < (len + 1) * (len + 1) && s > 0,
        ;
        if n >= s * s + 11 * s + 1 {
            assert((len * len) * n >= (len * len) * (s * s + 11 * s + 1)) by (nonlinear_arith)
                requires
                    n >= s * s + 11 * s + 1 && len * len >= 0,
            ;
            assert((len * len) * (s * s + 11 * s + 1) > (s * s) * ((len + 1) * (len + 1) - 1 + s
                - 1) + 2 * (3 * (((len + 256) * s) * len)) + 3 * (len * len))
                by (nonlinear_arith)
                requires
                    len >= s && s == 0x1_0000,
            ;
            assert(false);
        }
        assert(n <= s * s + 11 * s);
        lemma_div_is_ordered(n, s * s + 11 * s, s);
        assert((s * s + 11 * s) / s == s + 11) by (nonlinear_arith)
            requires
                s == 0x1_0000,
        ;
    }
}

/// The components of a unit vector are bounded by two whole units.
pub proof fn lemma_unit3_bound(a: V3)
    requires
        sq_len3(a) >= 1,
    ensures
        within(unit3(a), 2 * (SCALE as int)),
{
    let s = SCALE as int;
    let len = len3(a);
    lemma_len3_lower(a);
    lemma_comp_le_len(a, a.x);
    lemma_comp_le_len(a, a.y);
    lemma_comp_le_len(a, a.z);
    lemma_mul_abs_bound(a.x, s, (len + 256), s);
    lemma_mul_abs_bound(a.y, s, (len + 256), s);
    lemma_mul_abs_bound(a.z, s, (len + 256), s);
    lemma_tquot_bound_div(a.x * s, len, (len + 256) * s, len);
    lemma_tquot_bound_div(a.y * s, len, (len + 256) * s, len);
    lemma_tquot_bound_div(a.z * s, len, (len + 256) * s, len);
    assert(((len + 256) * s) / len <= 2 * s) by (nonlinear_arith)
        requires
            len >= 256 && s == 0x1_0000,
    ;
}

/// The error of [`Vec3::new_from_str_array`]: some component string did not
/// parse as a decimal number.
#[derive(Clone, Copy, Debug, PartialEq, Eq, Structural)]
pub struct ParseVecError {}

/// A component position of a [`Vec3`].
#[derive(Clone, Copy, Debug, PartialEq, Eq, Structural)]
pub enum Vec3Index {
    Zero,
    One,
    Two,
}

impl Vec3Index {
    /// The position for an index value: `0`, `1` or `2`; anything else is
    /// out of range.
    pub fn try_from_u64(value: u64) -> (r: Result<Vec3Index, ParseVecError>)
        ensures
            match r {
                Ok(ix) => (value == 0 && ix is Zero) || (value == 1 && ix is One) || (value == 2
                    && ix is Two),
                Err(_) => value > 2,
            },
    {
        match value {
            0 => Ok(Vec3Index::Zero),
            1 => Ok(Vec3Index::One),
            2 => Ok(Vec3Index::Two),
            _ => Err(ParseVecError {  }),
        }
    }
}

/// A three-component fixed-point vector.
#[derive(Clone, Copy, Debug, PartialEq, Eq, Structural)]
pub struct Vec3 {
    x: Fx,
    y: Fx,
    z: Fx,
}

impl View for Vec3 {
    type V = V3;

    closed spec fn view(&self) -> V3 {
        V3 { x: self.x@, y: self.y@, z: self.z@ }
    }
}

impl Vec3 {
    /// The zero vector.
    pub fn new_empty() -> (r: Vec3)
        ensures
            r@ == (V3 { x: 0, y: 0, z: 0 }),
    {
        Vec3 { x: Fx::from_raw(0), y: Fx::from_raw(0), z: Fx::from_raw(0) }
    }

    /// The vector with the given components.
    pub fn new(x: Fx, y: Fx, z: Fx) -> (r: Vec3)
        ensures
            r@ == (V3 { x: x@, y: y@, z: z@ }),
    {
        Vec3 { x, y, z }
    }

    /// Parses three decimal strings into a vector; see
    /// [`crate::parse::parse_fx_bytes`] for the accepted grammar.
    pub fn new_from_str_array(input_strings: &[&str; 3]) -> (r: Result<Vec3, ParseVecError>)
        ensures
            match r {
                Ok(v) => crate::parse::parse_fx_bytes(input_strings@[0].spec_bytes()) == Some(
                    v@.x,
                ) && crate::parse::parse_fx_bytes(input_strings@[1].spec_bytes()) == Some(v@.y)
                    && crate::parse::parse_fx_bytes(input_strings@[2].spec_bytes()) == Some(v@.z),
                Err(_) => crate::parse::parse_fx_bytes(input_strings@[0].spec_bytes()) is None
                    || crate::parse::parse_fx_bytes(input_strings@[1].spec_bytes()) is None
                    || crate::parse::parse_fx_bytes(input_strings@[2].spec_bytes()) is None,
            },
    {
        let x = match crate::parse::parse_fx(input_strings[0]) {
            Some(x) => x,
            None => {
                return Err(ParseVecError {  });
            },
        };
        let y = match crate::parse::parse_fx(input_strings[1]) {
            Some(y) => y,
            None => {
                return Err(ParseVecError {  });
            },
        };
        let z = match crate::parse::parse_fx(input_strings[2]) {
            Some(z) => z,
            None => {
                return Err(ParseVecError {  });
            },
        };
        Ok(Vec3::new(x, y, z))
    }

    /// The vector with components taken from an array.
    pub fn new_from_array(array: [Fx; 3]) -> (r: Vec3)
        ensures
            r@ == (V3 { x: array@[0]@, y: array@[1]@, z: array@[2]@ }),
    {
        Vec3 { x: array[0], y: array[1], z: array[2] }
    }

    /// First component.
    pub fn x(&self) -> (r: Fx)
        ensures
            r@ == self@.x,
    {
        self.x
    }

    /// Second component.
    pub fn y(&self) -> (r: Fx)
        ensures
            r@ == self@.y,
    {
        self.y
    }

    /// Third component.
    pub fn z(&self) -> (r: Fx)
        ensures
            r@ == self@.z,
    {
        self.z
    }

    /// Red channel (alias for `x`).
    pub fn r(&self) -> (r: Fx)
        ensures
            r@ == self@.x,
    {
        self.x
    }

    /// Green channel (alias for `y`).
    pub fn g(&self) -> (r: Fx)
        ensures
            r@ == self@.y,
    {
        self.y
    }

    /// Blue channel (alias for `z`).
    pub fn b(&self) -> (r: Fx)
        ensures
            r@ == self@.z,
    {
        self.z
    }

    /// Componentwise sum.
    pub fn add(&self, o: &Vec3) -> (r: Vec3)
        requires
            fits3(v3_add(self@, o@)),
        ensures
            r@ == v3_add(self@, o@),
    {
        Vec3 { x: self.x.add(o.x), y: self.y.add(o.y), z: self.z.add(o.z) }
    }

    /// Componentwise difference.
    pub fn sub(&self, o: &Vec3) -> (r: Vec3)
        requires
            fits3(v3_sub(self@, o@)),
        ensures
            r@ == v3_sub(self@, o@),
    {
        Vec3 { x: self.x.sub(o.x), y: self.y.sub(o.y), z: self.z.sub(o.z) }
    }

    /// Componentwise negation.
    pub fn neg(&self) -> (r: Vec3)
        requires
            fits3(self@),
        ensures
            r@ == v3_neg(self@),
    {
        Vec3 { x: self.x.neg(), y: self.y.neg(), z: self.z.neg() }
    }

    /// Componentwise product.
    pub fn mul(&self, o: &Vec3) -> (r: Vec3)
        requires
            fits3(v3_mul(self@, o@)),
        ensures
            r@ == v3_mul(self@, o@),
    {
        Vec3 { x: self.x.mul(o.x), y: self.y.mul(o.y), z: self.z.mul(o.z) }
    }

    /// Componentwise quotient.
    pub fn div(&self, o: &Vec3) -> (r: Vec3)
        requires
            o@.x != 0,
            o@.y != 0,
            o@.z != 0,
            fits3(v3_div(self@, o@)),
        ensures
            r@ == v3_div(self@, o@),
    {
        Vec3 { x: self.x.div(o.x), y: self.y.div(o.y), z: self.z.div(o.z) }
    }

    /// Every component scaled by `k`.
    pub fn scale(&self, k: Fx) -> (r: Vec3)
        requires
            fits3(v3_scale(k@, self@)),
        ensures
            r@ == v3_scale(k@, self@),
    {
        Vec3 { x: k.mul(self.x), y: k.mul(self.y), z: k.mul(self.z) }
    }

    /// Every component divided by `k`.
    pub fn div_scalar(&self, k: Fx) -> (r: Vec3)
        requires
            k@ != 0,
            fits3(v3_div_scalar(self@, k@)),
        ensures
            r@ == v3_div_scalar(self@, k@),
    {
        Vec3 { x: self.x.div(k), y: self.y.div(k), z: self.z.div(k) }
    }

    /// Dot product: the exact sum of the three products, rescaled once.
    pub fn dot(&self, o: &Vec3) -> (r: Fx)
        requires
            within(self@, GEOM_MAX as int),
            within(o@, GEOM_MAX as int),
        ensures
            r@ == dot3(self@, o@),
    {
        proof {
            lemma_dot_cross_bounds(self@, o@);
        }
        let px: i128 = (self.x.raw() as i128) * (o.x.raw() as i128);
        let py: i128 = (self.y.raw() as i128) * (o.y.raw() as i128);
        let pz: i128 = (self.z.raw() as i128) * (o.z.raw() as i128);
        scale_down_i128(px + py + pz)
    }

    /// Cross product: each exact component difference, rescaled once.
    pub fn cross(&self, o: &Vec3) -> (r: Vec3)
        requires
            within(self@, GEOM_MAX as int),
            within(o@, GEOM_MAX as int),
        ensures
            r@ == cross3(self@, o@),
    {
        proof {
            lemma_dot_cross_bounds(self@, o@);
        }
        let ax = self.x.raw() as i128;
        let ay = self.y.raw() as i128;
        let az = self.z.raw() as i128;
        let bx = o.x.raw() as i128;
        let by = o.y.raw() as i128;
        let bz = o.z.raw() as i128;
        let cx = scale_down_i128(ay * bz - az * by);
        let cy = scale_down_i128(az * bx - ax * bz);
        let cz = scale_down_i128(ax * by - ay * bx);
        Vec3 { x: cx, y: cy, z: cz }
    }

    /// Squared Euclidean length.
    pub fn squared_length(&self) -> (r: Fx)
        requires
            within(self@, GEOM_MAX as int),
        ensures
            r@ == sq_len3(self@),
            r@ >= 0,
    {
        proof {
            lemma_sq_len3_nonneg(self@);
            lemma_div_pos_is_pos(dot_num(self@, self@), SCALE as int);
        }
        self.dot(self)
    }

    /// Euclidean length.
    pub fn length(&self) -> (r: Fx)
        requires
            within(self@, GEOM_MAX as int),
        ensures
            r@ == len3(self@),
            r@ >= 0,
    {
        self.squared_length().sqrt()
    }

    /// The vector rescaled to (approximately) unit length.  The input must
    /// not be degenerate: its squared length must be nonzero at the model's
    /// resolution.
    pub fn unit_vector(&self) -> (r: Vec3)
        requires
            within(self@, GEOM_MAX as int),
            sq_len3(self@) >= 1,
        ensures
            r@ == unit3(self@),
    {
        proof {
            lemma_len3_lower(self@);
            lemma_tquot_bound(self@.x * SCALE, len3(self@), 0x40_0000_0000int * 0x1_0000);
            lemma_tquot_bound(self@.y * SCALE, len3(self@), 0x40_0000_0000int * 0x1_0000);
            lemma_tquot_bound(self@.z * SCALE, len3(self@), 0x40_0000_0000int * 0x1_0000);
            lemma_mul_abs_bound(self@.x, SCALE as int, 0x40_0000_0000, 0x1_0000);
            lemma_mul_abs_bound(self@.y, SCALE as int, 0x40_0000_0000, 0x1_0000);
            lemma_mul_abs_bound(self@.z, SCALE as int, 0x40_0000_0000, 0x1_0000);
        }
        let len = self.length();
        self.div_scalar(len)
    }

    /// Adds `o` onto the vector in place.
    pub fn add_assign(&mut self, o: &Vec3)
        requires
            fits3(v3_add(old(self)@, o@)),
        ensures
            final(self)@ == v3_add(old(self)@, o@),
    {
        *self = self.add(o);
    }

    /// Subtracts `o` from the vector in place.
    pub fn sub_assign(&mut self, o: &Vec3)
        requires
            fits3(v3_sub(old(self)@, o@)),
        ensures
            final(self)@ == v3_sub(old(self)@, o@),
    {
        *self = self.sub(o);
    }

    /// Multiplies by `o` componentwise in place.
    pub fn mul_assign(&mut self, o: &Vec3)
        requires
            fits3(v3_mul(old(self)@, o@)),
        ensures
            final(self)@ == v3_mul(old(self)@, o@),
    {
        *self = self.mul(o);
    }

    /// Scales every component by `k` in place.
    pub fn scale_assign(&mut self, k: Fx)
        requires
            fits3(v3_scale(k@, old(self)@)),
        ensures
            final(self)@ == v3_scale(k@, old(self)@),
    {
        *self = self.scale(k);
    }

    /// Divides by `o` componentwise in place.
    pub fn div_assign(&mut self, o: &Vec3)
        requires
            o@.x != 0,
            o@.y != 0,
            o@.z != 0,
            fits3(v3_div(old(self)@, o@)),
        ensures
            final(self)@ == v3_div(old(self)@, o@),
    {
        *self = self.div(o);
    }

    /// Divides every component by `k` in place.
    pub fn div_scalar_assign(&mut self, k: Fx)
        requires
            k@ != 0,
            fits3(v3_div_scalar(old(self)@, k@)),
        ensures
            final(self)@ == v3_div_scalar(old(self)@, k@),
    {
        *self = self.div_scalar(k);
    }

    /// The component at a position.
    pub fn index(&self, vec3_index: Vec3Index) -> (r: Fx)
        ensures
            r@ == match vec3_index {
                Vec3Index::Zero => self@.x,
                Vec3Index::One => self@.y,
                Vec3Index::Two => self@.z,
            },
    {
        match vec3_index {
            Vec3Index::Zero => self.x,
            Vec3Index::One => self.y,
            Vec3Index::Two => self.z,
        }
    }

    /// Whether every component lies within `[-m, m]`.
    pub fn within_bounds(&self, m: i64) -> (b: bool)
        requires
            m >= 0,
        ensures
            b == within(self@, m as int),
    {
        let neg_m = -m;
        let x = self.x.raw();
        let y = self.y.raw();
        let z = self.z.raw();
        neg_m <= x && x <= m && neg_m <= y && y <= m && neg_m <= z && z <= m
    }

    /// Replaces the vector by its unit-length rescaling and returns it.
    pub fn mutate_to_unit_vector(&mut self) -> (r: &Vec3)
        requires
            within(old(self)@, GEOM_MAX as int),
            sq_len3(old(self)@) >= 1,
        ensures
            final(self)@ == unit3(old(self)@),
            r@ == final(self)@,
    {
        let u = self.unit_vector();
        *self = u;
        self
    }
}

/// Products of `GEOM_MAX`-bounded components stay below an `i128`, and their
/// rescaled sums and differences fit an `i64`.
proof fn lemma_dot_cross_bounds(a: V3, b: V3)
    requires
        within(a, GEOM_MAX as int),
        within(b, GEOM_MAX as int),
    ensures
        abs(a.x * b.x) <= 0x1000_0000_0000_0000_0000,
        abs(a.y * b.y) <= 0x1000_0000_0000_0000_0000,
        abs(a.z * b.z) <= 0x1000_0000_0000_0000_0000,
        fits(tquot(dot_num(a, b), SCALE as int)),
        abs(a.y * b.z) <= 0x1000_0000_0000_0000_0000,
        abs(a.z * b.y) <= 0x1000_0000_0000_0000_0000,
        abs(a.z * b.x) <= 0x1000_0000_0000_0000_0000,
        abs(a.x * b.z) <= 0x1000_0000_0000_0000_0000,
        abs(a.x * b.y) <= 0x1000_0000_0000_0000_0000,
        abs(a.y * b.x) <= 0x1000_0000_0000_0000_0000,
        fits(tquot(cross_num(a, b).x, SCALE as int)),
        fits(tquot(cross_num(a, b).y, SCALE as int)),
        fits(tquot(cross_num(a, b).z, SCALE as int)),
{
    let m: int = 0x40_0000_0000;
    assert(0x40_0000_0000int * 0x40_0000_0000 == 0x1000_0000_0000_0000_0000) by (nonlinear_arith);
    lemma_mul_abs_bound(a.x, b.x, m, m);
    lemma_mul_abs_bound(a.y, b.y, m, m);
    lemma_mul_abs_bound(a.z, b.z, m, m);
    lemma_mul_abs_bound(a.y, b.z, m, m);
    lemma_mul_abs_bound(a.z, b.y, m, m);
    lemma_mul_abs_bound(a.z, b.x, m, m);
    lemma_mul_abs_bound(a.x, b.z, m, m);
    lemma_mul_abs_bound(a.x, b.y, m, m);
    lemma_mul_abs_bound(a.y, b.x, m, m);
    lemma_tquot_bound(dot_num(a, b), SCALE as int, 3int * 0x1000_0000_0000_0000_0000);
    lemma_tquot_bound(cross_num(a, b).x, SCALE as int, 2int * 0x1000_0000_0000_0000_0000);
    lemma_tquot_bound(cross_num(a, b).y, SCALE as int, 2int * 0x1000_0000_0000_0000_0000);
    lemma_tquot_bound(cross_num(a, b).z, SCALE as int, 2int * 0x1000_0000_0000_0000_0000);
    assert(3int * 0x1000_0000_0000_0000_0000 / 0x1_0000 <= 0x7fff_ffff_ffff_ffff);
    assert(2int * 0x1000_0000_0000_0000_0000 / 0x1_0000 <= 0x7fff_ffff_ffff_ffff);
}

} // verus!
