use ray_tracer::fixed::Fx;
use ray_tracer::vec3::{Vec3, Vec3Index};

fn fx(units: i32) -> Fx {
    Fx::from_int(units)
}

fn v(x: i32, y: i32, z: i32) -> Vec3 {
    Vec3::new(fx(x), fx(y), fx(z))
}

#[test]
fn constructors_and_getters() {
    let zero = Vec3::new_empty();
    assert_eq!(zero.x().raw(), 0);
    assert_eq!(zero.y().raw(), 0);
    assert_eq!(zero.z().raw(), 0);
    let a = v(1, 2, 3);
    assert_eq!(a.x().raw(), 65536);
    assert_eq!(a.y().raw(), 131072);
    assert_eq!(a.z().raw(), 196608);
    assert_eq!(a.r().raw(), a.x().raw());
    assert_eq!(a.g().raw(), a.y().raw());
    assert_eq!(a.b().raw(), a.z().raw());
    let b = Vec3::new_from_array([fx(4), fx(5), fx(6)]);
    assert_eq!(b.x().raw(), 4 * 65536);
    assert_eq!(b.y().raw(), 5 * 65536);
    assert_eq!(b.z().raw(), 6 * 65536);
}

#[test]
fn arithmetic_exact() {
    let a = v(1, 2, 3);
    let b = v(4, 5, 6);
    let sum = a.add(&b);
    assert_eq!(sum, v(5, 7, 9));
    let diff = b.sub(&a);
    assert_eq!(diff, v(3, 3, 3));
    let neg = a.neg();
    assert_eq!(neg, v(-1, -2, -3));
    let prod = a.mul(&b);
    assert_eq!(prod, v(4, 10, 18));
    let quot = b.div(&a);
    assert_eq!(quot.x().raw(), 4 * 65536);
    assert_eq!(quot.z().raw(), 2 * 65536);
    let scaled = a.scale(fx(2));
    assert_eq!(scaled, v(2, 4, 6));
    let unscaled = scaled.div_scalar(fx(2));
    assert_eq!(unscaled, a);
}

#[test]
fn dot_and_lengths_exact() {
    let a = v(1, 2, 3);
    let b = v(4, 5, 6);
    assert_eq!(a.dot(&b).raw(), 32 * 65536);
    assert_eq!(a.squared_length().raw(), 14 * 65536);
    let c = v(3, 4, 0);
    assert_eq!(c.length().raw(), 5 * 65536);
}

#[test]
fn cross_exact() {
    let a = v(1, 2, 3);
    let b = v(4, 5, 6);
    let c = a.cross(&b);
    assert_eq!(c, v(-3, 6, -3));
}

// Whatever the factors, the cross product is orthogonal to both of them up
// to the truncation of its components.
#[test]
fn cross_orthogonal_within_eps() {
    let cases = [
        (v(1, 2, 3), v(4, 5, 6)),
        (v(-7, 11, 2), v(3, -1, 9)),
        (
            Vec3::new(Fx::from_raw(12345), Fx::from_raw(-98765), Fx::from_raw(4321)),
            Vec3::new(Fx::from_raw(-555), Fx::from_raw(7777), Fx::from_raw(-31415)),
        ),
    ];
    for (a, b) in cases {
        let c = a.cross(&b);
        // |dot| <= 3*m/SCALE where m bounds the factor components.
        assert!(c.dot(&a).raw().abs() <= 33);
        assert!(c.dot(&b).raw().abs() <= 33);
    }
}

// The length of a normalized vector is 1 within the model's resolution.
#[test]
fn unit_vector_length_near_one() {
    let cases = [v(1, 2, 3), v(-5, 0, 1), v(100, -3, 7), v(0, 1, 0)];
    for a in cases {
        let u = a.unit_vector();
        let len = u.length().raw();
        assert!((len - 65536).abs() <= 512, "length {len}");
    }
}

// For inputs of at least unit length the squared length of the normalized
// vector stays within [1 - 12/65536, 1 + 11/65536].
#[test]
fn unit_vector_sq_len_tight_band() {
    let cases = [v(1, 2, 3), v(-5, 0, 1), v(100, -3, 7), v(1, 0, 0), v(7, 7, 7)];
    for a in cases {
        let n = a.unit_vector().squared_length().raw();
        assert!(65536 - 12 <= n && n <= 65536 + 11, "squared length {n}");
    }
}

#[test]
fn unit_vector_axis_exact() {
    let a = v(0, 2, 0);
    let u = a.unit_vector();
    assert_eq!(u, v(0, 1, 0));
}

#[test]
fn mutate_to_unit_vector_matches() {
    let mut a = v(3, 4, 0);
    let expected = a.unit_vector();
    a.mutate_to_unit_vector();
    assert_eq!(a, expected);
}

// Pure operations have no hidden state: repeating them gives bit-identical
// results.
#[test]
fn pure_ops_idempotent() {
    let a = v(9, -2, 4);
    let b = v(-1, 8, 3);
    assert_eq!(a.add(&b), a.add(&b));
    assert_eq!(a.cross(&b), a.cross(&b));
    assert_eq!(a.dot(&b).raw(), a.dot(&b).raw());
    assert_eq!(a.unit_vector(), a.unit_vector());
    assert_eq!(a.length().raw(), a.length().raw());
}

#[test]
fn assign_ops_match_pure_ops() {
    let a = v(1, 2, 3);
    let b = v(4, 5, 6);
    let mut m = a;
    m.add_assign(&b);
    assert_eq!(m, a.add(&b));
    m = a;
    m.sub_assign(&b);
    assert_eq!(m, a.sub(&b));
    m = a;
    m.mul_assign(&b);
    assert_eq!(m, a.mul(&b));
    m = a;
    m.scale_assign(fx(3));
    assert_eq!(m, a.scale(fx(3)));
    m = a;
    m.div_assign(&b);
    assert_eq!(m, a.div(&b));
    m = a;
    m.div_scalar_assign(fx(2));
    assert_eq!(m, a.div_scalar(fx(2)));
}

#[test]
fn index_by_position() {
    let a = v(1, 2, 3);
    assert_eq!(a.index(Vec3Index::Zero).raw(), a.x().raw());
    assert_eq!(a.index(Vec3Index::One).raw(), a.y().raw());
    assert_eq!(a.index(Vec3Index::Two).raw(), a.z().raw());
}

#[test]
fn index_try_from() {
    assert_eq!(Vec3Index::try_from_u64(0), Ok(Vec3Index::Zero));
    assert_eq!(Vec3Index::try_from_u64(1), Ok(Vec3Index::One));
    assert_eq!(Vec3Index::try_from_u64(2), Ok(Vec3Index::Two));
    assert!(Vec3Index::try_from_u64(3).is_err());
    assert!(Vec3Index::try_from_u64(u64::MAX).is_err());
}
