//! Spheres and their ray intersection.
//!
//! Intersection solves `|O + tD - C|^2 = r^2`, a quadratic in `t`, and
//! accepts the first root strictly inside `(t_min, t_max)`, near root first.
//! The normal stored in the hit record is `(point - center) / radius`, so its
//! orientation follows the sign of the radius; a negative radius flips it,
//! which is used for hollow glass spheres.

use crate::fixed::{
    fx_div, fx_mul, fx_sqrt, lemma_mul_abs_bound, lemma_sq_mono, lemma_tquot_bound,
    lemma_tquot_bound_div, Fx, SCALE,
};
use crate::hit::{HitRecord, HitV};
use crate::material::Material;
use crate::ray::{ray_at, Ray, RayV};
use crate::vec3::{
    dot3, lemma_dot3_bound, lemma_v3_div_scalar_bound, lemma_v3_scale_bound, v3_div_scalar,
    v3_sub, within, Vec3, V3,
};
use vstd::math::abs;
use vstd::prelude::*;

verus! {

/// Largest component magnitude of a sphere center (256 whole units).
pub const CENTER_MAX: i64 = 0x100_0000;

/// Magnitude range of a sphere radius: 1/2048 to 256 whole units.  The sign
/// may be negative (a hollow sphere with inverted normals).
pub const RADIUS_MIN: i64 = 32;

/// See [`RADIUS_MIN`].
pub const RADIUS_MAX: i64 = 0x100_0000;

/// Largest component magnitude of a traced ray's origin and direction
/// (1024 whole units).
pub const RAY_MAX: i64 = 0x400_0000;

/// Largest magnitude of the parametric interval bounds handed to an
/// intersection test (about 8.4 million units: the model's far limit).
pub const T_LIM: i64 = 0x80_0000_0000;

/// A ray the intersection routines accept: bounded, with a direction that is
/// nonzero at the model's resolution.
pub open spec fn ray_bounded(r: RayV) -> bool {
    within(r.origin, RAY_MAX as int) && within(r.direction, RAY_MAX as int) && dot3(
        r.direction,
        r.direction,
    ) >= 1
}

/// The mathematical model of a sphere.
pub ghost struct SphereV {
    pub center: V3,
    pub radius: int,
    pub material: Material,
}

/// The hit record produced for parameter `t` on sphere `s`.
pub open spec fn sphere_hit_at(s: SphereV, r: RayV, t: int) -> HitV {
    HitV {
        t,
        point: ray_at(r, t),
        normal: v3_div_scalar(v3_sub(ray_at(r, t), s.center), s.radius),
        material: s.material,
    }
}

/// The intersection of a ray with a sphere over the open interval
/// `(t_min, t_max)`: the quadratic's discriminant must be positive and the
/// near root is preferred.
pub open spec fn sphere_hit(s: SphereV, r: RayV, t_min: int, t_max: int) -> Option<HitV> {
    let co = v3_sub(r.origin, s.center);
    let a = dot3(r.direction, r.direction);
    let b = dot3(co, r.direction);
    let c = dot3(co, co) - fx_mul(s.radius, s.radius);
    let disc = fx_mul(b, b) - fx_mul(a, c);
    if disc > 0 {
        let sd = fx_sqrt(disc);
        let t1 = fx_div(-b - sd, a);
        let t2 = fx_div(-b + sd, a);
        if t_min < t1 && t1 < t_max {
            Some(sphere_hit_at(s, r, t1))
        } else if t_min < t2 && t2 < t_max {
            Some(sphere_hit_at(s, r, t2))
        } else {
            None
        }
    } else {
        None
    }
}

/// The quadratic's near root never exceeds its far root.
proof fn lemma_sphere_roots_ordered(s: SphereV, r: RayV)
    requires
        dot3(r.direction, r.direction) >= 1,
    ensures
        ({
            let co = v3_sub(r.origin, s.center);
            let a = dot3(r.direction, r.direction);
            let b = dot3(co, r.direction);
            let c = dot3(co, co) - fx_mul(s.radius, s.radius);
            let disc = fx_mul(b, b) - fx_mul(a, c);
            disc > 0 ==> fx_div(-b - fx_sqrt(disc), a) <= fx_div(-b + fx_sqrt(disc), a)
        }),
{
    let co = v3_sub(r.origin, s.center);
    let a = dot3(r.direction, r.direction);
    let b = dot3(co, r.direction);
    let c = dot3(co, co) - fx_mul(s.radius, s.radius);
    let disc = fx_mul(b, b) - fx_mul(a, c);
    if disc > 0 {
        crate::fixed::lemma_sqrt_floor(disc * SCALE);
        let sd = fx_sqrt(disc);
        vstd::arithmetic::mul::lemma_mul_inequality(-b - sd, -b + sd, SCALE as int);
        crate::fixed::lemma_tquot_mono((-b - sd) * SCALE, (-b + sd) * SCALE, a);
    }
}

/// Narrowing the far end of the window is harmless: a hit below the new far
/// end is reported unchanged over the narrowed window, and any hit over the
/// narrowed window was already the hit over the wide one.
pub proof fn lemma_sphere_hit_narrow(s: SphereV, r: RayV, t_min: int, t_mid: int, t_max: int)
    requires
        dot3(r.direction, r.direction) >= 1,
        t_mid <= t_max,
    ensures
        sphere_hit(s, r, t_min, t_max) matches Some(h) ==> h.t < t_mid ==> sphere_hit(
            s,
            r,
            t_min,
            t_mid,
        ) == Some(h),
        sphere_hit(s, r, t_min, t_mid) matches Some(g) ==> sphere_hit(s, r, t_min, t_max)
            == Some(g),
{
    lemma_sphere_roots_ordered(s, r);
}

/// Any hit a sphere reports lies strictly inside the queried window.
pub proof fn lemma_sphere_hit_window(s: SphereV, r: RayV, t_min: int, t_max: int)
    ensures
        sphere_hit(s, r, t_min, t_max) matches Some(h) ==> t_min < h.t < t_max,
{
}

/// An analytic sphere with its material.
#[derive(Clone, Copy, Debug, PartialEq, Eq, Structural)]
pub struct Sphere {
    center: Vec3,
    radius: Fx,
    material: Material,
}

impl View for Sphere {
    type V = SphereV;

    closed spec fn view(&self) -> SphereV {
        SphereV { center: self.center@, radius: self.radius@, material: self.material }
    }
}

impl Sphere {
    /// A well-formed sphere: center and radius within the model's limits and
    /// a well-formed material.
    pub open spec fn wf(self) -> bool {
        within(self@.center, CENTER_MAX as int) && RADIUS_MIN <= abs(self@.radius) <= RADIUS_MAX
            && self@.material.wf()
    }

    /// A sphere with the given center, radius and material.
    pub fn new(center: &Vec3, radius: Fx, material: Material) -> (r: Sphere)
        ensures
            r@ == (SphereV { center: center@, radius: radius@, material }),
    {
        Sphere { center: *center, radius, material }
    }

    /// The center.
    pub fn center(&self) -> (r: &Vec3)
        ensures
            r@ == self@.center,
    {
        &self.center
    }

    /// The radius.
    pub fn radius(&self) -> (r: Fx)
        ensures
            r@ == self@.radius,
    {
        self.radius
    }

    /// Intersects `ray` with the sphere over `(t_min, t_max)`, returning the
    /// record of the nearest accepted root, exactly as [`sphere_hit`] says.
    #[verifier::rlimit(50)]
    pub fn is_hit(&self, ray: &Ray, scalar_from_ray_origin_min: Fx, scalar_from_ray_origin_max:
        Fx) -> (r: Option<HitRecord>)
        requires
            self.wf(),
            ray_bounded(ray@),
            abs(scalar_from_ray_origin_min@) <= T_LIM,
            abs(scalar_from_ray_origin_max@) <= T_LIM,
        ensures
            match r {
                None => sphere_hit(
                    self@,
                    ray@,
                    scalar_from_ray_origin_min@,
                    scalar_from_ray_origin_max@,
                ) is None,
                Some(h) => sphere_hit(
                    self@,
                    ray@,
                    scalar_from_ray_origin_min@,
                    scalar_from_ray_origin_max@,
                ) == Some(h@),
            },
    {
        proof {
            lemma_dot3_bound(ray@.direction, ray@.direction, RAY_MAX as int, RAY_MAX as int);
            lemma_dot3_bound(
                v3_sub(ray@.origin, self@.center),
                ray@.direction,
                0x500_0000,
                RAY_MAX as int,
            );
            lemma_dot3_bound(
                v3_sub(ray@.origin, self@.center),
                v3_sub(ray@.origin, self@.center),
                0x500_0000,
                0x500_0000,
            );
            lemma_mul_abs_bound(self@.radius, self@.radius, RADIUS_MAX as int, RADIUS_MAX as int);
            lemma_tquot_bound(
                self@.radius * self@.radius,
                SCALE as int,
                0x1_0000_0000_0000,
            );
            assert(3 * (0x400_0000int * 0x400_0000) == 0x30_0000_0000_0000) by (nonlinear_arith);
            assert(3 * (0x500_0000int * 0x400_0000) == 0x3C_0000_0000_0000) by (nonlinear_arith);
            assert(3 * (0x500_0000int * 0x500_0000) == 0x4B_0000_0000_0000) by (nonlinear_arith);
            assert(0x100_0000int * 0x100_0000 == 0x1_0000_0000_0000) by (nonlinear_arith);
        }
        let center_offset = ray.origin().sub(self.center());
        let a = ray.direction().dot(ray.direction());
        let b = center_offset.dot(ray.direction());
        let c = center_offset.dot(&center_offset).sub(self.radius.mul(self.radius));
        proof {
            lemma_mul_abs_bound(b@, b@, 0x3C_0000_0000, 0x3C_0000_0000);
            lemma_tquot_bound(b@ * b@, SCALE as int, 0xE10_0000_0000_0000_0000);
            lemma_mul_abs_bound(a@, c@, 0x30_0000_0000, 0x4C_0000_0000);
            lemma_tquot_bound(a@ * c@, SCALE as int, 0xE40_0000_0000_0000_0000);
            assert(0x3C_0000_0000int * 0x3C_0000_0000 == 0xE10_0000_0000_0000_0000)
                by (nonlinear_arith);
            assert(0x30_0000_0000int * 0x4C_0000_0000 == 0xE40_0000_0000_0000_0000)
                by (nonlinear_arith);
        }
        let discriminant = b.mul(b).sub(a.mul(c));
        let zero = Fx::from_raw(0);
        if discriminant.gt(zero) {
            let sq_disc = discriminant.sqrt();
            proof {
                if sq_disc@ >= 0x80_0000_0000 {
                    lemma_sq_mono(0x80_0000_0000, sq_disc@);
                    assert(0x80_0000_0000int * 0x80_0000_0000 == 0x4000_0000_0000_0000_0000)
                        by (nonlinear_arith);
                    assert(false);
                }
                lemma_mul_abs_bound(-b@ - sq_disc@, SCALE as int, 0xBC_0000_0000, SCALE as int);
                lemma_mul_abs_bound(-b@ + sq_disc@, SCALE as int, 0xBC_0000_0000, SCALE as int);
                lemma_tquot_bound_div((-b@ - sq_disc@) * SCALE, a@, 0xBC_0000_0000_0000, 1);
                lemma_tquot_bound_div((-b@ + sq_disc@) * SCALE, a@, 0xBC_0000_0000_0000, 1);
                assert(0xBC_0000_0000int * 0x1_0000 == 0xBC_0000_0000_0000) by (nonlinear_arith);
            }
            let t1 = b.neg().sub(sq_disc).div(a);
            if t1.lt(scalar_from_ray_origin_max) && t1.gt(scalar_from_ray_origin_min) {
                return Some(self.hit_record_at(ray, t1));
            }
            let t2 = b.neg().add(sq_disc).div(a);
            if t2.lt(scalar_from_ray_origin_max) && t2.gt(scalar_from_ray_origin_min) {
                return Some(self.hit_record_at(ray, t2));
            }
            None
        } else {
            None
        }
    }

    /// Builds the hit record for an accepted root `t`.
    fn hit_record_at(&self, ray: &Ray, t: Fx) -> (r: HitRecord)
        requires
            self.wf(),
            ray_bounded(ray@),
            abs(t@) <= T_LIM,
        ensures
            r@ == sphere_hit_at(self@, ray@, t@),
    {
        proof {
            lemma_v3_scale_bound(t@, ray@.direction, T_LIM as int, RAY_MAX as int);
            assert(0x80_0000_0000int * 0x400_0000 == 0x2_0000_0000_0000_0000)
                by (nonlinear_arith);
            assert((0x2_0000_0000_0000_0000int) / 0x1_0000 == 0x2_0000_0000_0000);
        }
        let point_at_parameter = ray.point_at_parameter(t);
        proof {
            lemma_v3_div_scalar_bound(
                v3_sub(point_at_parameter@, self@.center),
                self@.radius,
                0x4_0000_0000_0000,
                RADIUS_MIN as int,
            );
            assert(0x4_0000_0000_0000int * 0x1_0000 == 0x4_0000_0000_0000_0000)
                by (nonlinear_arith);
            assert((0x4_0000_0000_0000_0000int) / 32 == 0x2000_0000_0000_0000);
        }
        let normal = point_at_parameter.sub(self.center()).div_scalar(self.radius);
        HitRecord::new(t, &point_at_parameter, &normal, self.material)
    }
}

} // verus!
