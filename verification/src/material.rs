//! The material scattering model: Lambertian (diffuse), Metal (specular with
//! fuzz) and Dielectric (refractive with Fresnel-Schlick reflectance).
//!
//! Each material, given an incoming ray and a hit, decides whether light
//! scatters and, if so, in what new ray with what attenuation.  The random
//! choices are drawn from a caller-supplied generator; for each material a
//! deterministic `scatter_with` takes the drawn sample as an argument and has
//! an exact contract, and `scatter` draws the sample and calls it.

use crate::fixed::{
    clamp, clamp_fx, fx_div, fx_mul, fx_sqrt, lemma_mul_abs_bound, lemma_sq_mono,
    lemma_tquot_bound, lemma_tquot_bound_div, Fx, SCALE,
};
use crate::hit::{HitRecord, HitV};
use crate::ray::{Ray, RayV};
use crate::rng::random_unit;
use crate::sphere::RAY_MAX;
use crate::vec3::{
    dot3, len3, lemma_dot3_bound, lemma_len3_lower, lemma_unit3_bound, lemma_v3_scale_bound,
    sq_len3, unit3, v3_add, v3_neg, v3_scale, v3_sub, within, within01, Vec3, V3,
};
use vstd::arithmetic::div_mod::lemma_div_is_ordered_by_denominator;
use vstd::math::abs;
use vstd::pervasive::unreached;
use vstd::prelude::*;

verus! {

/// Largest component magnitude of a hit normal the scatter routines accept
/// (two whole units; geometric normals are unit-length up to truncation).
pub const NORMAL_MAX: i64 = 0x2_0000;

/// The cosine handed to the Schlick approximation is clamped to this
/// magnitude (four whole units); geometric inputs keep it within one.
pub const COS_LIM: i64 = 0x4_0000;

/// The all-ones color (no absorption).
pub open spec fn white3() -> V3 {
    V3 { x: SCALE as int, y: SCALE as int, z: SCALE as int }
}

/// Upper bound on a well-formed metal's fuzz (16 whole units).
pub const FUZZ_MAX: i64 = 0x10_0000;

/// Magnitude range of a well-formed refractive index: 1/16 to 16.
pub const REF_IDX_MIN: i64 = 0x1000;

/// See [`REF_IDX_MIN`].
pub const REF_IDX_MAX: i64 = 0x10_0000;

/// A scatter decision: the color attenuation and the scattered ray.
pub ghost struct ScatterV {
    pub attenuation: V3,
    pub scattered: crate::ray::RayV,
}

/// The outcome of a scatter decision, consumed by one step of the integrator.
#[derive(Clone, Copy, Debug, PartialEq, Eq, Structural)]
pub struct ScatterResult {
    attenuation: Vec3,
    scattered: crate::ray::Ray,
}

impl View for ScatterResult {
    type V = ScatterV;

    closed spec fn view(&self) -> ScatterV {
        ScatterV { attenuation: self.attenuation@, scattered: self.scattered@ }
    }
}

impl ScatterResult {
    /// Packs an attenuation and a scattered ray.
    pub fn new(attenuation: Vec3, scattered: crate::ray::Ray) -> (r: ScatterResult)
        ensures
            r@ == (ScatterV { attenuation: attenuation@, scattered: scattered@ }),
    {
        ScatterResult { attenuation, scattered }
    }

    /// The color attenuation.
    pub fn attenuation(&self) -> (r: &Vec3)
        ensures
            r@ == self@.attenuation,
    {
        &self.attenuation
    }

    /// The scattered ray.
    pub fn scattered(&self) -> (r: &crate::ray::Ray)
        ensures
            r@ == self@.scattered,
    {
        &self.scattered
    }
}

/// A diffuse surface.
#[derive(Clone, Copy, Debug, PartialEq, Eq, Structural)]
pub struct Lambertian {
    albedo: Vec3,
}

impl Lambertian {
    /// The albedo, as its model triple.
    pub closed spec fn albedo3(self) -> V3 {
        self.albedo@
    }

    /// A well-formed diffuse surface has a color (components in `[0, 1]`)
    /// for its albedo.
    pub open spec fn wf(self) -> bool {
        within01(self.albedo3())
    }

    /// A diffuse surface with the given albedo.
    pub fn new(albedo: &Vec3) -> (r: Lambertian)
        ensures
            r.albedo3() == albedo@,
    {
        Lambertian { albedo: *albedo }
    }

    /// The albedo.
    pub fn albedo(&self) -> (r: &Vec3)
        ensures
            r@ == self.albedo3(),
    {
        &self.albedo
    }
}

/// A specular surface, with a fuzz radius perturbing each reflection.
#[derive(Clone, Copy, Debug, PartialEq, Eq, Structural)]
pub struct Metal {
    albedo: Vec3,
    fuzz: Fx,
}

impl Metal {
    /// The albedo, as its model triple.
    pub closed spec fn albedo3(self) -> V3 {
        self.albedo@
    }

    /// The fuzz radius, as its raw count.
    pub closed spec fn fuzz_val(self) -> int {
        self.fuzz@
    }

    /// A well-formed metal has a color for its albedo and a moderate fuzz.
    pub open spec fn wf(self) -> bool {
        within01(self.albedo3()) && 0 <= self.fuzz_val() <= FUZZ_MAX
    }

    /// A specular surface with the given albedo; a negative fuzz is clamped
    /// to zero.
    pub fn new(albedo: &Vec3, fuzz: Fx) -> (r: Metal)
        ensures
            r.albedo3() == albedo@,
            r.fuzz_val() == if fuzz@ < 0 { 0int } else { fuzz@ },
    {
        let zero = Fx::from_raw(0);
        let fuzz = if fuzz.lt(zero) {
            zero
        } else {
            fuzz
        };
        Metal { albedo: *albedo, fuzz }
    }

    /// The albedo.
    pub fn albedo(&self) -> (r: &Vec3)
        ensures
            r@ == self.albedo3(),
    {
        &self.albedo
    }

    /// The fuzz radius.
    pub fn fuzz(&self) -> (r: Fx)
        ensures
            r@ == self.fuzz_val(),
    {
        self.fuzz
    }
}

/// A refractive surface (glass): scatters by reflection or Snell refraction,
/// never absorbing.
#[derive(Clone, Copy, Debug, PartialEq, Eq, Structural)]
pub struct Dielectric {
    ref_idx: Fx,
}

impl Dielectric {
    /// The refractive index, as its raw count.
    pub closed spec fn ref_idx_val(self) -> int {
        self.ref_idx@
    }

    /// A well-formed refractive index lies between 1/16 and 16.
    pub open spec fn wf(self) -> bool {
        REF_IDX_MIN <= self.ref_idx_val() <= REF_IDX_MAX
    }

    /// A refractive surface with the given index.
    pub fn new(ref_idx: Fx) -> (r: Dielectric)
        ensures
            r.ref_idx_val() == ref_idx@,
    {
        Dielectric { ref_idx }
    }
}

/// A material: one of the three closed variants, dispatched by tag.
#[derive(Clone, Copy, Debug, PartialEq, Eq, Structural)]
pub enum Material {
    Lambertian(Lambertian),
    Metal(Metal),
    Dielectric(Dielectric),
}

impl Material {
    /// Well-formedness of the wrapped variant.
    pub open spec fn wf(self) -> bool {
        match self {
            Material::Lambertian(l) => l.wf(),
            Material::Metal(m) => m.wf(),
            Material::Dielectric(d) => d.wf(),
        }
    }

    /// The attenuation this material applies to scattered light: its albedo,
    /// or no absorption at all for a dielectric.
    pub open spec fn attenuation3(self) -> V3 {
        match self {
            Material::Lambertian(l) => l.albedo3(),
            Material::Metal(m) => m.albedo3(),
            Material::Dielectric(d) => white3(),
        }
    }

    /// Scatters an incoming ray off this material, drawing any randomness
    /// from `rng`.  The attenuation and the scattered origin are pinned; the
    /// per-variant `scatter_with` functions pin the direction for a given
    /// sample.  Only a metal can absorb the ray.
    pub fn scatter(&self, ray_in: &Ray, hit_record: &HitRecord, rng: &mut fastrand::Rng) -> (r:
        Option<ScatterResult>)
        requires
            self.wf(),
            within(ray_in@.direction, RAY_MAX as int),
            sq_len3(ray_in@.direction) >= 1,
            within(hit_record@.point, RAY_MAX as int),
            within(hit_record@.normal, NORMAL_MAX as int),
        ensures
            match r {
                Some(s) => s@.attenuation == self.attenuation3() && s@.scattered.origin
                    == hit_record@.point,
                None => self is Metal,
            },
    {
        match self {
            Material::Lambertian(l) => Some(l.scatter_with(hit_record, &random_in_unit_sphere(rng))),
            Material::Metal(m) => m.scatter_with(ray_in, hit_record, &random_in_unit_sphere(rng)),
            Material::Dielectric(d) => d.scatter_with(ray_in, hit_record, random_unit(rng)),
        }
    }
}

/// A point inside the unit ball, at the model's resolution.
pub open spec fn in_unit_ball(p: V3) -> bool {
    within(p, SCALE as int) && sq_len3(p) < SCALE
}

/// The reflection of `v` about the normal `n`: `v - 2*(v . n)*n`.
pub open spec fn reflect3(v: V3, n: V3) -> V3 {
    v3_sub(v, v3_scale(2 * dot3(v, n), n))
}

/// Snell refraction of `v` through a surface with outward normal `n` and
/// refraction ratio `ni_over_nt`; `None` on total internal reflection.
pub open spec fn refract3(v: V3, n: V3, ni_over_nt: int) -> Option<V3> {
    let u = unit3(v);
    let dt = dot3(u, n);
    let disc = SCALE - fx_mul(fx_mul(ni_over_nt, ni_over_nt), SCALE - fx_mul(dt, dt));
    if disc > 0 {
        Some(
            v3_sub(
                v3_scale(ni_over_nt, v3_sub(u, v3_scale(dt, n))),
                v3_scale(fx_sqrt(disc), n),
            ),
        )
    } else {
        None
    }
}

/// The fifth power, truncating after each multiplication.
pub open spec fn pow5_fx(x: int) -> int {
    fx_mul(fx_mul(fx_mul(fx_mul(x, x), x), x), x)
}

/// The Fresnel-Schlick reflectance approximation:
/// `r0 + (1 - r0)*(1 - cosine)^5` with `r0 = ((1 - n)/(1 + n))^2`.
pub open spec fn schlick_fx(cosine: int, ref_idx: int) -> int {
    let r0 = fx_div(SCALE - ref_idx, SCALE + ref_idx);
    let r0s = fx_mul(r0, r0);
    fx_mul(SCALE - r0s, pow5_fx(SCALE - cosine)) + r0s
}

/// A rejection-sampled point uniformly inside the unit ball: draw a point of
/// `[-1, 1)^3` and retry while its squared length reaches 1 (acceptance is
/// about one draw in two).  The retries are bounded so that termination is
/// provable; the center is returned in the never-observed case that every
/// draw is rejected.
pub fn random_in_unit_sphere(rng: &mut fastrand::Rng) -> (p: Vec3)
    ensures
        in_unit_ball(p@),
{
    let one = Fx::from_int(1);
    let two = Fx::from_int(2);
    let ones = Vec3::new(one, one, one);
    let mut attempts: u32 = 0;
    while attempts < 256
        invariant
            one@ == SCALE,
            two@ == 2 * SCALE,
            ones@ == (V3 { x: SCALE as int, y: SCALE as int, z: SCALE as int }),
        decreases 256 - attempts,
    {
        let drawn = Vec3::new(random_unit(rng), random_unit(rng), random_unit(rng));
        proof {
            lemma_v3_scale_bound(two@, drawn@, 2 * SCALE, SCALE as int);
            assert((2 * (SCALE as int)) * (SCALE as int) / (SCALE as int) == 2 * (SCALE as int))
                by (nonlinear_arith);
        }
        let candidate = drawn.scale(two).sub(&ones);
        if candidate.squared_length().lt(one) {
            return candidate;
        }
        attempts = attempts + 1;
    }
    let zero = Fx::from_raw(0);
    let center = Vec3::new(zero, zero, zero);
    proof {
        crate::vec3::lemma_sq_len3_nonneg(center@);
        crate::fixed::lemma_tquot_bound(
            crate::vec3::dot_num(center@, center@),
            SCALE as int,
            0,
        );
    }
    center
}

/// Reflects `v` about the normal `n`.
fn reflect(v: &Vec3, n: &Vec3) -> (r: Vec3)
    requires
        within(v@, RAY_MAX as int),
        within(n@, NORMAL_MAX as int),
    ensures
        r@ == reflect3(v@, n@),
{
    proof {
        lemma_dot3_bound(v@, n@, RAY_MAX as int, NORMAL_MAX as int);
        assert(3 * (0x400_0000int * 0x2_0000) == 0x1800_0000_0000) by (nonlinear_arith);
        lemma_v3_scale_bound(2 * dot3(v@, n@), n@, 0x3000_0000, NORMAL_MAX as int);
        assert(0x3000_0000int * 0x2_0000 == 0x6000_0000_0000) by (nonlinear_arith);
    }
    let d = v.dot(n);
    let two_d = d.add(d);
    v.sub(&n.scale(two_d))
}

/// Attempts Snell refraction; fails on total internal reflection.
fn refract(v: &Vec3, n: &Vec3, ni_over_nt: Fx) -> (r: Option<Vec3>)
    requires
        within(v@, RAY_MAX as int),
        sq_len3(v@) >= 1,
        within(n@, NORMAL_MAX as int),
        0 < ni_over_nt@ <= REF_IDX_MAX,
    ensures
        match r {
            Some(x) => refract3(v@, n@, ni_over_nt@) == Some(x@),
            None => refract3(v@, n@, ni_over_nt@) is None,
        },
{
    proof {
        lemma_unit3_bound(v@);
        lemma_dot3_bound(unit3(v@), n@, NORMAL_MAX as int, NORMAL_MAX as int);
        assert(3 * (0x2_0000int * 0x2_0000) == 0xC_0000_0000) by (nonlinear_arith);
        let dt = dot3(unit3(v@), n@);
        lemma_mul_abs_bound(dt, dt, 0xC_0000, 0xC_0000);
        lemma_tquot_bound(dt * dt, SCALE as int, 0x90_0000_0000);
        assert(0xC_0000int * 0xC_0000 == 0x90_0000_0000) by (nonlinear_arith);
        lemma_mul_abs_bound(ni_over_nt@, ni_over_nt@, 0x10_0000, 0x10_0000);
        lemma_tquot_bound(ni_over_nt@ * ni_over_nt@, SCALE as int, 0x100_0000_0000);
        assert(0x10_0000int * 0x10_0000 == 0x100_0000_0000) by (nonlinear_arith);
        let ni2 = fx_mul(ni_over_nt@, ni_over_nt@);
        let inner = SCALE - fx_mul(dt, dt);
        lemma_mul_abs_bound(ni2, inner, 0x100_0000, 0x91_0000);
        lemma_tquot_bound(ni2 * inner, SCALE as int, 0x9100_0000_0000);
        assert(0x100_0000int * 0x91_0000 == 0x9100_0000_0000) by (nonlinear_arith);
    }
    let unit = v.unit_vector();
    let dt = unit.dot(n);
    let one = Fx::from_int(1);
    let discriminant = one.sub(ni_over_nt.mul(ni_over_nt).mul(one.sub(dt.mul(dt))));
    if discriminant.gt(Fx::from_raw(0)) {
        let sq_disc = discriminant.sqrt();
        proof {
            if sq_disc@ >= 0x1000_0000 {
                lemma_sq_mono(0x1000_0000, sq_disc@);
                assert(0x1000_0000int * 0x1000_0000 == 0x100_0000_0000_0000)
                    by (nonlinear_arith);
                assert(false);
            }
            let dt_s = dot3(unit3(v@), n@);
            lemma_v3_scale_bound(dt_s, n@, 0xC_0000, NORMAL_MAX as int);
            assert(0xC_0000int * 0x2_0000 == 0x18_0000_0000) by (nonlinear_arith);
            lemma_v3_scale_bound(
                ni_over_nt@,
                v3_sub(unit3(v@), v3_scale(dt_s, n@)),
                0x10_0000,
                0x1A_0000,
            );
            assert(0x10_0000int * 0x1A_0000 == 0x1A0_0000_0000) by (nonlinear_arith);
            lemma_v3_scale_bound(sq_disc@, n@, 0x1000_0000, NORMAL_MAX as int);
            assert(0x1000_0000int * 0x2_0000 == 0x2000_0000_0000) by (nonlinear_arith);
        }
        let refracted = unit.sub(&n.scale(dt)).scale(ni_over_nt).sub(&n.scale(sq_disc));
        Some(refracted)
    } else {
        None
    }
}

/// The Fresnel-Schlick reflectance for a (clamped) cosine.
fn schlick(cosine: Fx, ref_idx: Fx) -> (r: Fx)
    requires
        abs(cosine@) <= COS_LIM,
        REF_IDX_MIN <= ref_idx@ <= REF_IDX_MAX,
    ensures
        r@ == schlick_fx(cosine@, ref_idx@),
{
    proof {
        lemma_mul_abs_bound(SCALE - ref_idx@, SCALE as int, 0x11_0000, SCALE as int);
        lemma_tquot_bound_div(
            (SCALE - ref_idx@) * SCALE,
            SCALE + ref_idx@,
            0x11_0000_0000,
            SCALE as int,
        );
        assert(0x11_0000int * 0x1_0000 == 0x11_0000_0000) by (nonlinear_arith);
        assert(0x11_0000_0000int / 0x1_0000 == 0x11_0000);
        let r0 = fx_div(SCALE - ref_idx@, SCALE + ref_idx@);
        lemma_mul_abs_bound(r0, r0, 0x11_0000, 0x11_0000);
        lemma_tquot_bound(r0 * r0, SCALE as int, 0x121_0000_0000);
        assert(0x11_0000int * 0x11_0000 == 0x121_0000_0000) by (nonlinear_arith);
        let x = SCALE - cosine@;
        lemma_mul_abs_bound(x, x, 0x5_0000, 0x5_0000);
        lemma_tquot_bound(x * x, SCALE as int, 0x19_0000_0000);
        assert(0x5_0000int * 0x5_0000 == 0x19_0000_0000) by (nonlinear_arith);
        let x2 = fx_mul(x, x);
        lemma_mul_abs_bound(x2, x, 0x19_0000, 0x5_0000);
        lemma_tquot_bound(x2 * x, SCALE as int, 0x7D_0000_0000);
        assert(0x19_0000int * 0x5_0000 == 0x7D_0000_0000) by (nonlinear_arith);
        let x3 = fx_mul(x2, x);
        lemma_mul_abs_bound(x3, x, 0x7D_0000, 0x5_0000);
        lemma_tquot_bound(x3 * x, SCALE as int, 0x271_0000_0000);
        assert(0x7D_0000int * 0x5_0000 == 0x271_0000_0000) by (nonlinear_arith);
        let x4 = fx_mul(x3, x);
        lemma_mul_abs_bound(x4, x, 0x271_0000, 0x5_0000);
        lemma_tquot_bound(x4 * x, SCALE as int, 0xC35_0000_0000);
        assert(0x271_0000int * 0x5_0000 == 0xC35_0000_0000) by (nonlinear_arith);
        let x5 = pow5_fx(x);
        let r0s = fx_mul(r0, r0);
        lemma_mul_abs_bound(SCALE - r0s, x5, 0x122_0000, 0xC35_0000);
        lemma_tquot_bound((SCALE - r0s) * x5, SCALE as int, 0xD_D40A_0000_0000);
        assert(0x122_0000int * 0xC35_0000 == 0xD_D40A_0000_0000) by (nonlinear_arith);
    }
    let one = Fx::from_int(1);
    let r0 = one.sub(ref_idx).div(one.add(ref_idx));
    let r0s = r0.mul(r0);
    let x = one.sub(cosine);
    let x5 = x.mul(x).mul(x).mul(x).mul(x);
    one.sub(r0s).mul(x5).add(r0s)
}

impl Lambertian {
    /// The deterministic core of diffuse scattering for a drawn unit-ball
    /// sample: the scattered ray leaves the hit point toward
    /// `normal + sample`, attenuated by the albedo.
    pub fn scatter_with(&self, hit_record: &HitRecord, sample: &Vec3) -> (r: ScatterResult)
        requires
            within(hit_record@.point, RAY_MAX as int),
            within(hit_record@.normal, NORMAL_MAX as int),
            in_unit_ball(sample@),
        ensures
            r@ == (ScatterV {
                attenuation: self.albedo3(),
                scattered: RayV {
                    origin: hit_record@.point,
                    direction: v3_add(hit_record@.normal, sample@),
                },
            }),
    {
        let target = hit_record.point().add(hit_record.normal()).add(sample);
        let scattered = Ray::new(hit_record.point(), &target.sub(hit_record.point()));
        ScatterResult::new(self.albedo, scattered)
    }

    /// Diffuse scattering: always scatters, toward the normal perturbed by a
    /// random unit-ball point.
    pub fn scatter(&self, _ray_in: &Ray, hit_record: &HitRecord, rng: &mut fastrand::Rng) -> (r:
        Option<ScatterResult>)
        requires
            within(hit_record@.point, RAY_MAX as int),
            within(hit_record@.normal, NORMAL_MAX as int),
        ensures
            match r {
                Some(s) => exists|p: V3|
                    in_unit_ball(p) && s@ == (ScatterV {
                        attenuation: self.albedo3(),
                        scattered: RayV {
                            origin: hit_record@.point,
                            direction: v3_add(hit_record@.normal, p),
                        },
                    }),
                None => false,
            },
    {
        let sample = random_in_unit_sphere(rng);
        let result = self.scatter_with(hit_record, &sample);
        proof {
            assert(in_unit_ball(sample@) && result@ == (ScatterV {
                attenuation: self.albedo3(),
                scattered: RayV {
                    origin: hit_record@.point,
                    direction: v3_add(hit_record@.normal, sample@),
                },
            }));
        }
        Some(result)
    }
}

/// The direction a metal scatters toward for a drawn sample: the reflection
/// of the normalized incoming direction, perturbed by `fuzz * sample`.
pub open spec fn metal_dir(m: Metal, r: RayV, h: HitV, p: V3) -> V3 {
    v3_add(reflect3(unit3(r.direction), h.normal), v3_scale(m.fuzz_val(), p))
}

impl Metal {
    /// The deterministic core of specular scattering for a drawn unit-ball
    /// sample: reflect, perturb by the fuzz, and absorb the ray if the
    /// result points into the surface.
    pub fn scatter_with(&self, ray_in: &Ray, hit_record: &HitRecord, sample: &Vec3) -> (r: Option<
        ScatterResult>)
        requires
            self.wf(),
            within(ray_in@.direction, RAY_MAX as int),
            sq_len3(ray_in@.direction) >= 1,
            within(hit_record@.point, RAY_MAX as int),
            within(hit_record@.normal, NORMAL_MAX as int),
            in_unit_ball(sample@),
        ensures
            match r {
                Some(s) => dot3(metal_dir(*self, ray_in@, hit_record@, sample@), hit_record@.normal)
                    > 0 && s@ == (ScatterV {
                    attenuation: self.albedo3(),
                    scattered: RayV {
                        origin: hit_record@.point,
                        direction: metal_dir(*self, ray_in@, hit_record@, sample@),
                    },
                }),
                None => dot3(metal_dir(*self, ray_in@, hit_record@, sample@), hit_record@.normal)
                    <= 0,
            },
    {
        proof {
            lemma_unit3_bound(ray_in@.direction);
            lemma_dot3_bound(unit3(ray_in@.direction), hit_record@.normal, NORMAL_MAX as int, NORMAL_MAX as int);
            assert(3 * (0x2_0000int * 0x2_0000) == 0xC_0000_0000) by (nonlinear_arith);
            lemma_v3_scale_bound(
                2 * dot3(unit3(ray_in@.direction), hit_record@.normal),
                hit_record@.normal,
                0x18_0000,
                NORMAL_MAX as int,
            );
            assert(0x18_0000int * 0x2_0000 == 0x30_0000_0000) by (nonlinear_arith);
            lemma_v3_scale_bound(self.fuzz_val(), sample@, FUZZ_MAX as int, SCALE as int);
            assert(0x10_0000int * 0x1_0000 == 0x10_0000_0000) by (nonlinear_arith);
        }
        let reflected = reflect(&ray_in.direction().unit_vector(), hit_record.normal());
        let scattered_direction = reflected.add(&sample.scale(self.fuzz));
        let scattered = Ray::new(hit_record.point(), &scattered_direction);
        if scattered_direction.dot(hit_record.normal()).gt(Fx::from_raw(0)) {
            Some(ScatterResult::new(self.albedo, scattered))
        } else {
            None
        }
    }

    /// Specular scattering: reflect the incoming direction about the normal,
    /// perturbed by the fuzz; absorb rays that would enter the surface.
    pub fn scatter(&self, ray_in: &Ray, hit_record: &HitRecord, rng: &mut fastrand::Rng) -> (r:
        Option<ScatterResult>)
        requires
            self.wf(),
            within(ray_in@.direction, RAY_MAX as int),
            sq_len3(ray_in@.direction) >= 1,
            within(hit_record@.point, RAY_MAX as int),
            within(hit_record@.normal, NORMAL_MAX as int),
        ensures
            match r {
                Some(s) => exists|p: V3|
                    in_unit_ball(p) && dot3(
                        metal_dir(*self, ray_in@, hit_record@, p),
                        hit_record@.normal,
                    ) > 0 && s@ == (ScatterV {
                        attenuation: self.albedo3(),
                        scattered: RayV {
                            origin: hit_record@.point,
                            direction: metal_dir(*self, ray_in@, hit_record@, p),
                        },
                    }),
                None => exists|p: V3|
                    in_unit_ball(p) && dot3(
                        metal_dir(*self, ray_in@, hit_record@, p),
                        hit_record@.normal,
                    ) <= 0,
            },
    {
        let sample = random_in_unit_sphere(rng);
        let ghost p = sample@;
        let result = self.scatter_with(ray_in, hit_record, &sample);
        proof {
            assert(in_unit_ball(p));
        }
        result
    }
}

/// The full dielectric scatter decision for a drawn coin in `[0, 1)`:
/// compute the facing normal and refraction ratio from the side the ray
/// meets, attempt refraction, evaluate the Schlick reflectance (on a cosine
/// clamped to [`COS_LIM`]; 1 when refraction is impossible), and reflect
/// when the coin falls below it, else refract.  Glass absorbs nothing.
pub open spec fn dielectric_scatter(d: Dielectric, r: RayV, h: HitV, coin: int) -> ScatterV {
    let reflected = reflect3(r.direction, h.normal);
    let dn = dot3(r.direction, h.normal);
    let outward = if dn > 0 {
        v3_neg(h.normal)
    } else {
        h.normal
    };
    let ni = if dn > 0 {
        d.ref_idx_val()
    } else {
        fx_div(SCALE as int, d.ref_idx_val())
    };
    let cos_raw = if dn > 0 {
        fx_div(fx_mul(d.ref_idx_val(), dn), len3(r.direction))
    } else {
        fx_div(-dn, len3(r.direction))
    };
    let cosine = clamp_fx(cos_raw, -COS_LIM as int, COS_LIM as int);
    match refract3(r.direction, outward, ni) {
        Some(refracted) => if coin < schlick_fx(cosine, d.ref_idx_val()) {
            ScatterV { attenuation: white3(), scattered: RayV { origin: h.point, direction: reflected } }
        } else {
            ScatterV { attenuation: white3(), scattered: RayV { origin: h.point, direction: refracted } }
        },
        None => ScatterV {
            attenuation: white3(),
            scattered: RayV { origin: h.point, direction: reflected },
        },
    }
}

impl Dielectric {
    /// The deterministic core of dielectric scattering for a drawn coin.
    #[verifier::rlimit(50)]
    pub fn scatter_with(&self, ray_in: &Ray, hit_record: &HitRecord, coin: Fx) -> (r: Option<
        ScatterResult>)
        requires
            self.wf(),
            within(ray_in@.direction, RAY_MAX as int),
            sq_len3(ray_in@.direction) >= 1,
            within(hit_record@.point, RAY_MAX as int),
            within(hit_record@.normal, NORMAL_MAX as int),
            0 <= coin@ < SCALE,
        ensures
            match r {
                Some(s) => s@ == dielectric_scatter(*self, ray_in@, hit_record@, coin@),
                None => false,
            },
    {
        proof {
            lemma_dot3_bound(ray_in@.direction, hit_record@.normal, RAY_MAX as int, NORMAL_MAX as int);
            assert(3 * (0x400_0000int * 0x2_0000) == 0x1800_0000_0000) by (nonlinear_arith);
            lemma_len3_lower(ray_in@.direction);
        }
        let reflected = reflect(ray_in.direction(), hit_record.normal());
        let one = Fx::from_int(1);
        let attenuation = Vec3::new(one, one, one);
        let zero = Fx::from_raw(0);
        let dn = ray_in.direction().dot(hit_record.normal());
        let direction_length = ray_in.direction().length();
        let (outward_normal, ni_over_nt, cos_raw) = if dn.gt(zero) {
            proof {
                lemma_mul_abs_bound(self.ref_idx_val(), dn@, REF_IDX_MAX as int, 0x1800_0000);
                lemma_tquot_bound(self.ref_idx_val() * dn@, SCALE as int, 0x1_8000_0000_0000);
                assert(0x10_0000int * 0x1800_0000 == 0x1_8000_0000_0000) by (nonlinear_arith);
                let c = fx_mul(self.ref_idx_val(), dn@);
                lemma_mul_abs_bound(c, SCALE as int, 0x1_8000_0000, SCALE as int);
                lemma_tquot_bound_div(
                    c * SCALE,
                    len3(ray_in@.direction),
                    0x1_8000_0000_0000,
                    256,
                );
                assert(0x1_8000_0000int * 0x1_0000 == 0x1_8000_0000_0000)
                    by (nonlinear_arith);
            }
            (
                hit_record.normal().neg(),
                self.ref_idx,
                self.ref_idx.mul(dn).div(direction_length),
            )
        } else {
            proof {
                lemma_tquot_bound_div(
                    (SCALE as int) * SCALE,
                    self.ref_idx_val(),
                    0x1_0000_0000,
                    REF_IDX_MIN as int,
                );
                lemma_div_is_ordered_by_denominator(
                    0x1_0000_0000,
                    self.ref_idx_val(),
                    REF_IDX_MAX as int,
                );
                assert(fx_div(SCALE as int, self.ref_idx_val())
                    == 0x1_0000_0000int / self.ref_idx_val());
                lemma_mul_abs_bound(-dn@, SCALE as int, 0x1800_0000, SCALE as int);
                lemma_tquot_bound_div(
                    (-dn@) * SCALE,
                    len3(ray_in@.direction),
                    0x1800_0000_0000,
                    256,
                );
                assert(0x1800_0000int * 0x1_0000 == 0x1800_0000_0000) by (nonlinear_arith);
            }
            (
                *hit_record.normal(),
                one.div(self.ref_idx),
                dn.neg().div(direction_length),
            )
        };
        let cosine = clamp(cos_raw, Fx::from_int(-4), Fx::from_int(4));
        let refraction_result = refract(ray_in.direction(), &outward_normal, ni_over_nt);
        let reflect_probability = match &refraction_result {
            Some(_) => schlick(cosine, self.ref_idx),
            None => one,
        };
        let scattered = if coin.lt(reflect_probability) {
            Ray::new(hit_record.point(), &reflected)
        } else {
            match refraction_result {
                Some(refracted) => Ray::new(hit_record.point(), &refracted),
                None => unreached(),
            }
        };
        Some(ScatterResult::new(attenuation, scattered))
    }

    /// Dielectric scattering: draw the reflect/refract coin and decide.
    pub fn scatter(&self, ray_in: &Ray, hit_record: &HitRecord, rng: &mut fastrand::Rng) -> (r:
        Option<ScatterResult>)
        requires
            self.wf(),
            within(ray_in@.direction, RAY_MAX as int),
            sq_len3(ray_in@.direction) >= 1,
            within(hit_record@.point, RAY_MAX as int),
            within(hit_record@.normal, NORMAL_MAX as int),
        ensures
            match r {
                Some(s) => exists|c: int|
                    0 <= c < SCALE && s@ == dielectric_scatter(*self, ray_in@, hit_record@, c),
                None => false,
            },
    {
        let coin = random_unit(rng);
        let ghost c = coin@;
        let result = self.scatter_with(ray_in, hit_record, coin);
        proof {
            assert(0 <= c < SCALE);
        }
        result
    }
}

} // verus!
