//! The recursive light-transport integrator, and the gamma-corrected
//! quantization of the colors it produces.
//!
//! `color` intersects a ray against the world over `(T_NEAR, T_LIM)` (the
//! small lower bound avoids immediate re-self-intersection), returns the sky
//! gradient when nothing is hit, and otherwise recurses along the scattered
//! ray, multiplying attenuations, up to a depth of [`MAX_DEPTH`] bounces.
//! Scattered rays that leave the model's bounded window are treated as
//! absorbed (black), exactly as the contract states.

use crate::fixed::{
    clamp, clamp_fx, fx_mul, fx_sqrt, lemma_mul_abs_bound, lemma_sq_mono, lemma_tquot_bound,
    tquot, Fx, SCALE,
};
use crate::hit::{list_hit, lemma_list_hit_wf, HittableList};
use crate::material::{white3, NORMAL_MAX};
use crate::ray::Ray;
use crate::vec3::{
    lemma_unit3_bound, lemma_v3_mul_color, lemma_v3_scale_bound, unit3, v3_add, v3_mul, v3_scale,
    within, Vec3, V3,
};
use crate::sphere::{ray_bounded, RAY_MAX, T_LIM};
use vstd::arithmetic::div_mod::lemma_div_is_ordered;
use vstd::prelude::*;

verus! {

/// Lower parametric bound for every intersection query (about 0.001 units):
/// avoids shadow acne from immediate re-self-intersection.
pub const T_NEAR: i64 = 66;

/// Recursion cutoff: a ray is absorbed after this many bounces.
pub const MAX_DEPTH: u8 = 50;

/// Every color the integrator returns has components within this magnitude
/// (four whole units; physical colors stay within one, callers clamp before
/// quantizing).
pub const COLOR_LIM: i64 = 0x4_0000;

/// Black: the absorbed-ray color.
pub open spec fn black3() -> V3 {
    V3 { x: 0, y: 0, z: 0 }
}

/// The sky's blue horizon endpoint, `(0.5, 0.7, 1.0)` at the model's
/// resolution.
pub open spec fn sky_blue3() -> V3 {
    V3 { x: 0x8000, y: 0xB333, z: SCALE as int }
}

/// The background sky gradient: linear interpolation between white and sky
/// blue by `0.5 * (unit_direction.y + 1)`.
pub open spec fn sky_color(d: V3) -> V3 {
    let u = unit3(d);
    let t = fx_mul(0x8000, u.y + SCALE);
    v3_add(v3_scale(SCALE - t, white3()), v3_scale(t, sky_blue3()))
}

/// The sky gradient for a ray that missed everything.
fn sky(ray: &Ray) -> (c: Vec3)
    requires
        ray_bounded(ray@),
    ensures
        c@ == sky_color(ray@.direction),
        within(c@, COLOR_LIM as int),
{
    proof {
        lemma_unit3_bound(ray@.direction);
        let u = unit3(ray@.direction);
        lemma_mul_abs_bound(0x8000, u.y + SCALE, 0x8000, 0x3_0000);
        lemma_tquot_bound(0x8000 * (u.y + SCALE), SCALE as int, 0x1_8000_0000);
        assert(0x8000int * 0x3_0000 == 0x1_8000_0000) by (nonlinear_arith);
        let t = fx_mul(0x8000, u.y + SCALE);
        lemma_v3_scale_bound(SCALE - t, white3(), 0x2_8000, SCALE as int);
        lemma_v3_scale_bound(t, sky_blue3(), 0x1_8000, SCALE as int);
        assert(0x2_8000int * 0x1_0000 == 0x2_8000_0000) by (nonlinear_arith);
        assert(0x1_8000int * 0x1_0000 == 0x1_8000_0000) by (nonlinear_arith);
    }
    let unit_direction = ray.direction().unit_vector();
    let one = Fx::from_int(1);
    let half = Fx::from_raw(0x8000);
    let lerp_factor = half.mul(unit_direction.y().add(one));
    let white = Vec3::new(one, one, one);
    let blue = Vec3::new(half, Fx::from_raw(0xB333), one);
    white.scale(one.sub(lerp_factor)).add(&blue.scale(lerp_factor))
}

/// The light arriving along `ray` from `world`, estimated by one stochastic
/// path of at most `MAX_DEPTH - depth` further bounces.
///
/// The contract pins everything the randomness does not reach: a miss
/// returns the sky gradient exactly; a hit at the depth cutoff returns
/// black; a hit above the cutoff returns black (the ray was absorbed, or its
/// scatter left the model's window) or the material's attenuation times some
/// bounded color carried back along the scattered path.
pub fn color(ray: &Ray, world: &HittableList, depth: u8, rng: &mut fastrand::Rng) -> (c: Vec3)
    requires
        world.wf(),
        ray_bounded(ray@),
    ensures
        within(c@, COLOR_LIM as int),
        list_hit(world@, ray@, T_NEAR as int, T_LIM as int) is None ==> c@ == sky_color(
            ray@.direction,
        ),
        (list_hit(world@, ray@, T_NEAR as int, T_LIM as int) is Some && depth >= MAX_DEPTH)
            ==> c@ == black3(),
        list_hit(world@, ray@, T_NEAR as int, T_LIM as int) matches Some(h) ==> depth < MAX_DEPTH
            ==> (c@ == black3() || exists|sub: V3|
            within(sub, COLOR_LIM as int) && c@ == v3_mul(h.material.attenuation3(), sub)),
    decreases (if depth < MAX_DEPTH { MAX_DEPTH - depth } else { 0int }),
{
    proof {
        lemma_list_hit_wf(world@, ray@, T_NEAR as int, T_LIM as int);
    }
    let hit = world.is_hit(ray, Fx::from_raw(T_NEAR), Fx::from_raw(T_LIM));
    let zero = Fx::from_raw(0);
    let black = Vec3::new(zero, zero, zero);
    match hit {
        None => sky(ray),
        Some(hit_record) => {
            if depth < MAX_DEPTH {
                if hit_record.point().within_bounds(RAY_MAX)
                    && hit_record.normal().within_bounds(NORMAL_MAX) {
                    if let Some(scatter_result) = hit_record.material().scatter(
                        ray,
                        &hit_record,
                        rng,
                    ) {
                        if scatter_result.scattered().direction().within_bounds(RAY_MAX) {
                            let d = scatter_result.scattered().direction().dot(
                                scatter_result.scattered().direction(),
                            );
                            if d.gt(zero) {
                                let sub_color = color(
                                    scatter_result.scattered(),
                                    world,
                                    depth + 1,
                                    rng,
                                );
                                proof {
                                    lemma_v3_mul_color(
                                        scatter_result@.attenuation,
                                        sub_color@,
                                        COLOR_LIM as int,
                                    );
                                }
                                let result = scatter_result.attenuation().mul(&sub_color);
                                proof {
                                    assert(within(sub_color@, COLOR_LIM as int) && result@
                                        == v3_mul(
                                        hit_record@.material.attenuation3(),
                                        sub_color@,
                                    ));
                                }
                                return result;
                            }
                        }
                    }
                }
            }
            black
        },
    }
}

/// The 8-bit value of one linear color channel: clamped to `[0, 1]`,
/// gamma-corrected by square root, scaled by 255.99 and truncated.
pub open spec fn channel_byte(v: int) -> int {
    tquot(25599 * fx_sqrt(clamp_fx(v, 0, SCALE as int)), 6553600)
}

/// One channel of [`quantize`].
fn channel(v: Fx) -> (b: u8)
    ensures
        b as int == channel_byte(v@),
{
    let zero = Fx::from_raw(0);
    let one = Fx::from_int(1);
    let clamped = clamp(v, zero, one);
    let s = clamped.sqrt();
    proof {
        if s@ > 0x1_0000 {
            lemma_sq_mono(0x1_0001, s@);
            assert(0x1_0001int * 0x1_0001 > 0x1_0000_0000) by (nonlinear_arith);
            assert(0x1_0000int * 0x1_0000 == 0x1_0000_0000) by (nonlinear_arith);
            lemma_mul_abs_bound(clamped@, SCALE as int, SCALE as int, SCALE as int);
            assert(false);
        }
        lemma_div_is_ordered(25599 * s@, 1677656064, 6553600);
        assert(1677656064int / 6553600 == 255);
    }
    let q = (25599u64 * (s.raw() as u64)) / 6553600;
    q as u8
}

/// The 8-bit RGB triple of a linear color, as the PPM driver emits it.
pub fn quantize(color: &Vec3) -> (rgb: (u8, u8, u8))
    ensures
        rgb.0 as int == channel_byte(color@.x),
        rgb.1 as int == channel_byte(color@.y),
        rgb.2 as int == channel_byte(color@.z),
{
    (channel(color.x()), channel(color.y()), channel(color.z()))
}

} // verus!
