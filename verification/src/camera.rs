//! The virtual camera: maps normalized image-plane coordinates to
//! world-space rays.

use crate::fixed::{Fx, SCALE};
use crate::ray::{Ray, RayV};
use crate::vec3::{
    lemma_v3_scale_bound, v3_add, v3_scale, v3_sub, within, Vec3, V3,
};
use vstd::prelude::*;

verus! {

/// Largest component magnitude of a well-formed camera's vectors
/// (256 whole units): keeps `get_ray` free of overflow and its rays inside
/// the window the intersection routines accept.
pub const CAM_MAX: i64 = 0x100_0000;

/// The mathematical model of a camera.
pub ghost struct CameraV {
    pub origin: V3,
    pub lower_left_corner: V3,
    pub horizontal: V3,
    pub vertical: V3,
}

/// The ray cast for image-plane coordinates `(u, v)`: from the camera origin
/// toward `lower_left_corner + u*horizontal + v*vertical - origin`.
pub open spec fn camera_ray(c: CameraV, u: int, v: int) -> RayV {
    RayV {
        origin: c.origin,
        direction: v3_sub(
            v3_add(
                v3_add(c.lower_left_corner, v3_scale(u, c.horizontal)),
                v3_scale(v, c.vertical),
            ),
            c.origin,
        ),
    }
}

/// All camera vectors bounded by [`CAM_MAX`].
pub open spec fn camera_within(c: CameraV) -> bool {
    within(c.origin, CAM_MAX as int) && within(c.lower_left_corner, CAM_MAX as int) && within(
        c.horizontal,
        CAM_MAX as int,
    ) && within(c.vertical, CAM_MAX as int)
}

/// A bounded camera casts rays whose origin and direction both stay within
/// the window the intersection routines accept.
pub proof fn lemma_camera_ray_bounded(c: CameraV, u: int, v: int)
    requires
        camera_within(c),
        0 <= u <= SCALE,
        0 <= v <= SCALE,
    ensures
        within(camera_ray(c, u, v).origin, crate::sphere::RAY_MAX as int),
        within(camera_ray(c, u, v).direction, crate::sphere::RAY_MAX as int),
{
    lemma_v3_scale_bound(u, c.horizontal, SCALE as int, CAM_MAX as int);
    lemma_v3_scale_bound(v, c.vertical, SCALE as int, CAM_MAX as int);
    assert((SCALE as int) * (CAM_MAX as int) / (SCALE as int) == CAM_MAX as int)
        by (nonlinear_arith);
}

/// An axis-aligned viewport camera, fixed for a whole render.
#[derive(Clone, Copy, Debug, PartialEq, Eq, Structural)]
pub struct Camera {
    origin: Vec3,
    lower_left_corner: Vec3,
    horizontal: Vec3,
    vertical: Vec3,
}

impl View for Camera {
    type V = CameraV;

    closed spec fn view(&self) -> CameraV {
        CameraV {
            origin: self.origin@,
            lower_left_corner: self.lower_left_corner@,
            horizontal: self.horizontal@,
            vertical: self.vertical@,
        }
    }
}

impl Camera {
    /// A camera with the given viewport vectors.
    pub fn new(origin: &Vec3, horizontal: &Vec3, vertical: &Vec3, lower_left_corner: &Vec3) -> (r:
        Camera)
        ensures
            r@ == (CameraV {
                origin: origin@,
                lower_left_corner: lower_left_corner@,
                horizontal: horizontal@,
                vertical: vertical@,
            }),
    {
        Camera {
            origin: *origin,
            horizontal: *horizontal,
            vertical: *vertical,
            lower_left_corner: *lower_left_corner,
        }
    }

    /// The default camera: origin at the world origin, a 4x2 viewport one
    /// unit in front of it.
    pub fn default() -> (r: Camera)
        ensures
            r@ == (CameraV {
                origin: V3 { x: 0, y: 0, z: 0 },
                lower_left_corner: V3 { x: -2 * SCALE, y: -SCALE as int, z: -SCALE as int },
                horizontal: V3 { x: 4 * SCALE, y: 0, z: 0 },
                vertical: V3 { x: 0, y: 2 * SCALE, z: 0 },
            }),
            camera_within(r@),
    {
        let zero = Fx::from_raw(0);
        Camera {
            origin: Vec3::new(zero, zero, zero),
            lower_left_corner: Vec3::new(Fx::from_int(-2), Fx::from_int(-1), Fx::from_int(-1)),
            horizontal: Vec3::new(Fx::from_int(4), zero, zero),
            vertical: Vec3::new(zero, Fx::from_int(2), zero),
        }
    }

    /// The ray through image-plane coordinates `(u, v)`, each in `[0, 1]`.
    pub fn get_ray(&self, u: Fx, v: Fx) -> (r: Ray)
        requires
            camera_within(self@),
            0 <= u@ <= SCALE,
            0 <= v@ <= SCALE,
        ensures
            r@ == camera_ray(self@, u@, v@),
    {
        proof {
            lemma_v3_scale_bound(u@, self@.horizontal, SCALE as int, CAM_MAX as int);
            lemma_v3_scale_bound(v@, self@.vertical, SCALE as int, CAM_MAX as int);
            assert((SCALE as int) * (CAM_MAX as int) / (SCALE as int) == CAM_MAX as int)
                by (nonlinear_arith);
        }
        let uh = self.horizontal.scale(u);
        let vv = self.vertical.scale(v);
        let dir = self.lower_left_corner.add(&uh).add(&vv).sub(&self.origin);
        Ray::new(&self.origin, &dir)
    }
}

} // verus!
