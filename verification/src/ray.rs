//! Rays: an origin plus a direction, with point-at-parameter evaluation.

use crate::fixed::Fx;
use crate::vec3::{fits3, v3_add, v3_scale, Vec3, V3};
use vstd::prelude::*;

verus! {

/// The mathematical model of a ray.
pub ghost struct RayV {
    pub origin: V3,
    pub direction: V3,
}

/// The point reached after travelling `t` along the ray.
pub open spec fn ray_at(r: RayV, t: int) -> V3 {
    v3_add(r.origin, v3_scale(t, r.direction))
}

/// A ray determines its model and the model determines the ray: the
/// counterpart of [`crate::vec3::lemma_vec3_determined`], making every pure
/// ray operation deterministic.
pub proof fn lemma_ray_determined(a: Ray, b: Ray)
    requires
        a@ == b@,
    ensures
        a == b,
{
    crate::vec3::lemma_vec3_determined(a.origin, b.origin);
    crate::vec3::lemma_vec3_determined(a.direction, b.direction);
}

/// A ray: origin plus direction.  No unit-length invariant is imposed on the
/// direction; operations normalize where they need to.
#[derive(Clone, Copy, Debug, PartialEq, Eq, Structural)]
pub struct Ray {
    origin: Vec3,
    direction: Vec3,
}

impl View for Ray {
    type V = RayV;

    closed spec fn view(&self) -> RayV {
        RayV { origin: self.origin@, direction: self.direction@ }
    }
}

impl Ray {
    /// The ray starting at `origin` toward `direction`.
    pub fn new(origin: &Vec3, direction: &Vec3) -> (r: Ray)
        ensures
            r@ == (RayV { origin: origin@, direction: direction@ }),
    {
        Ray { origin: *origin, direction: *direction }
    }

    /// The ray's origin.
    pub fn origin(&self) -> (r: &Vec3)
        ensures
            r@ == self@.origin,
    {
        &self.origin
    }

    /// The ray's direction.
    pub fn direction(&self) -> (r: &Vec3)
        ensures
            r@ == self@.direction,
    {
        &self.direction
    }

    /// The point `origin + scalar_length * direction`.
    pub fn point_at_parameter(&self, scalar_length: Fx) -> (r: Vec3)
        requires
            fits3(v3_scale(scalar_length@, self@.direction)),
            fits3(ray_at(self@, scalar_length@)),
        ensures
            r@ == ray_at(self@, scalar_length@),
    {
        self.origin.add(&self.direction.scale(scalar_length))
    }
}

} // verus!
