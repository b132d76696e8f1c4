//! Hit records and the aggregate of hittable objects.
//!
//! A [`HitRecord`] is created fresh per intersection test and consumed by one
//! step of the integrator.  Its `normal` is the geometric normal
//! `(point - center) / radius`, whose orientation follows the sign of the
//! radius; the dielectric material flips it by the ray direction when it
//! needs a facing normal.

use crate::fixed::Fx;
use crate::material::Material;
use crate::ray::{Ray, RayV};
use crate::sphere::{ray_bounded, sphere_hit, Sphere, T_LIM};
use crate::vec3::{Vec3, V3};
use vstd::math::abs;
use vstd::prelude::*;

verus! {

/// The mathematical model of a hit: the ray parameter, the hit point, the
/// geometric normal and the material hit.
pub ghost struct HitV {
    pub t: int,
    pub point: V3,
    pub normal: V3,
    pub material: Material,
}

/// An intersection of a ray with a surface.
#[derive(Clone, Copy, Debug, PartialEq, Eq, Structural)]
pub struct HitRecord {
    scalar_from_ray_origin: Fx,
    point: Vec3,
    normal: Vec3,
    material: Material,
}

impl View for HitRecord {
    type V = HitV;

    closed spec fn view(&self) -> HitV {
        HitV {
            t: self.scalar_from_ray_origin@,
            point: self.point@,
            normal: self.normal@,
            material: self.material,
        }
    }
}

impl HitRecord {
    /// Packs an intersection.
    pub fn new(scalar_from_ray_origin: Fx, point: &Vec3, normal: &Vec3, material: Material) -> (r:
        HitRecord)
        ensures
            r@ == (HitV {
                t: scalar_from_ray_origin@,
                point: point@,
                normal: normal@,
                material,
            }),
    {
        HitRecord { scalar_from_ray_origin, point: *point, normal: *normal, material }
    }

    /// The ray parameter at the intersection.
    pub fn scalar_from_ray_origin(&self) -> (r: Fx)
        ensures
            r@ == self@.t,
    {
        self.scalar_from_ray_origin
    }

    /// The hit point.
    pub fn point(&self) -> (r: &Vec3)
        ensures
            r@ == self@.point,
    {
        &self.point
    }

    /// The geometric normal at the hit point.
    pub fn normal(&self) -> (r: &Vec3)
        ensures
            r@ == self@.normal,
    {
        &self.normal
    }

    /// The material of the object hit.
    pub fn material(&self) -> (r: Material)
        ensures
            r == self@.material,
    {
        self.material
    }
}

/// Anything a ray can intersect within a parametric interval.  The sphere is
/// the sole variant; dispatch is a switch over the tag.
#[derive(Clone, Copy, Debug, PartialEq, Eq, Structural)]
pub enum Hittable {
    Sphere(Sphere),
}

impl Hittable {
    /// Well-formedness of the wrapped object.
    pub open spec fn wf(self) -> bool {
        match self {
            Hittable::Sphere(s) => s.wf(),
        }
    }

    /// The intersection this object reports over `(t_min, t_max)`.
    pub open spec fn spec_hit(self, r: RayV, t_min: int, t_max: int) -> Option<HitV> {
        match self {
            Hittable::Sphere(s) => sphere_hit(s@, r, t_min, t_max),
        }
    }

    /// Intersects `ray` with the object over `(t_min, t_max)`.
    pub fn is_hit(&self, ray: &Ray, scalar_from_ray_origin_min: Fx, scalar_from_ray_origin_max:
        Fx) -> (r: Option<HitRecord>)
        requires
            self.wf(),
            ray_bounded(ray@),
            abs(scalar_from_ray_origin_min@) <= T_LIM,
            abs(scalar_from_ray_origin_max@) <= T_LIM,
        ensures
            match r {
                None => self.spec_hit(
                    ray@,
                    scalar_from_ray_origin_min@,
                    scalar_from_ray_origin_max@,
                ) is None,
                Some(h) => self.spec_hit(
                    ray@,
                    scalar_from_ray_origin_min@,
                    scalar_from_ray_origin_max@,
                ) == Some(h@),
            },
    {
        match self {
            Hittable::Sphere(s) => s.is_hit(
                ray,
                scalar_from_ray_origin_min,
                scalar_from_ray_origin_max,
            ),
        }
    }
}

/// Any hit an object reports lies strictly inside the queried window.
pub proof fn lemma_spec_hit_window(o: Hittable, r: RayV, t_min: int, t_max: int)
    ensures
        o.spec_hit(r, t_min, t_max) matches Some(h) ==> t_min < h.t < t_max,
{
    match o {
        Hittable::Sphere(s) => {
            crate::sphere::lemma_sphere_hit_window(s@, r, t_min, t_max);
        },
    }
}

/// The model of an optional hit record.
pub open spec fn hit_opt_view(o: Option<HitRecord>) -> Option<HitV> {
    match o {
        Some(h) => Some(h@),
        None => None,
    }
}

/// The first option if present, else the second.
pub open spec fn hit_or(first: Option<HitV>, second: Option<HitV>) -> Option<HitV> {
    match first {
        Some(h) => Some(h),
        None => second,
    }
}

/// The intersection an ordered sequence of objects reports: each object is
/// asked over a window narrowed to the closest hit found so far, so later
/// candidates can only beat, never tie-replace, the current best.
pub open spec fn list_hit(s: Seq<Hittable>, r: RayV, t_min: int, t_max: int) -> Option<HitV>
    decreases s.len(),
{
    if s.len() == 0 {
        None
    } else {
        match s[0].spec_hit(r, t_min, t_max) {
            None => list_hit(s.skip(1), r, t_min, t_max),
            Some(h) => hit_or(list_hit(s.skip(1), r, t_min, h.t), Some(h)),
        }
    }
}

/// Narrowing the far end of the window is harmless for any object: see
/// [`crate::sphere::lemma_sphere_hit_narrow`].
pub proof fn lemma_spec_hit_narrow(o: Hittable, r: RayV, t_min: int, t_mid: int, t_max: int)
    requires
        crate::vec3::dot3(r.direction, r.direction) >= 1,
        t_mid <= t_max,
    ensures
        o.spec_hit(r, t_min, t_max) matches Some(h) ==> h.t < t_mid ==> o.spec_hit(
            r,
            t_min,
            t_mid,
        ) == Some(h),
        o.spec_hit(r, t_min, t_mid) matches Some(g) ==> o.spec_hit(r, t_min, t_max) == Some(g),
{
    match o {
        Hittable::Sphere(s) => {
            crate::sphere::lemma_sphere_hit_narrow(s@, r, t_min, t_mid, t_max);
        },
    }
}

/// A hit reported by a sequence of objects lies strictly inside the queried
/// window.
pub proof fn lemma_list_hit_window(s: Seq<Hittable>, r: RayV, t_min: int, t_max: int)
    ensures
        list_hit(s, r, t_min, t_max) matches Some(h) ==> t_min < h.t < t_max,
    decreases s.len(),
{
    if s.len() > 0 {
        lemma_spec_hit_window(s[0], r, t_min, t_max);
        match s[0].spec_hit(r, t_min, t_max) {
            None => {
                lemma_list_hit_window(s.skip(1), r, t_min, t_max);
            },
            Some(h0) => {
                lemma_list_hit_window(s.skip(1), r, t_min, h0.t);
            },
        }
    }
}

/// A sequence of objects reports no intersection exactly when none of its
/// members does.
pub proof fn lemma_list_hit_none(s: Seq<Hittable>, r: RayV, t_min: int, t_max: int)
    ensures
        (list_hit(s, r, t_min, t_max) is None) <==> (forall|i: int|
            0 <= i < s.len() ==> (#[trigger] s[i]).spec_hit(r, t_min, t_max) is None),
    decreases s.len(),
{
    if s.len() > 0 {
        assert(forall|i: int| 0 <= i < s.skip(1).len() ==> #[trigger] s.skip(1)[i] == s[i + 1]);
        lemma_list_hit_none(s.skip(1), r, t_min, t_max);
        match s[0].spec_hit(r, t_min, t_max) {
            Some(h0) => {
                assert(list_hit(s, r, t_min, t_max) is Some);
            },
            None => {
                if list_hit(s, r, t_min, t_max) is None {
                    assert forall|i: int| 0 <= i < s.len() implies (#[trigger] s[i]).spec_hit(
                        r,
                        t_min,
                        t_max,
                    ) is None by {
                        if i >= 1 {
                            assert(s[i] == s.skip(1)[i - 1]);
                        }
                    }
                } else {
                    assert(list_hit(s.skip(1), r, t_min, t_max) is Some);
                    let j = choose|j: int|
                        0 <= j < s.skip(1).len() && !((#[trigger] s.skip(1)[j]).spec_hit(
                            r,
                            t_min,
                            t_max,
                        ) is None);
                    assert(s[j + 1].spec_hit(r, t_min, t_max) is Some);
                }
            },
        }
    }
}

/// The intersection a sequence of objects reports is the nearest: no member
/// intersects the ray at a smaller parameter within the same window.
pub proof fn lemma_list_hit_min(s: Seq<Hittable>, r: RayV, t_min: int, t_max: int)
    requires
        crate::vec3::dot3(r.direction, r.direction) >= 1,
    ensures
        list_hit(s, r, t_min, t_max) matches Some(h) ==> forall|i: int|
            0 <= i < s.len() ==> match (#[trigger] s[i]).spec_hit(r, t_min, t_max) {
                Some(hi) => h.t <= hi.t,
                None => true,
            },
    decreases s.len(),
{
    if s.len() == 0 {
        return ;
    }
    assert(forall|i: int| 0 <= i < s.skip(1).len() ==> #[trigger] s.skip(1)[i] == s[i + 1]);
    lemma_spec_hit_window(s[0], r, t_min, t_max);
    match s[0].spec_hit(r, t_min, t_max) {
        None => {
            lemma_list_hit_min(s.skip(1), r, t_min, t_max);
            match list_hit(s, r, t_min, t_max) {
                Some(h) => {
                    assert forall|i: int| 0 <= i < s.len() implies match (
                    #[trigger] s[i]).spec_hit(r, t_min, t_max) {
                        Some(hi) => h.t <= hi.t,
                        None => true,
                    } by {
                        if i >= 1 {
                            assert(s[i] == s.skip(1)[i - 1]);
                        }
                    }
                },
                None => {},
            }
        },
        Some(h0) => {
            lemma_list_hit_window(s.skip(1), r, t_min, h0.t);
            lemma_list_hit_min(s.skip(1), r, t_min, h0.t);
            match list_hit(s.skip(1), r, t_min, h0.t) {
                Some(h2) => {
                    assert forall|i: int| 0 <= i < s.len() implies match (
                    #[trigger] s[i]).spec_hit(r, t_min, t_max) {
                        Some(hi) => h2.t <= hi.t,
                        None => true,
                    } by {
                        if i >= 1 {
                            assert(s[i] == s.skip(1)[i - 1]);
                            lemma_spec_hit_narrow(s[i], r, t_min, h0.t, t_max);
                        }
                    }
                },
                None => {
                    lemma_list_hit_none(s.skip(1), r, t_min, h0.t);
                    assert forall|i: int| 0 <= i < s.len() implies match (
                    #[trigger] s[i]).spec_hit(r, t_min, t_max) {
                        Some(hi) => h0.t <= hi.t,
                        None => true,
                    } by {
                        if i >= 1 {
                            assert(s[i] == s.skip(1)[i - 1]);
                            lemma_spec_hit_narrow(s[i], r, t_min, h0.t, t_max);
                        }
                    }
                },
            }
        },
    }
}

/// A hit reported by a sequence of well-formed objects carries a well-formed
/// material, and lies strictly inside the queried window.
pub proof fn lemma_list_hit_wf(s: Seq<Hittable>, r: RayV, t_min: int, t_max: int)
    requires
        forall|i: int| 0 <= i < s.len() ==> (#[trigger] s[i]).wf(),
    ensures
        list_hit(s, r, t_min, t_max) matches Some(h) ==> h.material.wf() && t_min < h.t < t_max,
    decreases s.len(),
{
    if s.len() > 0 {
        assert(forall|i: int|
            0 <= i < s.skip(1).len() ==> (#[trigger] s.skip(1)[i]).wf() && s.skip(1)[i] == s[i
                + 1]);
        lemma_spec_hit_window(s[0], r, t_min, t_max);
        match s[0].spec_hit(r, t_min, t_max) {
            None => {
                lemma_list_hit_wf(s.skip(1), r, t_min, t_max);
            },
            Some(h0) => {
                match s[0] {
                    Hittable::Sphere(sp) => {
                        assert(h0.material == sp@.material);
                    },
                }
                lemma_list_hit_wf(s.skip(1), r, t_min, h0.t);
            },
        }
    }
}

/// An ordered aggregate of hittable objects.
#[derive(Debug)]
pub struct HittableList {
    list: Vec<Hittable>,
}

impl View for HittableList {
    type V = Seq<Hittable>;

    closed spec fn view(&self) -> Seq<Hittable> {
        self.list@
    }
}

impl HittableList {
    /// All members well-formed.
    pub open spec fn wf(self) -> bool {
        forall|i: int| 0 <= i < self@.len() ==> (#[trigger] self@[i]).wf()
    }

    /// An empty aggregate.
    pub fn new() -> (r: HittableList)
        ensures
            r@.len() == 0,
    {
        HittableList { list: Vec::new() }
    }

    /// The members.
    pub fn list(&self) -> (r: &Vec<Hittable>)
        ensures
            r@ == self@,
    {
        &self.list
    }

    /// Mutable access to the members.
    pub fn list_mut(&mut self) -> (r: &mut Vec<Hittable>)
        ensures
            r@ == old(self)@,
            final(self)@ == final(r)@,
    {
        &mut self.list
    }

    /// Intersects `ray` with every member, returning the nearest accepted
    /// intersection, exactly as [`list_hit`] says.
    pub fn is_hit(&self, ray: &Ray, scalar_from_ray_origin_min: Fx, scalar_from_ray_origin_max:
        Fx) -> (r: Option<HitRecord>)
        requires
            self.wf(),
            ray_bounded(ray@),
            abs(scalar_from_ray_origin_min@) <= T_LIM,
            abs(scalar_from_ray_origin_max@) <= T_LIM,
        ensures
            hit_opt_view(r) == list_hit(
                self@,
                ray@,
                scalar_from_ray_origin_min@,
                scalar_from_ray_origin_max@,
            ),
    {
        let ghost tmin = scalar_from_ray_origin_min@;
        let ghost tmax = scalar_from_ray_origin_max@;
        let mut accumulator: Option<HitRecord> = None;
        let mut closest_so_far = scalar_from_ray_origin_max;
        let mut i: usize = 0;
        proof {
            assert(self@.skip(0) =~= self@);
        }
        while i < self.list.len()
            invariant
                self.wf(),
                ray_bounded(ray@),
                abs(tmin) <= T_LIM,
                abs(tmax) <= T_LIM,
                tmin == scalar_from_ray_origin_min@,
                0 <= i <= self.list.len(),
                self@ == self.list@,
                abs(closest_so_far@) <= T_LIM,
                match accumulator {
                    None => closest_so_far@ == tmax,
                    Some(b) => b@.t == closest_so_far@,
                },
                list_hit(self@, ray@, tmin, tmax) == hit_or(
                    list_hit(self@.skip(i as int), ray@, tmin, closest_so_far@),
                    hit_opt_view(accumulator),
                ),
            decreases self.list.len() - i,
        {
            let current_hittable = self.list[i];
            proof {
                assert(self@.skip(i as int)[0] == self@[i as int]);
                assert(self@.skip(i as int).skip(1) =~= self@.skip(i as int + 1));
                lemma_spec_hit_window(current_hittable, ray@, tmin, closest_so_far@);
            }
            let hit = current_hittable.is_hit(ray, scalar_from_ray_origin_min, closest_so_far);
            if let Some(hit_record) = hit {
                closest_so_far = hit_record.scalar_from_ray_origin();
                accumulator = Some(hit_record);
            }
            i = i + 1;
        }
        proof {
            assert(self@.skip(i as int) =~= Seq::<Hittable>::empty());
        }
        accumulator
    }
}

} // verus!
