use ray_tracer::fixed::Fx;
use ray_tracer::hit::{Hittable, HittableList};
use ray_tracer::material::{Lambertian, Material};
use ray_tracer::ray::Ray;
use ray_tracer::sphere::Sphere;
use ray_tracer::vec3::Vec3;

fn fx(units: i32) -> Fx {
    Fx::from_int(units)
}

fn v(x: i32, y: i32, z: i32) -> Vec3 {
    Vec3::new(fx(x), fx(y), fx(z))
}

fn half() -> Fx {
    Fx::from_raw(32768)
}

fn gray() -> Material {
    Material::Lambertian(Lambertian::new(&Vec3::new(half(), half(), half())))
}

fn t_near() -> Fx {
    Fx::from_raw(66)
}

fn t_far() -> Fx {
    Fx::from_raw(0x80_0000_0000)
}

// A ray aimed straight at a sphere's center hits at the analytic parameter,
// point and normal, exactly.
#[test]
fn head_on_hit_is_exact() {
    let sphere = Sphere::new(&v(0, 0, -1), half(), gray());
    let ray = Ray::new(&v(0, 0, 0), &v(0, 0, -1));
    let hit = sphere.is_hit(&ray, t_near(), t_far()).unwrap();
    assert_eq!(hit.scalar_from_ray_origin().raw(), 32768);
    assert_eq!(hit.point().x().raw(), 0);
    assert_eq!(hit.point().y().raw(), 0);
    assert_eq!(hit.point().z().raw(), -32768);
    assert_eq!(hit.normal().x().raw(), 0);
    assert_eq!(hit.normal().y().raw(), 0);
    assert_eq!(hit.normal().z().raw(), 65536);
}

// Any accepted hit point lies on the sphere: its distance from the center is
// the radius, within the model's resolution.
#[test]
fn hit_point_lies_on_sphere() {
    let center = v(0, 0, -3);
    let sphere = Sphere::new(&center, fx(1), gray());
    let ray = Ray::new(&v(0, 0, 0), &Vec3::new(Fx::from_raw(9830), Fx::from_raw(-4915), fx(-1)));
    let hit = sphere.is_hit(&ray, t_near(), t_far()).unwrap();
    let offset = hit.point().sub(&center);
    let dist = offset.length().raw();
    assert!((dist - 65536).abs() <= 512, "distance {dist}");
    // The stored normal is (point - center) / radius, unit length here.
    let nlen = hit.normal().length().raw();
    assert!((nlen - 65536).abs() <= 512, "normal length {nlen}");
}

#[test]
fn miss_returns_none() {
    let sphere = Sphere::new(&v(0, 0, -1), half(), gray());
    let away = Ray::new(&v(0, 0, 0), &v(0, 0, 1));
    assert!(sphere.is_hit(&away, t_near(), t_far()).is_none());
    let offside = Ray::new(&v(0, 0, 0), &v(0, 1, 0));
    assert!(sphere.is_hit(&offside, t_near(), t_far()).is_none());
}

#[test]
fn window_excludes_roots() {
    let sphere = Sphere::new(&v(0, 0, -1), half(), gray());
    let ray = Ray::new(&v(0, 0, 0), &v(0, 0, -1));
    // Both roots (0.5 and 1.5) lie outside (2, far).
    assert!(sphere.is_hit(&ray, fx(2), t_far()).is_none());
    // The near root is below 1, so the far root (1.5) is accepted.
    let far_hit = sphere.is_hit(&ray, fx(1), t_far()).unwrap();
    assert_eq!(far_hit.scalar_from_ray_origin().raw(), 98304);
}

// A negative radius flips the stored normal, which hollow glass spheres use.
#[test]
fn negative_radius_flips_normal() {
    let sphere = Sphere::new(&v(0, 0, -1), Fx::from_raw(-32768), gray());
    let ray = Ray::new(&v(0, 0, 0), &v(0, 0, -1));
    let hit = sphere.is_hit(&ray, t_near(), t_far()).unwrap();
    assert_eq!(hit.scalar_from_ray_origin().raw(), 32768);
    assert_eq!(hit.normal().z().raw(), -65536);
}

// Over two disjoint spheres the aggregate returns the intersection with the
// smaller parameter, whichever order the spheres were inserted in.
#[test]
fn list_returns_nearest_of_two() {
    let near = Sphere::new(&v(0, 0, -1), half(), gray());
    let far = Sphere::new(&v(0, 0, -4), half(), gray());
    let ray = Ray::new(&v(0, 0, 0), &v(0, 0, -1));

    let mut world = HittableList::new();
    world.list_mut().push(Hittable::Sphere(near));
    world.list_mut().push(Hittable::Sphere(far));
    let hit = world.is_hit(&ray, t_near(), t_far()).unwrap();
    assert_eq!(hit.scalar_from_ray_origin().raw(), 32768);

    let mut reversed = HittableList::new();
    reversed.list_mut().push(Hittable::Sphere(far));
    reversed.list_mut().push(Hittable::Sphere(near));
    let hit_reversed = reversed.is_hit(&ray, t_near(), t_far()).unwrap();
    assert_eq!(
        hit_reversed.scalar_from_ray_origin().raw(),
        hit.scalar_from_ray_origin().raw()
    );
}

#[test]
fn list_misses_when_every_member_misses() {
    let a = Sphere::new(&v(0, 0, -1), half(), gray());
    let b = Sphere::new(&v(0, 0, -4), half(), gray());
    let mut world = HittableList::new();
    world.list_mut().push(Hittable::Sphere(a));
    world.list_mut().push(Hittable::Sphere(b));
    let up = Ray::new(&v(0, 0, 0), &v(0, 1, 0));
    assert!(world.is_hit(&up, t_near(), t_far()).is_none());
    assert_eq!(world.list().len(), 2);
}

// Intersection is pure: repeating it gives bit-identical records.
#[test]
fn intersection_idempotent() {
    let sphere = Sphere::new(&v(0, 0, -1), half(), gray());
    let ray = Ray::new(&v(0, 0, 0), &v(0, 0, -1));
    let first = sphere.is_hit(&ray, t_near(), t_far()).unwrap();
    let second = sphere.is_hit(&ray, t_near(), t_far()).unwrap();
    assert_eq!(first, second);
}

#[test]
fn sphere_getters() {
    let sphere = Sphere::new(&v(1, 0, -1), half(), gray());
    assert_eq!(*sphere.center(), v(1, 0, -1));
    assert_eq!(sphere.radius().raw(), 32768);
}

#[test]
fn ray_point_at_parameter() {
    let ray = Ray::new(&v(1, 2, 3), &v(1, 0, 0));
    let p = ray.point_at_parameter(fx(2));
    assert_eq!(p, v(3, 2, 3));
    assert_eq!(*ray.origin(), v(1, 2, 3));
    assert_eq!(*ray.direction(), v(1, 0, 0));
}
