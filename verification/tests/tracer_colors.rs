use ray_tracer::camera::Camera;
use ray_tracer::fixed::Fx;
use ray_tracer::hit::{Hittable, HittableList};
use ray_tracer::material::{Lambertian, Material};
use ray_tracer::ray::Ray;
use ray_tracer::sphere::Sphere;
use ray_tracer::tracer::{color, quantize};
use ray_tracer::vec3::Vec3;

fn fx(units: i32) -> Fx {
    Fx::from_int(units)
}

fn v(x: i32, y: i32, z: i32) -> Vec3 {
    Vec3::new(fx(x), fx(y), fx(z))
}

fn small_world() -> HittableList {
    let half = Fx::from_raw(32768);
    let albedo = Vec3::new(half, half, half);
    let mat = Material::Lambertian(Lambertian::new(&albedo));
    let mut world = HittableList::new();
    world
        .list_mut()
        .push(Hittable::Sphere(Sphere::new(&v(0, 0, -1), half, mat)));
    world
}

// A ray pointing straight up through an empty world returns the pure
// sky-blue endpoint; straight down returns pure white.
#[test]
fn empty_world_sky_endpoints() {
    let world = HittableList::new();
    let mut rng = fastrand::Rng::with_seed(1);
    let up = color(&Ray::new(&v(0, 0, 0), &v(0, 1, 0)), &world, 0, &mut rng);
    assert_eq!(up.x().raw(), 32768);
    assert_eq!(up.y().raw(), 45875);
    assert_eq!(up.z().raw(), 65536);
    let down = color(&Ray::new(&v(0, 0, 0), &v(0, -1, 0)), &world, 0, &mut rng);
    assert_eq!(down, v(1, 1, 1));
}

// At the recursion cutoff any hit returns black, with no further bounces.
#[test]
fn depth_cutoff_returns_black() {
    let world = small_world();
    let ray = Ray::new(&v(0, 0, 0), &v(0, 0, -1));
    let mut rng = fastrand::Rng::with_seed(2);
    let at_cutoff = color(&ray, &world, 50, &mut rng);
    assert_eq!(at_cutoff, v(0, 0, 0));
    let beyond = color(&ray, &world, 200, &mut rng);
    assert_eq!(beyond, v(0, 0, 0));
}

// A miss beside the sphere still returns the sky exactly.
#[test]
fn miss_returns_sky() {
    let world = small_world();
    let mut rng = fastrand::Rng::with_seed(3);
    let c = color(&Ray::new(&v(0, 0, 0), &v(0, 1, 0)), &world, 0, &mut rng);
    assert_eq!(c.y().raw(), 45875);
}

// The color of a hit is bounded and, for this gray sphere, componentwise at
// most half (the albedo attenuates whatever returns along the bounce).
#[test]
fn hit_color_attenuated_by_albedo() {
    let world = small_world();
    let ray = Ray::new(&v(0, 0, 0), &v(0, 0, -1));
    for seed in 0..16u64 {
        let mut rng = fastrand::Rng::with_seed(seed);
        let c = color(&ray, &world, 0, &mut rng);
        assert!(0 <= c.x().raw() && c.x().raw() <= 32768);
        assert!(0 <= c.y().raw() && c.y().raw() <= 32768);
        assert!(0 <= c.z().raw() && c.z().raw() <= 32768);
    }
}

// With the same seed the whole estimate repeats bit for bit: the only state
// is the explicit generator.
#[test]
fn color_repeats_under_same_seed() {
    let world = small_world();
    let ray = Ray::new(&v(0, 0, 0), &v(0, 0, -1));
    let mut rng_a = fastrand::Rng::with_seed(42);
    let mut rng_b = fastrand::Rng::with_seed(42);
    for _ in 0..8 {
        let a = color(&ray, &world, 0, &mut rng_a);
        let b = color(&ray, &world, 0, &mut rng_b);
        assert_eq!(a, b);
    }
}

#[test]
fn default_camera_center_ray() {
    let camera = Camera::default();
    let ray = camera.get_ray(Fx::from_raw(32768), Fx::from_raw(32768));
    assert_eq!(*ray.origin(), v(0, 0, 0));
    assert_eq!(*ray.direction(), v(0, 0, -1));
}

#[test]
fn custom_camera_ray() {
    let camera = Camera::new(&v(0, 1, 0), &v(4, 0, 0), &v(0, 2, 0), &v(-2, -1, -1));
    let ray = camera.get_ray(Fx::from_raw(0), Fx::from_raw(0));
    assert_eq!(*ray.origin(), v(0, 1, 0));
    assert_eq!(*ray.direction(), v(-2, -2, -1));
}

#[test]
fn quantize_endpoints() {
    assert_eq!(quantize(&v(0, 0, 0)), (0, 0, 0));
    assert_eq!(quantize(&v(1, 1, 1)), (255, 255, 255));
    // 0.25 gamma-corrects to 0.5: floor(255.99 * 0.5) = 127.
    let quarter = Vec3::new(Fx::from_raw(16384), Fx::from_raw(16384), Fx::from_raw(16384));
    assert_eq!(quantize(&quarter), (127, 127, 127));
}

#[test]
fn quantize_clamps() {
    assert_eq!(quantize(&v(-1, 2, 0)), (0, 255, 0));
}
