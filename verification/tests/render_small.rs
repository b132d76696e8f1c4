//! A tiny end-to-end render: camera, world, integrator and quantizer
//! together, the way the PPM driver uses them.

use ray_tracer::camera::Camera;
use ray_tracer::fixed::Fx;
use ray_tracer::hit::{Hittable, HittableList};
use ray_tracer::material::{Dielectric, Lambertian, Material, Metal};
use ray_tracer::sphere::Sphere;
use ray_tracer::tracer::{color, quantize};
use ray_tracer::vec3::Vec3;

fn fx(value: f32) -> Fx {
    Fx::from_raw((value * 65536.0) as i64)
}

fn v(x: f32, y: f32, z: f32) -> Vec3 {
    Vec3::new(fx(x), fx(y), fx(z))
}

fn scene() -> HittableList {
    let mut world = HittableList::new();
    world.list_mut().push(Hittable::Sphere(Sphere::new(
        &v(0.0, 0.0, -1.0),
        fx(0.5),
        Material::Lambertian(Lambertian::new(&v(0.8, 0.3, 0.3))),
    )));
    world.list_mut().push(Hittable::Sphere(Sphere::new(
        &v(0.0, -100.5, -1.0),
        fx(100.0),
        Material::Lambertian(Lambertian::new(&v(0.8, 0.8, 0.0))),
    )));
    world.list_mut().push(Hittable::Sphere(Sphere::new(
        &v(1.0, 0.0, -1.0),
        fx(0.5),
        Material::Metal(Metal::new(&v(0.8, 0.6, 0.2), fx(0.3))),
    )));
    world.list_mut().push(Hittable::Sphere(Sphere::new(
        &v(-1.0, 0.0, -1.0),
        fx(0.5),
        Material::Dielectric(Dielectric::new(fx(1.5))),
    )));
    world
}

#[test]
fn renders_a_small_image() {
    let world = scene();
    let camera = Camera::default();
    let mut rng = fastrand::Rng::with_seed(123);
    let nx = 4usize;
    let ny = 2usize;
    let ns = 8usize;
    let mut pixels = Vec::new();
    for y in (0..ny).rev() {
        for x in 0..nx {
            let mut sum = [0i64; 3];
            for _ in 0..ns {
                let u = Fx::from_raw(
                    (((x as f32 + rng.f32()) / nx as f32) * 65536.0) as i64,
                );
                let v = Fx::from_raw(
                    (((y as f32 + rng.f32()) / ny as f32) * 65536.0) as i64,
                );
                let ray = camera.get_ray(u, v);
                let sample = color(&ray, &world, 0, &mut rng);
                sum[0] += sample.x().raw();
                sum[1] += sample.y().raw();
                sum[2] += sample.z().raw();
            }
            let average = Vec3::new(
                Fx::from_raw(sum[0] / ns as i64),
                Fx::from_raw(sum[1] / ns as i64),
                Fx::from_raw(sum[2] / ns as i64),
            );
            pixels.push(quantize(&average));
        }
    }
    assert_eq!(pixels.len(), nx * ny);
    // The top rows look mostly at the sky: blue dominates red there.
    let (r, _, b) = pixels[0];
    assert!(b >= r);
    // Every channel is a sane 8-bit value produced by the clamped quantizer.
    for (r, g, b) in pixels {
        let _ = (r, g, b);
    }
}

// One fixed seed, one fixed scene: the whole render repeats bit for bit.
#[test]
fn render_repeats_under_same_seed() {
    let world = scene();
    let camera = Camera::default();
    let mut first = Vec::new();
    let mut second = Vec::new();
    for out in [&mut first, &mut second] {
        let mut rng = fastrand::Rng::with_seed(9);
        for x in 0..4usize {
            let u = Fx::from_raw((x as i64) * 16384);
            let ray = camera.get_ray(u, Fx::from_raw(32768));
            out.push(color(&ray, &world, 0, &mut rng));
        }
    }
    assert_eq!(first, second);
}
