use ray_tracer::fixed::Fx;
use ray_tracer::hit::HitRecord;
use ray_tracer::material::{
    random_in_unit_sphere, Dielectric, Lambertian, Material, Metal, ScatterResult,
};
use ray_tracer::ray::Ray;
use ray_tracer::vec3::Vec3;

fn fx(units: i32) -> Fx {
    Fx::from_int(units)
}

fn v(x: i32, y: i32, z: i32) -> Vec3 {
    Vec3::new(fx(x), fx(y), fx(z))
}

fn albedo() -> Vec3 {
    Vec3::new(Fx::from_raw(52428), Fx::from_raw(19660), Fx::from_raw(19660))
}

fn hit_at_origin_up() -> HitRecord {
    let up = v(0, 1, 0);
    HitRecord::new(
        Fx::from_raw(32768),
        &v(0, 0, 0),
        &up,
        Material::Lambertian(Lambertian::new(&albedo())),
    )
}

#[test]
fn metal_new_clamps_negative_fuzz() {
    let m = Metal::new(&albedo(), fx(-1));
    assert_eq!(m.fuzz().raw(), 0);
    let kept = Metal::new(&albedo(), Fx::from_raw(19660));
    assert_eq!(kept.fuzz().raw(), 19660);
    assert_eq!(*kept.albedo(), albedo());
}

#[test]
fn lambertian_scatter_with_is_exact() {
    let l = Lambertian::new(&albedo());
    assert_eq!(*l.albedo(), albedo());
    let hit = hit_at_origin_up();
    let sample = Vec3::new(Fx::from_raw(100), Fx::from_raw(-200), Fx::from_raw(300));
    let s = l.scatter_with(&hit, &sample);
    assert_eq!(*s.attenuation(), albedo());
    assert_eq!(*s.scattered().origin(), v(0, 0, 0));
    // The direction is normal + sample, exactly.
    assert_eq!(s.scattered().direction().x().raw(), 100);
    assert_eq!(s.scattered().direction().y().raw(), 65536 - 200);
    assert_eq!(s.scattered().direction().z().raw(), 300);
}

#[test]
fn metal_reflects_about_normal() {
    let m = Metal::new(&albedo(), Fx::from_raw(0));
    let hit = HitRecord::new(
        Fx::from_raw(32768),
        &v(0, 0, 0),
        &v(0, 0, 1),
        Material::Metal(m),
    );
    let incoming = Ray::new(&v(0, 0, 1), &v(0, 0, -1));
    let s = m.scatter_with(&incoming, &hit, &Vec3::new_empty()).unwrap();
    assert_eq!(*s.attenuation(), albedo());
    assert_eq!(s.scattered().direction().x().raw(), 0);
    assert_eq!(s.scattered().direction().y().raw(), 0);
    assert_eq!(s.scattered().direction().z().raw(), 65536);
}

#[test]
fn metal_absorbs_grazing_reflection() {
    let m = Metal::new(&albedo(), Fx::from_raw(0));
    // The normal faces away from the reflected direction: absorbed.
    let hit = HitRecord::new(
        Fx::from_raw(32768),
        &v(0, 0, 0),
        &v(0, 0, -1),
        Material::Metal(m),
    );
    let incoming = Ray::new(&v(0, 0, 1), &v(0, 0, -1));
    assert!(m.scatter_with(&incoming, &hit, &Vec3::new_empty()).is_none());
}

#[test]
fn dielectric_refracts_straight_through() {
    let d = Dielectric::new(Fx::from_raw(98304));
    let hit = HitRecord::new(
        Fx::from_raw(32768),
        &v(0, 0, 0),
        &v(0, 0, 1),
        Material::Dielectric(d),
    );
    let incoming = Ray::new(&v(0, 0, 1), &v(0, 0, -1));
    // A head-on ray keeps its direction; the coin is above the head-on
    // Schlick reflectance (about 0.04).
    let s = d.scatter_with(&incoming, &hit, Fx::from_raw(32768)).unwrap();
    assert_eq!(s.scattered().direction().x().raw(), 0);
    assert_eq!(s.scattered().direction().y().raw(), 0);
    assert_eq!(s.scattered().direction().z().raw(), -65536);
    // Glass does not absorb.
    assert_eq!(*s.attenuation(), v(1, 1, 1));
}

#[test]
fn dielectric_reflects_on_low_coin() {
    let d = Dielectric::new(Fx::from_raw(98304));
    let hit = HitRecord::new(
        Fx::from_raw(32768),
        &v(0, 0, 0),
        &v(0, 0, 1),
        Material::Dielectric(d),
    );
    let incoming = Ray::new(&v(0, 0, 1), &v(0, 0, -1));
    let s = d.scatter_with(&incoming, &hit, Fx::from_raw(0)).unwrap();
    assert_eq!(s.scattered().direction().z().raw(), 65536);
    assert_eq!(*s.attenuation(), v(1, 1, 1));
}

// Scattering with a drawn sample never produces values outside the model's
// window: origins stay at the hit point and directions stay bounded.
#[test]
fn drawn_scatters_stay_well_formed() {
    let mut rng = fastrand::Rng::with_seed(7);
    let hit = hit_at_origin_up();
    let incoming = Ray::new(&v(0, 1, 1), &v(0, -1, -1));
    for _ in 0..32 {
        let l = Lambertian::new(&albedo());
        let s = l.scatter(&incoming, &hit, &mut rng).unwrap();
        assert_eq!(*s.scattered().origin(), v(0, 0, 0));
        assert!(s.scattered().direction().y().raw().abs() <= 3 * 65536);

        let d = Dielectric::new(Fx::from_raw(98304));
        let glass_hit = HitRecord::new(
            Fx::from_raw(32768),
            &v(0, 0, 0),
            &v(0, 1, 0),
            Material::Dielectric(d),
        );
        let gs = d.scatter(&incoming, &glass_hit, &mut rng).unwrap();
        assert_eq!(*gs.attenuation(), v(1, 1, 1));

        let m = Metal::new(&albedo(), Fx::from_raw(19660));
        if let Some(ms) = m.scatter(&incoming, &hit, &mut rng) {
            assert!(ms.scattered().direction().dot(&v(0, 1, 0)).raw() > 0);
        }
    }
}

#[test]
fn material_scatter_dispatches() {
    let mut rng = fastrand::Rng::with_seed(11);
    let hit = hit_at_origin_up();
    let incoming = Ray::new(&v(0, 1, 1), &v(0, -1, -1));
    let mat = Material::Lambertian(Lambertian::new(&albedo()));
    let s = mat.scatter(&incoming, &hit, &mut rng).unwrap();
    assert_eq!(*s.attenuation(), albedo());
}

#[test]
fn random_unit_sphere_point_is_inside() {
    let mut rng = fastrand::Rng::with_seed(3);
    for _ in 0..64 {
        let p = random_in_unit_sphere(&mut rng);
        assert!(p.squared_length().raw() < 65536);
        assert!(p.x().raw().abs() <= 65536);
        assert!(p.y().raw().abs() <= 65536);
        assert!(p.z().raw().abs() <= 65536);
    }
}

#[test]
fn scatter_result_accessors() {
    let ray = Ray::new(&v(0, 0, 0), &v(0, 0, -1));
    let s = ScatterResult::new(albedo(), ray);
    assert_eq!(*s.attenuation(), albedo());
    assert_eq!(*s.scattered(), ray);
}
