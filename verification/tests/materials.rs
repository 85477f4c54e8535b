//! Tests of the scattering model: diffuse never absorbs, metal absorbs
//! grazing fuzzy reflections, glass refracts straight through a matched
//! medium, and Schlick's approximation takes its closed-form values.

use rtweekend::fixed::SCALE;
use rtweekend::vec3::Vec3;
use rtweekend::ray::Ray;
use rtweekend::hittable::HitRecord;
use rtweekend::material::{Material, Lambertian, Metal, Dielectric};
use rtweekend::sampler::Sampler;

fn tape(v: i64, n: usize) -> Sampler {
    Sampler::new(vec![v; n])
}

fn floor_hit(material: Material) -> HitRecord {
    HitRecord {
        p: Vec3::new(0, 0, 0),
        normal: Vec3::new(0, SCALE, 0),
        t: SCALE,
        front_face: true,
        material,
    }
}

#[test]
fn lambertian_never_absorbs() {
    let m = Material::Lambertian(Lambertian::new(Vec3::new(32768, 16384, 8192)));
    let ray = Ray::new(Vec3::new(0, SCALE, 0), Vec3::new(0, -SCALE, 0));
    for fill in [0i64, 17, 30000, 65535] {
        let mut s = tape(fill, 64);
        let rec = floor_hit(m);
        let out = m.scatter(&ray, &rec, &mut s);
        let (att, scattered) = out.expect("diffuse surfaces never absorb");
        assert_eq!((att.x, att.y, att.z), (32768, 16384, 8192));
        let o = scattered.origin();
        assert_eq!((o.x, o.y, o.z), (0, 0, 0));
    }
}

#[test]
fn metal_reflects_about_the_normal() {
    let m = Material::Metal(Metal::new(Vec3::new(45875, 39322, 32768), 0));
    let ray = Ray::new(Vec3::new(-SCALE, SCALE, 0), Vec3::new(SCALE, -SCALE, 0));
    let mut s = tape(30000, 64);
    let rec = floor_hit(m);
    let (att, scattered) = m.scatter(&ray, &rec, &mut s).expect("mirror reflection scatters");
    assert_eq!((att.x, att.y, att.z), (45875, 39322, 32768));
    let d = scattered.direction();
    // the incoming diagonal is normalized, then its y component flips
    assert!(d.y > 0, "reflection must leave the surface, y was {}", d.y);
    assert!((d.x - 46341).abs() <= 2 && (d.y - 46341).abs() <= 2 && d.z == 0);
}

#[test]
fn metal_absorbs_reflections_into_the_surface() {
    // full fuzz with a draw pattern whose perturbation points down
    let m = Material::Metal(Metal::new(Vec3::new(45875, 39322, 32768), SCALE));
    let ray = Ray::new(Vec3::new(-8 * SCALE, SCALE, 0), Vec3::new(8 * SCALE, -SCALE, 0));
    // the first accepted in-sphere point is (0, -0.625, 0), pushing the
    // grazing reflection back under the floor
    let mut s = Sampler::new(vec![32768, 12288, 32768]);
    let rec = floor_hit(m);
    assert!(m.scatter(&ray, &rec, &mut s).is_none());
}

#[test]
fn metal_fuzz_is_clamped() {
    let m = Metal::new(Vec3::new(SCALE, SCALE, SCALE), 3 * SCALE);
    assert_eq!(m.fuzz, SCALE);
    let m2 = Metal::new(Vec3::new(SCALE, SCALE, SCALE), -5);
    assert_eq!(m2.fuzz, 0);
}

#[test]
fn dielectric_matched_medium_goes_straight() {
    // index 1.0: no bending at all, and never absorbed
    let m = Material::Dielectric(Dielectric::new(SCALE));
    let ray = Ray::new(Vec3::new(0, SCALE, 0), Vec3::new(0, -SCALE, 0));
    let rec = HitRecord {
        p: Vec3::new(0, 0, 0),
        normal: Vec3::new(0, SCALE, 0),
        t: SCALE,
        front_face: true,
        material: m,
    };
    let mut s = tape(30000, 8);
    let (att, scattered) = m.scatter(&ray, &rec, &mut s).expect("glass never absorbs");
    assert_eq!((att.x, att.y, att.z), (SCALE, SCALE, SCALE));
    let d = scattered.direction();
    assert_eq!((d.x, d.y, d.z), (0, -SCALE, 0));
}

#[test]
fn dielectric_total_internal_reflection() {
    // leaving glass at a grazing angle: ratio * sin exceeds one, so the ray
    // must reflect, never refract
    let m = Material::Dielectric(Dielectric::new(98304));
    let ray = Ray::new(Vec3::new(-SCALE, SCALE, 0), Vec3::new(SCALE, -13107, 0));
    let rec = HitRecord {
        p: Vec3::new(0, 0, 0),
        normal: Vec3::new(0, SCALE, 0),
        t: SCALE,
        front_face: false,
        material: m,
    };
    let mut s = tape(65535, 8);
    let (_, scattered) = m.scatter(&ray, &rec, &mut s).expect("glass never absorbs");
    assert!(scattered.direction().y > 0, "total internal reflection must flip y");
}

#[test]
fn reflectance_closed_form() {
    let d = Dielectric::new(98304);
    // head-on through a 1/1.5 boundary: only the r0 term remains
    assert_eq!(d.reflectance(SCALE, 43690), 2621);
    // grazing incidence: full reflectance
    assert_eq!(d.reflectance(0, 43690), SCALE);
}

#[test]
fn sampler_points_stay_inside_the_unit_sphere() {
    let mut s = Sampler::new(rtweekend::sampler::make_tape(7, 4096));
    for _ in 0..100 {
        let p = rtweekend::sampler::random_in_unit_sphere(&mut s);
        let q = p.dot(p);
        assert!(q < SCALE, "squared length {q} must stay below one");
    }
    let mut s2 = Sampler::new(rtweekend::sampler::make_tape(7, 4096));
    for _ in 0..100 {
        let d = rtweekend::sampler::random_in_unit_disk(&mut s2);
        assert_eq!(d.z, 0);
        assert!(d.dot(d) < SCALE);
    }
}

#[test]
fn make_tape_is_seeded_and_in_range() {
    let a = rtweekend::sampler::make_tape(42, 256);
    let b = rtweekend::sampler::make_tape(42, 256);
    let c = rtweekend::sampler::make_tape(43, 256);
    assert_eq!(a.len(), 256);
    assert!(a.iter().all(|&v| (0..65536).contains(&v)));
    assert_eq!(a, b, "one seed, one tape");
    assert_ne!(a, c, "different seeds must give different draws");
}
