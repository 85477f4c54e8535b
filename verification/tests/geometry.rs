//! Tests of the vector layer, the sphere intersection and the scene
//! aggregate, including the front-face, mirror-symmetry and nearest-hit
//! laws on concrete values.

use rtweekend::fixed;
use rtweekend::fixed::SCALE;
use rtweekend::vec3::{Vec3, near_zero, reflect, refract, unit_vector};
use rtweekend::ray::Ray;
use rtweekend::sphere::Sphere;
use rtweekend::hittable::{Hittable, HittableList};
use rtweekend::material::{Material, Lambertian};

fn gray() -> Material {
    Material::Lambertian(Lambertian::new(Vec3::new(32768, 32768, 32768)))
}

fn down_z_ray() -> Ray {
    Ray::new(Vec3::new(0, 0, 0), Vec3::new(0, 0, -SCALE))
}

#[test]
fn vec_ops_exact() {
    let a = Vec3::new(SCALE, 2 * SCALE, -SCALE);
    let b = Vec3::new(SCALE, -SCALE, SCALE);
    let s = a.add(b);
    assert_eq!((s.x, s.y, s.z), (2 * SCALE, SCALE, 0));
    let d = a.sub(b);
    assert_eq!((d.x, d.y, d.z), (0, 3 * SCALE, -2 * SCALE));
    assert_eq!(a.dot(b), SCALE - 2 * SCALE - SCALE);
    let c = Vec3::new(SCALE, 0, 0).cross(Vec3::new(0, SCALE, 0));
    assert_eq!((c.x, c.y, c.z), (0, 0, SCALE));
    assert_eq!(Vec3::new(3 * SCALE, 4 * SCALE, 0).length(), 5 * SCALE);
}

#[test]
fn unit_vector_normalizes() {
    let u = unit_vector(Vec3::new(0, 0, -3 * SCALE));
    assert_eq!((u.x, u.y, u.z), (0, 0, -SCALE));
    let v = unit_vector(Vec3::new(3 * SCALE, 4 * SCALE, 0));
    assert_eq!((v.x, v.y, v.z), (39321, 52428, 0));
}

#[test]
fn near_zero_thresholds() {
    assert!(near_zero(&Vec3::new(0, 0, 0)));
    assert!(near_zero(&Vec3::new(600, -600, 1)));
    assert!(!near_zero(&Vec3::new(655, 0, 0)));
    assert!(!near_zero(&Vec3::new(0, 0, -SCALE)));
}

#[test]
fn reflect_mirror_symmetry() {
    // a ray entering the floor leaves it after one reflection...
    let v = Vec3::new(SCALE, -SCALE, 0);
    let n = Vec3::new(0, SCALE, 0);
    let r = reflect(v, n);
    assert_eq!((r.x, r.y, r.z), (SCALE, SCALE, 0));
    assert!(fixed::fmul(r.x, n.x) + fixed::fmul(r.y, n.y) + fixed::fmul(r.z, n.z) > 0);
    // ...and reflecting twice about the same normal gives the ray back
    let rr = reflect(r, n);
    assert_eq!((rr.x, rr.y, rr.z), (v.x, v.y, v.z));
}

#[test]
fn refract_matched_medium_is_identity() {
    // with equal indices on both sides the direction does not bend
    let uv = Vec3::new(0, 0, -SCALE);
    let n = Vec3::new(0, 0, SCALE);
    let r = refract(uv, n, SCALE);
    assert_eq!((r.x, r.y, r.z), (0, 0, -SCALE));
}

#[test]
fn sphere_hit_reports_near_root() {
    let s = Sphere::new(Vec3::new(0, 0, -2 * SCALE), SCALE, gray());
    let rec = s.hit(&down_z_ray(), 0, 100 * SCALE).expect("must hit");
    assert_eq!(rec.t, SCALE);
    assert_eq!((rec.p.x, rec.p.y, rec.p.z), (0, 0, -SCALE));
    assert_eq!((rec.normal.x, rec.normal.y, rec.normal.z), (0, 0, SCALE));
    assert!(rec.front_face);
}

#[test]
fn sphere_hit_point_lies_on_surface() {
    // |hit point - center| equals the radius within fixed-point tolerance
    let s = Sphere::new(Vec3::new(13107, -6554, -3 * SCALE), 45875, gray());
    let r = Ray::new(Vec3::new(3277, -1638, 0), Vec3::new(655, -328, -SCALE));
    let rec = s.hit(&r, 0, 100 * SCALE).expect("must hit");
    let dx = (rec.p.x - 13107) as f64 / 65536.0;
    let dy = (rec.p.y + 6554) as f64 / 65536.0;
    let dz = (rec.p.z + 3 * 65536) as f64 / 65536.0;
    let dist = (dx * dx + dy * dy + dz * dz).sqrt();
    let radius = 45875.0 / 65536.0;
    assert!((dist - radius).abs() < 2e-3, "distance {dist} vs radius {radius}");
}

#[test]
fn sphere_hit_normal_opposes_ray() {
    // the front-face orientation holds whether the ray starts outside or
    // inside the sphere
    let s = Sphere::new(Vec3::new(0, 0, -2 * SCALE), SCALE, gray());
    for orig in [Vec3::new(0, 0, 0), Vec3::new(0, 0, -2 * SCALE)] {
        let r = Ray::new(orig, Vec3::new(0, 0, -SCALE));
        let rec = s.hit(&r, 0, 100 * SCALE).expect("must hit");
        let d = fixed::fmul(rec.normal.x, 0) + fixed::fmul(rec.normal.y, 0)
            + fixed::fmul(rec.normal.z, -SCALE);
        assert!(d <= 0, "normal must oppose the ray, dot was {d}");
    }
}

#[test]
fn sphere_miss_is_none() {
    let s = Sphere::new(Vec3::new(10 * SCALE, 0, -2 * SCALE), SCALE, gray());
    assert!(s.hit(&down_z_ray(), 0, 100 * SCALE).is_none());
    // behind the origin: both roots negative
    let behind = Sphere::new(Vec3::new(0, 0, 2 * SCALE), SCALE, gray());
    assert!(behind.hit(&down_z_ray(), 0, 100 * SCALE).is_none());
}

#[test]
fn scene_reports_nearest_of_two_overlapping_spheres() {
    let near = Sphere::new(Vec3::new(0, 0, -2 * SCALE), SCALE, gray());
    let far = Sphere::new(Vec3::new(0, 0, -3 * SCALE), SCALE, gray());
    for order in [[near, far], [far, near]] {
        let mut w = HittableList::new();
        w.push(Hittable::Sphere(order[0]));
        w.push(Hittable::Sphere(order[1]));
        let rec = w.hit(&down_z_ray(), 0, 100 * SCALE).expect("must hit");
        assert_eq!(rec.t, SCALE, "nearest hit must win");
    }
}

#[test]
fn empty_scene_reports_no_hit() {
    let w = HittableList::new();
    assert!(w.hit(&down_z_ray(), 0, 100 * SCALE).is_none());
}
