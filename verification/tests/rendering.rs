//! End-to-end tests of the camera, the integrator and the render loop.

use rtweekend::fixed::SCALE;
use rtweekend::vec3::Vec3;
use rtweekend::camera::Camera;
use rtweekend::sphere::Sphere;
use rtweekend::hittable::{Hittable, HittableList};
use rtweekend::material::{Material, Lambertian};
use rtweekend::sampler::{make_tape, Sampler};
use rtweekend::render::{ray_color, render};
use rtweekend::scene::random_scene;

fn gray_half() -> Material {
    Material::Lambertian(Lambertian::new(Vec3::new(32768, 32768, 32768)))
}

fn forward_camera() -> Camera {
    // at the origin, looking down -z, vertical field of view of 90 degrees,
    // square aspect, no aperture
    Camera::new(
        Vec3::new(0, 0, 0),
        Vec3::new(0, 0, -SCALE),
        Vec3::new(0, SCALE, 0),
        90 * SCALE,
        SCALE,
        0,
        SCALE,
    )
    .expect("camera inputs are valid")
}

#[test]
fn camera_rejects_degenerate_inputs() {
    // coincident look-from and look-at leave no viewing direction
    let none = Camera::new(
        Vec3::new(SCALE, SCALE, SCALE),
        Vec3::new(SCALE, SCALE, SCALE),
        Vec3::new(0, SCALE, 0),
        90 * SCALE,
        SCALE,
        0,
        SCALE,
    );
    assert!(none.is_none());
    // an up vector parallel to the viewing direction has no cross product
    let none2 = Camera::new(
        Vec3::new(0, 0, 0),
        Vec3::new(0, 0, -SCALE),
        Vec3::new(0, 0, SCALE),
        90 * SCALE,
        SCALE,
        0,
        SCALE,
    );
    assert!(none2.is_none());
}

#[test]
fn center_ray_hits_single_sphere() {
    // scenario: one sphere of radius 0.5 at (0, 0, -1), a gray diffuse
    // material, the camera looking down -z; the center ray must hit with a
    // positive parameter, and one bounce leaves every channel attenuated
    let cam = forward_camera();
    let mut w = HittableList::new();
    w.push(Hittable::Sphere(Sphere::new(Vec3::new(0, 0, -SCALE), 32768, gray_half())));
    let mut smp = Sampler::new(make_tape(11, 1024));
    let ray = cam.get_ray(32768, 32768, &mut smp);
    assert!(ray.ray_ok());
    let rec = w.hit(&ray, 66, 1 << 36).expect("the center ray must hit");
    assert!(rec.t > 0);
    let c = ray_color(&w, &ray, 2, &mut smp);
    for ch in [c.x, c.y, c.z] {
        assert!(ch > 0, "one bounce still gathers light, channel was {ch}");
        assert!(ch <= 32768, "the albedo caps every channel, channel was {ch}");
    }
}

#[test]
fn empty_scene_resolves_to_background() {
    // scenario: no geometry at all; rays toward the top of the image lean
    // blue, rays toward the bottom lean white
    let cam = forward_camera();
    let w = HittableList::new();
    let mut smp = Sampler::new(make_tape(3, 1024));
    let top = cam.get_ray(32768, SCALE, &mut smp);
    let bottom = cam.get_ray(32768, 0, &mut smp);
    let ct = ray_color(&w, &top, 5, &mut smp);
    let cb = ray_color(&w, &bottom, 5, &mut smp);
    // the sky gradient orders the channels red < green < blue at the top
    assert!(ct.x < ct.y && ct.y < ct.z, "top must lean blue: {ct:?}");
    // the bottom is much closer to white: every channel near one
    assert!(cb.x > 55000 && cb.y > 55000 && cb.z > 55000, "bottom must lean white: {cb:?}");
    assert!(cb.x > ct.x, "bottom must be whiter than the top");
}

#[test]
fn depth_zero_is_black() {
    // scenario: a hit scene with zero recursion budget yields exact black
    let cam = forward_camera();
    let mut w = HittableList::new();
    w.push(Hittable::Sphere(Sphere::new(Vec3::new(0, 0, -SCALE), 32768, gray_half())));
    let mut smp = Sampler::new(make_tape(5, 1024));
    let ray = cam.get_ray(32768, 32768, &mut smp);
    let c = ray_color(&w, &ray, 0, &mut smp);
    assert_eq!((c.x, c.y, c.z), (0, 0, 0));
}

#[test]
fn render_is_deterministic_for_a_seed() {
    // the same scene, camera and seeded draw tape give byte-identical images
    let cam = forward_camera();
    let mut w = HittableList::new();
    w.push(Hittable::Sphere(Sphere::new(Vec3::new(0, 0, -SCALE), 32768, gray_half())));
    w.push(Hittable::Sphere(Sphere::new(Vec3::new(0, -6554000, -SCALE), 6520000, gray_half())));
    let mut a = Sampler::new(make_tape(123, 65536));
    let mut b = Sampler::new(make_tape(123, 65536));
    let img1 = render(&w, &cam, 8, 6, 2, 4, &mut a);
    let img2 = render(&w, &cam, 8, 6, 2, 4, &mut b);
    assert_eq!(img1.len(), 48);
    assert_eq!(img1, img2, "a fixed seed must reproduce the image exactly");
    // and the image is not trivially black
    assert!(img1.iter().any(|&(r, g, b)| r > 0 || g > 0 || b > 0));
}

#[test]
fn rgb_color_quantizes_with_gamma() {
    let px = Vec3::new(SCALE, 16384, 0);
    let (r, g, b) = rtweekend::render::rgb_color(&px, 1);
    assert_eq!((r, g, b), (255, 128, 0));
    // averaging over four samples scales each channel down first
    let px4 = Vec3::new(4 * SCALE, 4 * 16384, 0);
    assert_eq!(rtweekend::render::rgb_color(&px4, 4), (255, 128, 0));
}

#[test]
fn random_scene_has_ground_and_feature_spheres() {
    let mut smp = Sampler::new(make_tape(2024, 8192));
    let w = random_scene(&mut smp);
    let n = w.objects.len();
    assert!(n >= 4, "ground plus three features at least, got {n}");
    let Hittable::Sphere(ground) = w.objects[0];
    assert_eq!((ground.center.x, ground.center.y, ground.center.z), (0, -65536000, -65536));
    assert_eq!(ground.radius, 65536000);
    let Hittable::Sphere(glass) = w.objects[n - 3];
    assert!(matches!(glass.material, Material::Dielectric(_)));
    let Hittable::Sphere(diffuse) = w.objects[n - 2];
    assert!(matches!(diffuse.material, Material::Lambertian(_)));
    let Hittable::Sphere(metal) = w.objects[n - 1];
    assert!(matches!(metal.material, Material::Metal(_)));
    assert_eq!((metal.center.x, metal.center.y, metal.center.z), (262144, 65536, 0));
    // every sphere is valid geometry: positive radius, bounded center
    for obj in w.objects.iter() {
        let Hittable::Sphere(s) = obj;
        assert!(s.radius > 0);
        assert!(s.center.x.abs() <= 0x2000_0000);
    }
}
