//! The integrator and the pixel pipeline: the recursive Monte Carlo color
//! estimator, gamma-corrected quantization, and the sampling loop over the
//! image plane.  Everything is a pure function of the scene, the camera and
//! the tape of draws, so rendering twice from one seed gives one image.

use vstd::prelude::*;
use crate::fixed;
use crate::fixed::{fmul_s, sqrt_floor, clamp_s, SCALE};
use crate::vec3::{
    Vec3, V3i, vi, add_i, scale_i, unit_i, vi_in, lemma_dot_ok, lemma_unit_bound, lemma_mul76,
};
use crate::ray::{Ray, RayI, ray_ok_i};
use crate::hittable::{HitRecord, HitRecI, HittableList, Hittable, scene_hit_i, list_ok};
use crate::material::scatter_i;
use crate::sampler::{Sampler, sampler_ok, tape_ok, draw_at, next_pos};
use crate::camera::{Camera, CameraI, camera_ok_i, get_ray_i};
use vstd::arithmetic::div_mod::{lemma_div_is_ordered, lemma_div_multiples_vanish};

verus! {

/// Lower end of the intersection interval: the shadow-acne epsilon, about
/// 0.001 in real terms.
pub const EPS_T: i64 = 66;

/// Sky-blue channel values of the background gradient.
pub const BLUE_G: i64 = 45875;

/// The background gradient: white blended toward sky blue by the
/// normalized direction's vertical component remapped from [-1, 1] to
/// [0, 1].
pub open spec fn background_i(r: RayI) -> V3i {
    let u = unit_i(r.dir);
    let t = (u.y + (SCALE as int)) / 2;
    add_i(
        scale_i((SCALE as int) - t, vi(SCALE as int, SCALE as int, SCALE as int)),
        scale_i(t, vi(32768, BLUE_G as int, SCALE as int)),
    )
}

/// The numeric guard on a hit record before scattering: the stored normal
/// must be within the fixed-point range that the scatter arithmetic admits
/// (true sphere normals are unit length and pass with room to spare).
pub open spec fn rec_guard_i(rec: HitRecI) -> bool {
    vi_in(rec.normal, 262144)
}

/// One recursive color estimate: black at depth zero; the background where
/// nothing is hit; else the scattered recursion attenuated componentwise,
/// black where the material absorbs, and black where a numerically
/// degenerate record or scattered ray would leave the fixed-point range.
pub open spec fn ray_color_i(
    objs: Seq<Hittable>,
    r: RayI,
    depth: nat,
    tape: Seq<i64>,
    pos: int,
) -> (V3i, int)
    decreases depth,
{
    if depth == 0 {
        (vi(0, 0, 0), pos)
    } else {
        match scene_hit_i(objs, r, EPS_T as int, crate::sphere::T_CAP as int) {
            None => (background_i(r), pos),
            Some(rec) => {
                if !rec_guard_i(rec) {
                    (vi(0, 0, 0), pos)
                } else {
                    let (sc, p1) = scatter_i(rec.material, r, rec, tape, pos);
                    match sc {
                        None => (vi(0, 0, 0), p1),
                        Some(pair) => {
                            if !ray_ok_i(pair.1) {
                                (vi(0, 0, 0), p1)
                            } else {
                                let (c, p2) = ray_color_i(objs, pair.1, (depth - 1) as nat, tape, p1);
                                (
                                    vi(
                                        fmul_s(pair.0.x, c.x),
                                        fmul_s(pair.0.y, c.y),
                                        fmul_s(pair.0.z, c.z),
                                    ),
                                    p2,
                                )
                            }
                        },
                    }
                }
            },
        }
    }
}

/// An attenuation factor in [0, 1] keeps a channel within [-b, b].
proof fn lemma_atten_bound(a: int, c: int, b: int)
    requires
        0 <= a <= SCALE as int,
        -b <= c <= b,
        0 <= b,
    ensures
        -b <= fmul_s(a, c) <= b,
{
    let s = SCALE as int;
    assert(-(s * b) <= a * c <= s * b) by (nonlinear_arith)
        requires
            0 <= a <= s,
            -b <= c <= b,
            0 <= b,
    ;
    lemma_div_is_ordered(a * c, s * b, s);
    lemma_div_is_ordered(-(s * b), a * c, s);
    lemma_div_multiples_vanish(b, s);
    lemma_div_multiples_vanish(-b, s);
}

/// The background color of a valid ray.
pub fn background(ray: &Ray) -> (r: Vec3)
    requires
        ray_ok_i(ray@),
    ensures
        r@ == background_i(ray@),
        vi_in(r@, 0x2_0000),
{
    proof {
        lemma_dot_ok(ray@.dir, ray@.dir, 0x40_0000, 0x40_0000);
        lemma_unit_bound(ray@.dir);
    }
    let u: Vec3 = crate::vec3::unit_vector(ray.direction());
    let t: i64 = fixed::idiv(u.y + SCALE, 2);
    let white: Vec3 = Vec3::new(SCALE, SCALE, SCALE);
    let blue: Vec3 = Vec3::new(32768, BLUE_G, SCALE);
    proof {
        lemma_div_is_ordered(u@.y + (SCALE as int), 131472, 2);
        lemma_div_is_ordered(-400, u@.y + (SCALE as int), 2);
        lemma_mul76((SCALE as int) - (t as int), 65536, 0x2_0000, 65536);
        lemma_mul76(t as int, 65536, 0x2_0000, 65536);
        lemma_mul76(t as int, 32768, 0x2_0000, 65536);
        lemma_mul76(t as int, BLUE_G as int, 0x2_0000, 65536);
        crate::vec3::lemma_scale_bound((SCALE as int) - (t as int), white@, 0x2_0000, 65536);
        crate::vec3::lemma_scale_bound(t as int, blue@, 0x2_0000, 65536);
    }
    white.scale(SCALE - t).add(blue.scale(t))
}

/// The recursive Monte Carlo color estimate for one ray.
///
/// At depth zero the estimate is exactly black; where the scene reports no
/// hit it is exactly the background gradient; at a hit, the material's
/// scattering decides between absorption (black) and the attenuated
/// recursive estimate.
pub fn ray_color(world: &HittableList, ray: &Ray, depth: u32, smp: &mut Sampler) -> (r: Vec3)
    requires
        list_ok(world.objects@),
        ray_ok_i(ray@),
        sampler_ok(*old(smp)),
    ensures
        (r@, final(smp).pos as int) == ray_color_i(
            world.objects@,
            ray@,
            depth as nat,
            old(smp).tape@,
            old(smp).pos as int,
        ),
        final(smp).tape@ == old(smp).tape@,
        sampler_ok(*final(smp)),
        vi_in(r@, 0x2_0000),
        depth == 0 ==> r@ == vi(0, 0, 0),
        depth > 0 && scene_hit_i(world.objects@, ray@, EPS_T as int, crate::sphere::T_CAP as int)
            is None ==> r@ == background_i(ray@),
    decreases depth,
{
    if depth == 0 {
        return Vec3::zero();
    }
    let hit: Option<HitRecord> = world.hit(ray, EPS_T, crate::sphere::T_CAP);
    match hit {
        None => background(ray),
        Some(rec) => {
            let guard: bool = rec.normal.x <= 262144 && rec.normal.x >= -262144 && rec.normal.y
                <= 262144 && rec.normal.y >= -262144 && rec.normal.z <= 262144 && rec.normal.z
                >= -262144;
            if !guard {
                return Vec3::zero();
            }
            let sc: Option<(Vec3, Ray)> = rec.material.scatter(ray, &rec, smp);
            match sc {
                None => Vec3::zero(),
                Some(pair) => {
                    let (att, sray) = pair;
                    if !sray.ray_ok() {
                        return Vec3::zero();
                    }
                    let c: Vec3 = ray_color(world, &sray, depth - 1, smp);
                    proof {
                        lemma_mul76(att@.x, c@.x, 65536, 0x2_0000);
                        lemma_mul76(att@.y, c@.y, 65536, 0x2_0000);
                        lemma_mul76(att@.z, c@.z, 65536, 0x2_0000);
                        crate::vec3::lemma_fmul_s_76(att@.x, c@.x);
                        crate::vec3::lemma_fmul_s_76(att@.y, c@.y);
                        crate::vec3::lemma_fmul_s_76(att@.z, c@.z);
                        lemma_atten_bound(att@.x, c@.x, 0x2_0000);
                        lemma_atten_bound(att@.y, c@.y, 0x2_0000);
                        lemma_atten_bound(att@.z, c@.z, 0x2_0000);
                    }
                    Vec3 {
                        x: fixed::fmul(att.x, c.x),
                        y: fixed::fmul(att.y, c.y),
                        z: fixed::fmul(att.z, c.z),
                    }
                },
            }
        },
    }
}

/// A scene with no geometry resolves every valid ray to the background
/// gradient at any positive depth.
pub proof fn lemma_empty_scene_background(
    objs: Seq<Hittable>,
    r: RayI,
    depth: nat,
    tape: Seq<i64>,
    pos: int,
)
    requires
        objs.len() == 0,
        depth > 0,
    ensures
        ray_color_i(objs, r, depth, tape, pos) == (background_i(r), pos),
{
    assert(scene_hit_i(objs, r, EPS_T as int, crate::sphere::T_CAP as int) is None);
}

/// Rendering is a function of the scene, the camera, the image geometry and
/// the tape alone: two estimates from equal inputs are equal.
pub proof fn lemma_ray_color_deterministic(
    objs: Seq<Hittable>,
    r: RayI,
    depth: nat,
    tape: Seq<i64>,
    pos: int,
    c1: (V3i, int),
    c2: (V3i, int),
)
    requires
        c1 == ray_color_i(objs, r, depth, tape, pos),
        c2 == ray_color_i(objs, r, depth, tape, pos),
    ensures
        c1 == c2,
{
}

/// One quantized display channel: the accumulated channel averaged over the
/// sample count, gamma-2 corrected (square root), clamped to [0, 0.999]
/// and scaled to [0, 255].
pub open spec fn rgb_s(x: int, n: int) -> int {
    let avg = x / n;
    let g = if avg < 0 {
        0
    } else {
        sqrt_floor(avg * (SCALE as int))
    };
    clamp_s(g, 0, 65480) / 256
}

/// Quantize one accumulated pixel color to three display bytes.
pub fn rgb_color(pixel_color: &Vec3, samples_per_pixel: u32) -> (r: (u8, u8, u8))
    requires
        1 <= samples_per_pixel,
        vi_in(pixel_color@, 0x4000_0000_0000),
    ensures
        r.0 as int == rgb_s(pixel_color@.x, samples_per_pixel as int),
        r.1 as int == rgb_s(pixel_color@.y, samples_per_pixel as int),
        r.2 as int == rgb_s(pixel_color@.z, samples_per_pixel as int),
{
    let a: u8 = rgb_channel(pixel_color.x, samples_per_pixel);
    let b: u8 = rgb_channel(pixel_color.y, samples_per_pixel);
    let c: u8 = rgb_channel(pixel_color.z, samples_per_pixel);
    (a, b, c)
}

/// Accumulate n jittered samples for the pixel (x, y): each sample draws a
/// sub-pixel offset for both image coordinates, asks the camera for a ray,
/// and adds the integrator's estimate (black for a ray outside the
/// fixed-point range).
pub open spec fn sample_acc_i(
    objs: Seq<Hittable>,
    cam: CameraI,
    x: int,
    y: int,
    w: int,
    h: int,
    n: nat,
    depth: nat,
    tape: Seq<i64>,
    pos: int,
    acc: V3i,
) -> (V3i, int)
    decreases n,
{
    if n == 0 {
        (acc, pos)
    } else {
        let du = draw_at(tape, pos);
        let p1 = next_pos(tape, pos);
        let dv = draw_at(tape, p1);
        let p2 = next_pos(tape, p1);
        let u = (x * 65536 + du) / (w - 1);
        let v = ((h - y) * 65536 + dv) / (h - 1);
        let (ray, p3) = get_ray_i(cam, u, v, tape, p2);
        let (c, p4) = if ray_ok_i(ray) {
            ray_color_i(objs, ray, depth, tape, p3)
        } else {
            (vi(0, 0, 0), p3)
        };
        sample_acc_i(objs, cam, x, y, w, h, (n - 1) as nat, depth, tape, p4, add_i(acc, c))
    }
}

/// The rendered image from pixel index k on, in row-major order: pixel k
/// sits at column k % w of row k / w.
pub open spec fn render_from(
    objs: Seq<Hittable>,
    cam: CameraI,
    w: int,
    h: int,
    n: nat,
    depth: nat,
    tape: Seq<i64>,
    pos: int,
    k: int,
) -> (Seq<(u8, u8, u8)>, int)
    decreases w * h - k,
{
    if k < 0 || k >= w * h {
        (Seq::empty(), pos)
    } else {
        let x = k % w;
        let y = k / w;
        let (acc, p1) = sample_acc_i(objs, cam, x, y, w, h, n, depth, tape, pos, vi(0, 0, 0));
        let px = (
            rgb_s(acc.x, n as int) as u8,
            rgb_s(acc.y, n as int) as u8,
            rgb_s(acc.z, n as int) as u8,
        );
        let (rest, p2) = render_from(objs, cam, w, h, n, depth, tape, p1, k + 1);
        (seq![px] + rest, p2)
    }
}

/// The whole rendered image, top row first.
pub open spec fn render_i(
    objs: Seq<Hittable>,
    cam: CameraI,
    w: int,
    h: int,
    n: nat,
    depth: nat,
    tape: Seq<i64>,
    pos: int,
) -> (Seq<(u8, u8, u8)>, int) {
    render_from(objs, cam, w, h, n, depth, tape, pos, 0)
}

/// Render the scene: for every pixel, average n jittered integrator
/// estimates and quantize.  The result is row-major, one byte triple per
/// pixel, and a pure function of the scene, the camera, the image geometry
/// and the tape.
pub fn render(
    world: &HittableList,
    cam: &Camera,
    width: u32,
    height: u32,
    samples_per_pixel: u32,
    max_depth: u32,
    smp: &mut Sampler,
) -> (img: Vec<(u8, u8, u8)>)
    requires
        list_ok(world.objects@),
        camera_ok_i(cam@),
        2 <= width <= 4096,
        2 <= height <= 4096,
        1 <= samples_per_pixel <= 16384,
        sampler_ok(*old(smp)),
    ensures
        (img@, final(smp).pos as int) == render_i(
            world.objects@,
            cam@,
            width as int,
            height as int,
            samples_per_pixel as nat,
            max_depth as nat,
            old(smp).tape@,
            old(smp).pos as int,
        ),
        img@.len() == width * height,
        final(smp).tape@ == old(smp).tape@,
        sampler_ok(*final(smp)),
{
    let ghost objs = world.objects@;
    let ghost camg = cam@;
    let ghost tape = smp.tape@;
    let ghost pos0: int = smp.pos as int;
    let ghost wi: int = width as int;
    let ghost hi: int = height as int;
    let ghost ni: nat = samples_per_pixel as nat;
    let ghost di: nat = max_depth as nat;
    proof {
        assert(0 <= (width as int) * (height as int) <= 4096 * 4096) by (nonlinear_arith)
            requires
                2 <= width <= 4096,
                2 <= height <= 4096,
        ;
    }
    let total: u32 = width * height;
    let mut img: Vec<(u8, u8, u8)> = Vec::new();
    let mut k: u32 = 0;
    while k < total
        invariant
            k <= total,
            total == width * height,
            wi == width as int,
            hi == height as int,
            ni == samples_per_pixel as nat,
            di == max_depth as nat,
            2 <= width <= 4096,
            2 <= height <= 4096,
            1 <= samples_per_pixel <= 16384,
            objs == world.objects@,
            list_ok(objs),
            camg == cam@,
            camera_ok_i(camg),
            smp.tape@ == tape,
            tape == old(smp).tape@,
            pos0 == old(smp).pos as int,
            tape_ok(tape),
            img@.len() == k as int,
            render_i(objs, camg, wi, hi, ni, di, tape, pos0) == (
                img@ + render_from(objs, camg, wi, hi, ni, di, tape, smp.pos as int, k as int).0,
                render_from(objs, camg, wi, hi, ni, di, tape, smp.pos as int, k as int).1,
            ),
        decreases total - k,
    {
        let x: u32 = k % width;
        let y: u32 = k / width;
        proof {
            assert(wi * hi - 1 == (hi - 1) * wi + (wi - 1)) by (nonlinear_arith);
            lemma_div_is_ordered(k as int, wi * hi - 1, wi);
            vstd::arithmetic::div_mod::lemma_fundamental_div_mod_converse(
                wi * hi - 1,
                wi,
                hi - 1,
                wi - 1,
            );
        }
        let ghost pk: int = smp.pos as int;
        let mut acc: Vec3 = Vec3::zero();
        let mut j: u32 = 0;
        while j < samples_per_pixel
            invariant
                j <= samples_per_pixel,
                2 <= width <= 4096,
                2 <= height <= 4096,
                1 <= samples_per_pixel <= 16384,
                x == k % width,
                y == k / width,
                y as int <= hi - 1,
                k < total,
                total == width * height,
                wi == width as int,
                hi == height as int,
                ni == samples_per_pixel as nat,
                di == max_depth as nat,
                objs == world.objects@,
                list_ok(objs),
                camg == cam@,
                camera_ok_i(camg),
                smp.tape@ == tape,
                tape_ok(tape),
                vi_in(acc@, (j as int) * 0x2_0000),
                sample_acc_i(objs, camg, x as int, y as int, wi, hi, ni, di, tape, pk, vi(0, 0, 0))
                    == sample_acc_i(
                    objs,
                    camg,
                    x as int,
                    y as int,
                    wi,
                    hi,
                    (samples_per_pixel - j) as nat,
                    di,
                    tape,
                    smp.pos as int,
                    acc@,
                ),
            decreases samples_per_pixel - j,
        {
            let ghost pj: int = smp.pos as int;
            let du: i64 = smp.next();
            let dv: i64 = smp.next();
            proof {
                assert(0 <= (x as int) * 65536 + du) by (nonlinear_arith)
                    requires
                        0 <= x,
                        0 <= du,
                ;
                assert((x as int) * 65536 + du <= ((width as int) - 1) * 0x4_0000)
                    by (nonlinear_arith)
                    requires
                        x as int <= (width as int) - 1,
                        0 <= du < 65536,
                        2 <= width,
                ;
                lemma_div_is_ordered(0, (x as int) * 65536 + (du as int), (width as int) - 1);
                lemma_div_is_ordered(
                    (x as int) * 65536 + (du as int),
                    ((width as int) - 1) * 0x4_0000,
                    (width as int) - 1,
                );
                lemma_div_multiples_vanish(0x4_0000, (width as int) - 1);
                assert(0 <= (((height as int) - (y as int)) * 65536 + dv)) by (nonlinear_arith)
                    requires
                        y as int <= (height as int) - 1,
                        0 <= dv,
                ;
                assert(((height as int) - (y as int)) * 65536 + dv <= ((height as int) - 1)
                    * 0x4_0000) by (nonlinear_arith)
                    requires
                        1 <= (height as int) - (y as int) <= height as int,
                        0 <= dv < 65536,
                        2 <= height,
                ;
                lemma_div_is_ordered(
                    0,
                    ((height as int) - (y as int)) * 65536 + (dv as int),
                    (height as int) - 1,
                );
                lemma_div_is_ordered(
                    ((height as int) - (y as int)) * 65536 + (dv as int),
                    ((height as int) - 1) * 0x4_0000,
                    (height as int) - 1,
                );
                lemma_div_multiples_vanish(0x4_0000, (height as int) - 1);
            }
            let u: i64 = fixed::idiv((x as i64) * 65536 + du, (width as i64) - 1);
            let v: i64 = fixed::idiv(((height as i64) - (y as i64)) * 65536 + dv, (height as i64)
                - 1);
            let ray: Ray = cam.get_ray(u, v, smp);
            let c: Vec3 = if ray.ray_ok() {
                ray_color(world, &ray, max_depth, smp)
            } else {
                Vec3::zero()
            };
            proof {
                assert(vi_in(c@, 0x2_0000));
                assert((j as int + 1) * 0x2_0000 == (j as int) * 0x2_0000 + 0x2_0000);
            }
            acc = acc.add(c);
            j = j + 1;
        }
        proof {
            assert(sample_acc_i(
                objs,
                camg,
                x as int,
                y as int,
                wi,
                hi,
                0,
                di,
                tape,
                smp.pos as int,
                acc@,
            ) == (acc@, smp.pos as int));
            assert(vi_in(acc@, 0x4000_0000_0000));
        }
        let px: (u8, u8, u8) = rgb_color(&acc, samples_per_pixel);
        img.push(px);
        k = k + 1;
    }
    img
}

fn rgb_channel(x: i64, n: u32) -> (r: u8)
    requires
        1 <= n,
        -0x4000_0000_0000 <= x <= 0x4000_0000_0000,
    ensures
        r as int == rgb_s(x as int, n as int),
{
    let avg: i64 = fixed::idiv(x, n as i64);
    let g: i64 = if avg < 0 {
        0
    } else {
        fixed::fx_sqrt(avg)
    };
    let cl: i64 = fixed::clamp(g, 0, 65480);
    let q: i64 = fixed::idiv(cl, 256);
    proof {
        lemma_div_is_ordered(0, cl as int, 256);
        lemma_div_is_ordered(cl as int, 65480, 256);
    }
    q as u8
}

} // verus!
