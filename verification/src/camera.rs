//! The camera: maps an image-plane sample coordinate to a world-space ray,
//! with field of view, aspect ratio, an orientable basis and a thin-lens
//! aperture for depth of field.

use vstd::prelude::*;
use crate::fixed;
use crate::fixed::{fmul_s, fdiv_s, deg2rad_s, sin_s, cos_s, SCALE};
use crate::vec3::{
    Vec3, V3i, add_i, sub_i, scale_i, cross_i, dot_i, unit_i, half_vi, vi_in, lemma_dot_ok,
    lemma_cross_ok, lemma_unit_bound, lemma_mul76, lemma_scale_bound, lemma_half_bound,
    lemma_fmul_s_76,
};
use crate::ray::{Ray, RayI};
use crate::sampler::{Sampler, sampler_ok, rid_i};

verus! {

#[derive(Clone, Copy, PartialEq, Eq, Structural, Debug)]
pub struct Camera {
    pub origin: Vec3,
    pub lower_left_corner: Vec3,
    pub horizontal: Vec3,
    pub vertical: Vec3,
    pub u: Vec3,
    pub v: Vec3,
    pub w: Vec3,
    pub lens_radius: i64,
}

/// Mathematical view of a camera.
pub ghost struct CameraI {
    pub origin: V3i,
    pub lower_left_corner: V3i,
    pub horizontal: V3i,
    pub vertical: V3i,
    pub u: V3i,
    pub v: V3i,
    pub w: V3i,
    pub lens_radius: int,
}

impl View for Camera {
    type V = CameraI;

    open spec fn view(&self) -> CameraI {
        CameraI {
            origin: self.origin@,
            lower_left_corner: self.lower_left_corner@,
            horizontal: self.horizontal@,
            vertical: self.vertical@,
            u: self.u@,
            v: self.v@,
            w: self.w@,
            lens_radius: self.lens_radius as int,
        }
    }
}

/// Field bounds that construction establishes and `get_ray` relies on.
pub open spec fn camera_ok_i(c: CameraI) -> bool {
    vi_in(c.origin, 0x2000_0000) && vi_in(c.lower_left_corner, 0x200_0000_0000_0000) && vi_in(
        c.horizontal,
        0x80_0000_0000_0000,
    ) && vi_in(c.vertical, 0x80_0000_0000_0000) && vi_in(c.u, 0x2_0000) && vi_in(c.v, 0x10_0000)
        && vi_in(c.w, 0x2_0000) && 0 <= c.lens_radius <= 0x10_0000
}

/// What construction computes: the orthonormal-ish basis from
/// look-from/look-at/up, the viewport spans from the field of view, the
/// aspect ratio and the focus distance, and the lens radius from the
/// aperture.  Construction fails (returns nothing) when the viewing
/// direction or the up vector is too degenerate to normalize, or the
/// field of view leaves no positive cosine.
pub open spec fn camera_make_i(
    lookfrom: V3i,
    lookat: V3i,
    vup: V3i,
    vfov: int,
    aspect_ratio: int,
    aperture: int,
    focus_dist: int,
) -> Option<CameraI> {
    let theta = deg2rad_s(vfov);
    let ht = theta / 2;
    let sh = sin_s(ht);
    let ch = cos_s(ht);
    let dvec = sub_i(lookfrom, lookat);
    if ch < 1 || dot_i(dvec, dvec) < 256 {
        None
    } else {
        let w = unit_i(dvec);
        let cuv = cross_i(vup, w);
        if dot_i(cuv, cuv) < 256 {
            None
        } else {
            let u = unit_i(cuv);
            let v = cross_i(w, u);
            let h = fdiv_s(sh, ch);
            let vh = 2 * h;
            let vw = fmul_s(aspect_ratio, vh);
            let horizontal = scale_i(fmul_s(focus_dist, vw), u);
            let vertical = scale_i(fmul_s(focus_dist, vh), v);
            let llc = sub_i(
                sub_i(sub_i(lookfrom, half_vi(horizontal)), half_vi(vertical)),
                scale_i(focus_dist, w),
            );
            Some(
                CameraI {
                    origin: lookfrom,
                    lower_left_corner: llc,
                    horizontal: horizontal,
                    vertical: vertical,
                    u: u,
                    v: v,
                    w: w,
                    lens_radius: aperture / 2,
                },
            )
        }
    }
}

/// The ray for an image-plane sample (s, t) in [0, 1] x [0, 1]: the origin
/// jittered on the lens disk, aimed through the corresponding image-plane
/// point.
pub open spec fn get_ray_i(c: CameraI, s: int, t: int, tape: Seq<i64>, pos: int) -> (RayI, int) {
    let (d, p1) = rid_i(tape, pos);
    let rdx = fmul_s(c.lens_radius, d.x);
    let rdy = fmul_s(c.lens_radius, d.y);
    let offset = add_i(scale_i(rdx, c.u), scale_i(rdy, c.v));
    let orig = add_i(c.origin, offset);
    let dir = sub_i(
        sub_i(
            add_i(add_i(c.lower_left_corner, scale_i(s, c.horizontal)), scale_i(t, c.vertical)),
            c.origin,
        ),
        offset,
    );
    (RayI { orig: orig, dir: dir }, p1)
}

impl Camera {
    /// Build a camera, validating the construction inputs: a degenerate
    /// viewing direction, up vector or field of view is rejected.
    pub fn new(
        lookfrom: Vec3,
        lookat: Vec3,
        vup: Vec3,
        vfov: i64,
        aspect_ratio: i64,
        aperture: i64,
        focus_dist: i64,
    ) -> (res: Option<Camera>)
        requires
            vi_in(lookfrom@, 0x2000_0000),
            vi_in(lookat@, 0x2000_0000),
            vi_in(vup@, 0x10_0000),
            0 < vfov <= 0xA0_0000,
            0 < aspect_ratio <= 0x80_0000,
            0 <= aperture <= 0x20_0000,
            0 < focus_dist <= 0x20_0000,
        ensures
            (res is Some) == (camera_make_i(
                lookfrom@,
                lookat@,
                vup@,
                vfov as int,
                aspect_ratio as int,
                aperture as int,
                focus_dist as int,
            ) is Some),
            res matches Some(c) ==> Some(c@) == camera_make_i(
                lookfrom@,
                lookat@,
                vup@,
                vfov as int,
                aspect_ratio as int,
                aperture as int,
                focus_dist as int,
            ),
            res matches Some(c) ==> camera_ok_i(c@),
    {
        let theta: i64 = fixed::degrees_to_radians(vfov);
        proof {
            vstd::arithmetic::div_mod::lemma_div_is_ordered(
                (vfov as int) * 205887,
                (0xA0_0000 as int) * 205887,
                11796480,
            );
            vstd::arithmetic::div_mod::lemma_div_is_ordered(
                0,
                (vfov as int) * 205887,
                11796480,
            );
            assert(((0xA0_0000 as int) * 205887) / 11796480 <= 262143);
            vstd::arithmetic::div_mod::lemma_div_is_ordered(0, theta as int, 2);
            vstd::arithmetic::div_mod::lemma_div_is_ordered(theta as int, 262143, 2);
        }
        let ht: i64 = fixed::idiv(theta, 2);
        let sh: i64 = fixed::sin_fx(ht);
        let ch: i64 = fixed::cos_fx(ht);
        let dvec: Vec3 = lookfrom.sub(lookat);
        proof {
            lemma_dot_ok(dvec@, dvec@, 0x4000_0000, 0x4000_0000);
        }
        let dq: i64 = dvec.dot(dvec);
        if ch < 1 || dq < 256 {
            return None;
        }
        proof {
            lemma_unit_bound(dvec@);
        }
        let w: Vec3 = crate::vec3::unit_vector(dvec);
        proof {
            lemma_cross_ok(vup@, w@, 0x10_0000, 0x2_0000);
        }
        let cuv: Vec3 = vup.cross(w);
        proof {
            // cross products of these bounded vectors stay well inside 2^22
            crate::fixed::lemma_fmul_s_in(vup@.y, w@.z, 0x10_0000, 0x2_0000);
            crate::fixed::lemma_fmul_s_in(vup@.z, w@.y, 0x10_0000, 0x2_0000);
            crate::fixed::lemma_fmul_s_in(vup@.z, w@.x, 0x10_0000, 0x2_0000);
            crate::fixed::lemma_fmul_s_in(vup@.x, w@.z, 0x10_0000, 0x2_0000);
            crate::fixed::lemma_fmul_s_in(vup@.x, w@.y, 0x10_0000, 0x2_0000);
            crate::fixed::lemma_fmul_s_in(vup@.y, w@.x, 0x10_0000, 0x2_0000);
            assert(vi_in(cuv@, 0x80_0002));
            lemma_dot_ok(cuv@, cuv@, 0x80_0002, 0x80_0002);
        }
        let cq: i64 = cuv.dot(cuv);
        if cq < 256 {
            return None;
        }
        proof {
            lemma_unit_bound(cuv@);
        }
        let u: Vec3 = crate::vec3::unit_vector(cuv);
        proof {
            lemma_cross_ok(w@, u@, 0x2_0000, 0x2_0000);
            crate::fixed::lemma_fmul_s_in(w@.y, u@.z, 0x2_0000, 0x2_0000);
            crate::fixed::lemma_fmul_s_in(w@.z, u@.y, 0x2_0000, 0x2_0000);
            crate::fixed::lemma_fmul_s_in(w@.z, u@.x, 0x2_0000, 0x2_0000);
            crate::fixed::lemma_fmul_s_in(w@.x, u@.z, 0x2_0000, 0x2_0000);
            crate::fixed::lemma_fmul_s_in(w@.x, u@.y, 0x2_0000, 0x2_0000);
            crate::fixed::lemma_fmul_s_in(w@.y, u@.x, 0x2_0000, 0x2_0000);
        }
        let v: Vec3 = w.cross(u);
        proof {
            assert(vi_in(v@, 0x10_0000));
            fixed::lemma_fdiv_divisor_bound(sh as int, ch as int, 0x100_0000, 1);
            fixed::lemma_fdiv_bound(sh as int, ch as int);
        }
        let h: i64 = fixed::fdiv(sh, ch);
        let vh: i64 = 2 * h;
        proof {
            lemma_mul76(aspect_ratio as int, vh as int, 0x80_0000, 0x200_0000_0002);
            fixed::lemma_fmul_s_in(aspect_ratio as int, vh as int, 0x80_0000, 0x200_0000_0002);
        }
        let vw: i64 = fixed::fmul(aspect_ratio, vh);
        proof {
            lemma_mul76(focus_dist as int, vw as int, 0x20_0000, 0x1000000000101);
            fixed::lemma_fmul_s_in(focus_dist as int, vw as int, 0x20_0000, 0x1000000000101);
            lemma_mul76(focus_dist as int, vh as int, 0x20_0000, 0x200_0000_0002);
            fixed::lemma_fmul_s_in(focus_dist as int, vh as int, 0x20_0000, 0x200_0000_0002);
        }
        let fw: i64 = fixed::fmul(focus_dist, vw);
        let fh: i64 = fixed::fmul(focus_dist, vh);
        proof {
            lemma_mul76(fw as int, u@.x, 0x20000000002021, 0x2_0000);
            lemma_mul76(fw as int, u@.y, 0x20000000002021, 0x2_0000);
            lemma_mul76(fw as int, u@.z, 0x20000000002021, 0x2_0000);
            lemma_scale_bound(fw as int, u@, 0x20000000002021, 0x2_0000);
            lemma_mul76(fh as int, v@.x, 0x400000000041, 0x10_0000);
            lemma_mul76(fh as int, v@.y, 0x400000000041, 0x10_0000);
            lemma_mul76(fh as int, v@.z, 0x400000000041, 0x10_0000);
            lemma_scale_bound(fh as int, v@, 0x400000000041, 0x10_0000);
        }
        let horizontal: Vec3 = u.scale(fw);
        let vertical: Vec3 = v.scale(fh);
        proof {
            assert(vi_in(horizontal@, 0x80_0000_0000_0000));
            assert(vi_in(vertical@, 0x80_0000_0000_0000));
            lemma_half_bound(horizontal@, 0x40_0000_0000_0000);
            lemma_half_bound(vertical@, 0x40_0000_0000_0000);
            lemma_mul76(focus_dist as int, w@.x, 0x20_0000, 0x2_0000);
            lemma_mul76(focus_dist as int, w@.y, 0x20_0000, 0x2_0000);
            lemma_mul76(focus_dist as int, w@.z, 0x20_0000, 0x2_0000);
            lemma_scale_bound(focus_dist as int, w@, 0x20_0000, 0x2_0000);
        }
        let llc: Vec3 = lookfrom.sub(crate::vec3::half_v(horizontal)).sub(
            crate::vec3::half_v(vertical),
        ).sub(w.scale(focus_dist));
        let lens_radius: i64 = fixed::idiv(aperture, 2);
        proof {
            vstd::arithmetic::div_mod::lemma_div_is_ordered(0, aperture as int, 2);
            vstd::arithmetic::div_mod::lemma_div_is_ordered(aperture as int, 0x20_0000, 2);
        }
        Some(
            Camera {
                origin: lookfrom,
                lower_left_corner: llc,
                horizontal,
                vertical,
                u,
                v,
                w,
                lens_radius,
            },
        )
    }

    /// The ray for the image-plane sample (s, t), both raw values in [0, 1].
    pub fn get_ray(&self, s: i64, t: i64, smp: &mut Sampler) -> (r: Ray)
        requires
            camera_ok_i(self@),
            0 <= s <= 0x4_0000,
            0 <= t <= 0x4_0000,
            sampler_ok(*old(smp)),
        ensures
            (r@, final(smp).pos as int) == get_ray_i(
                self@,
                s as int,
                t as int,
                old(smp).tape@,
                old(smp).pos as int,
            ),
            final(smp).tape@ == old(smp).tape@,
            sampler_ok(*final(smp)),
    {
        let d: Vec3 = crate::sampler::random_in_unit_disk(smp);
        proof {
            lemma_mul76(self.lens_radius as int, d@.x, 0x10_0000, 65536);
            lemma_mul76(self.lens_radius as int, d@.y, 0x10_0000, 65536);
            fixed::lemma_fmul_s_in(self.lens_radius as int, d@.x, 0x10_0000, 65536);
            fixed::lemma_fmul_s_in(self.lens_radius as int, d@.y, 0x10_0000, 65536);
        }
        let rdx: i64 = fixed::fmul(self.lens_radius, d.x);
        let rdy: i64 = fixed::fmul(self.lens_radius, d.y);
        proof {
            lemma_mul76(rdx as int, self@.u.x, 0x10_0001, 0x2_0000);
            lemma_mul76(rdx as int, self@.u.y, 0x10_0001, 0x2_0000);
            lemma_mul76(rdx as int, self@.u.z, 0x10_0001, 0x2_0000);
            lemma_scale_bound(rdx as int, self@.u, 0x10_0001, 0x2_0000);
            lemma_mul76(rdy as int, self@.v.x, 0x10_0001, 0x10_0000);
            lemma_mul76(rdy as int, self@.v.y, 0x10_0001, 0x10_0000);
            lemma_mul76(rdy as int, self@.v.z, 0x10_0001, 0x10_0000);
            lemma_scale_bound(rdy as int, self@.v, 0x10_0001, 0x10_0000);
        }
        let offset: Vec3 = self.u.scale(rdx).add(self.v.scale(rdy));
        proof {
            lemma_mul76(s as int, self@.horizontal.x, 0x4_0000, 0x80_0000_0000_0000);
            lemma_mul76(s as int, self@.horizontal.y, 0x4_0000, 0x80_0000_0000_0000);
            lemma_mul76(s as int, self@.horizontal.z, 0x4_0000, 0x80_0000_0000_0000);
            lemma_scale_bound(s as int, self@.horizontal, 0x4_0000, 0x80_0000_0000_0000);
            lemma_mul76(t as int, self@.vertical.x, 0x4_0000, 0x80_0000_0000_0000);
            lemma_mul76(t as int, self@.vertical.y, 0x4_0000, 0x80_0000_0000_0000);
            lemma_mul76(t as int, self@.vertical.z, 0x4_0000, 0x80_0000_0000_0000);
            lemma_scale_bound(t as int, self@.vertical, 0x4_0000, 0x80_0000_0000_0000);
        }
        let dir: Vec3 = self.lower_left_corner.add(self.horizontal.scale(s)).add(
            self.vertical.scale(t),
        ).sub(self.origin).sub(offset);
        Ray::new(self.origin.add(offset), dir)
    }
}

} // verus!
