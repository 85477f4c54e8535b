//! Spheres: the sole concrete geometry, intersected by the quadratic
//! ray-sphere test.  The executable intersection is proved equal to the
//! spec-level mirror `sphere_hit_i` on all admitted inputs.

use vstd::prelude::*;
use crate::fixed;
use crate::fixed::{fmul_s, fdiv_s, sqrt_floor, SCALE};
use crate::vec3::{
    Vec3, V3i, sub_i, dot_i, vi_in, div_scalar_i, lemma_dot_ok, lemma_mul76, lemma_dot_bound,
    lemma_fmul_s_76,
};
use crate::ray::{Ray, RayI, at_i, ray_ok_i};
use crate::hittable::{HitRecord, HitRecI, face_normal_i};
use crate::material::{Material, material_ok};

verus! {

/// Largest admitted ray parameter (raw): about one million in real terms.
pub const T_CAP: i64 = 0x10_0000_0000;

/// Smallest admitted sphere radius (raw): about 0.01 in real terms.
pub const RADIUS_MIN: i64 = 656;

/// Largest admitted coordinate and radius (raw): 8192 in real terms.
pub const WORLD_MAX: i64 = 0x2000_0000;

#[derive(Clone, Copy, PartialEq, Eq, Structural, Debug)]
pub struct Sphere {
    pub center: Vec3,
    pub radius: i64,
    pub material: Material,
}

/// A well-formed sphere: center within the world bound, radius positive
/// (and within the fixed-point caps), material well formed.
pub open spec fn sphere_ok(s: Sphere) -> bool {
    vi_in(s.center@, WORLD_MAX as int) && RADIUS_MIN <= s.radius <= WORLD_MAX
        && material_ok(s.material)
}

/// The ray parameter reported by the quadratic intersection test: the near
/// root if it lies in [t_min, t_max], else the far root if it does, else
/// nothing.  Mirrors the executable arithmetic exactly, rounding included.
pub open spec fn sphere_root_i(s: Sphere, r: RayI, t_min: int, t_max: int) -> Option<int> {
    let oc = sub_i(r.orig, s.center@);
    let a = dot_i(r.dir, r.dir);
    let half_b = dot_i(oc, r.dir);
    let c = dot_i(oc, oc) - fmul_s(s.radius as int, s.radius as int);
    let disc = fmul_s(half_b, half_b) - fmul_s(a, c);
    if disc < 0 {
        None
    } else {
        let sqrtd = sqrt_floor(disc * (SCALE as int));
        let r1 = fdiv_s(-half_b - sqrtd, a);
        let r2 = fdiv_s(-half_b + sqrtd, a);
        if t_min <= r1 && r1 <= t_max {
            Some(r1)
        } else if t_min <= r2 && r2 <= t_max {
            Some(r2)
        } else {
            None
        }
    }
}

/// The hit record for a sphere intersection at parameter t: the point on the
/// ray, the outward normal (point minus center, over the radius) oriented
/// against the ray, and the sphere's material.
pub open spec fn sphere_rec_i(s: Sphere, r: RayI, t: int) -> HitRecI {
    let p = at_i(r, t);
    let outward = div_scalar_i(sub_i(p, s.center@), s.radius as int);
    HitRecI {
        p: p,
        normal: face_normal_i(r.dir, outward),
        t: t,
        front_face: dot_i(r.dir, outward) < 0,
        material: s.material,
    }
}

/// The full intersection query: the nearest admissible root with its record.
pub open spec fn sphere_hit_i(s: Sphere, r: RayI, t_min: int, t_max: int) -> Option<HitRecI> {
    match sphere_root_i(s, r, t_min, t_max) {
        Some(t) => Some(sphere_rec_i(s, r, t)),
        None => None,
    }
}

impl Sphere {
    pub fn new(center: Vec3, radius: i64, material: Material) -> (r: Sphere)
        requires
            vi_in(center@, WORLD_MAX as int),
            RADIUS_MIN <= radius <= WORLD_MAX,
            material_ok(material),
        ensures
            r.center == center,
            r.radius == radius,
            r.material == material,
            sphere_ok(r),
    {
        Sphere { center, radius, material }
    }

    /// Report the intersection with the smallest admissible parameter in
    /// [t_min, t_max], if any, with its oriented hit record.
    pub fn hit(&self, ray: &Ray, t_min: i64, t_max: i64) -> (res: Option<HitRecord>)
        requires
            sphere_ok(*self),
            ray_ok_i(ray@),
            0 <= t_min <= t_max <= T_CAP,
        ensures
            (res is Some) == (sphere_hit_i(*self, ray@, t_min as int, t_max as int) is Some),
            res matches Some(h) ==> Some(h@) == sphere_hit_i(
                *self,
                ray@,
                t_min as int,
                t_max as int,
            ),
            res matches Some(h) ==> t_min <= h.t <= t_max,
            res matches Some(h) ==> dot_i(ray@.dir, h@.normal) <= 0,
            res matches Some(h) ==> h.material == self.material,
            res matches Some(h) ==> vi_in(h@.p, 0x800_0000_0000),
            res matches Some(h) ==> vi_in(h@.normal, 0x8_0000_0000_0000),
    {
        let oc: Vec3 = ray.origin().sub(self.center);
        proof {
            assert(vi_in(oc@, 0x4000_0000));
            lemma_dot_ok(ray@.dir, ray@.dir, 0x40_0000, 0x40_0000);
            lemma_dot_ok(oc@, ray@.dir, 0x4000_0000, 0x40_0000);
            lemma_dot_ok(oc@, oc@, 0x4000_0000, 0x4000_0000);
            lemma_mul76(self.radius as int, self.radius as int, 0x2000_0000, 0x2000_0000);
            lemma_dot_bound(ray@.dir, ray@.dir, 0x40_0000, 0x40_0000);
            lemma_dot_bound(oc@, ray@.dir, 0x4000_0000, 0x40_0000);
            lemma_dot_bound(oc@, oc@, 0x4000_0000, 0x4000_0000);
            lemma_fmul_s_76(self.radius as int, self.radius as int);
            // the squared radius stays within 2^42 after rescaling
            fixed::lemma_mul_le(self.radius as int, self.radius as int, 0x2000_0000, 0x2000_0000);
            let r2hi: int = (0x2000_0000 as int) * (0x2000_0000 as int);
            vstd::arithmetic::div_mod::lemma_div_is_ordered(
                (self.radius as int) * (self.radius as int),
                r2hi,
                SCALE as int,
            );
            vstd::arithmetic::div_mod::lemma_div_is_ordered(
                0,
                (self.radius as int) * (self.radius as int),
                SCALE as int,
            );
            assert(r2hi / (SCALE as int) == 0x400_0000_0000);
        }
        let a: i64 = ray.direction().dot(ray.direction());
        let half_b: i64 = oc.dot(ray.direction());
        let c: i64 = oc.dot(oc) - fixed::fmul(self.radius, self.radius);
        proof {
            lemma_mul76(half_b as int, half_b as int, 0x40_0000_0000, 0x40_0000_0000);
            lemma_mul76(a as int, c as int, 0x4000_0000, 0x4000_0000_0000);
            lemma_fmul_s_76(half_b as int, half_b as int);
            lemma_fmul_s_76(a as int, c as int);
        }
        let discriminant: i64 = fixed::fmul(half_b, half_b) - fixed::fmul(a, c);
        if discriminant < 0 {
            return None;
        }
        let sqrtd: i64 = fixed::fx_sqrt(discriminant);
        proof {
            fixed::lemma_fdiv_bound(-(half_b as int) - (sqrtd as int), a as int);
            fixed::lemma_fdiv_bound(-(half_b as int) + (sqrtd as int), a as int);
        }
        let root1: i64 = fixed::fdiv(-half_b - sqrtd, a);
        let root: i64 = if t_min <= root1 && root1 <= t_max {
            root1
        } else {
            let root2: i64 = fixed::fdiv(-half_b + sqrtd, a);
            if t_min <= root2 && root2 <= t_max {
                root2
            } else {
                return None;
            }
        };
        proof {
            lemma_mul76(root as int, ray@.dir.x, T_CAP as int, 0x40_0000);
            lemma_mul76(root as int, ray@.dir.y, T_CAP as int, 0x40_0000);
            lemma_mul76(root as int, ray@.dir.z, T_CAP as int, 0x40_0000);
            crate::vec3::lemma_scale_bound(root as int, ray@.dir, T_CAP as int, 0x40_0000);
        }
        let p: Vec3 = ray.at(root);
        proof {
            assert(vi_in(p@, 0x800_0000_0000));
        }
        let off: Vec3 = p.sub(self.center);
        proof {
            fixed::lemma_fdiv_divisor_bound(off@.x, self.radius as int, 0x1000_0000_0000, RADIUS_MIN as int);
            fixed::lemma_fdiv_divisor_bound(off@.y, self.radius as int, 0x1000_0000_0000, RADIUS_MIN as int);
            fixed::lemma_fdiv_divisor_bound(off@.z, self.radius as int, 0x1000_0000_0000, RADIUS_MIN as int);
            assert((0x1000_0000_0000 * (SCALE as int)) / (RADIUS_MIN as int) + 1
                <= 0x8_0000_0000_0000);
        }
        let outward_normal: Vec3 = off.div_scalar(self.radius);
        proof {
            lemma_dot_ok(ray@.dir, outward_normal@, 0x40_0000, 0x8_0000_0000_0000);
        }
        let mut rec: HitRecord = HitRecord {
            p: p,
            normal: outward_normal,
            t: root,
            front_face: false,
            material: self.material,
        };
        rec.set_face_normal(ray, outward_normal);
        Some(rec)
    }
}

} // verus!
