//! Materials: diffuse (Lambertian), reflective with fuzz (Metal) and
//! refractive (Dielectric), as a closed sum type shared by value.

use vstd::prelude::*;
use crate::fixed;
use crate::fixed::{fmul_s, fdiv_s, sqrt_floor, SCALE};
use crate::vec3::{
    Vec3, V3i, vi, add_i, neg_i, scale_i, dot_i, vi_in, near_zero_s, reflect_i, refract_i,
    unit_i, lemma_dot_ok, lemma_dot_bound, lemma_scale_bound, lemma_mul76, lemma_unit_bound,
    lemma_fmul_s_76, lemma_dot_self_nonneg,
};
use crate::ray::{Ray, RayI, ray_ok_i};
use crate::hittable::{HitRecord, HitRecI};
use crate::sampler::{Sampler, sampler_ok, tape_ok, draw_at, next_pos, rius_i, ruv_i};
use vstd::arithmetic::div_mod::{lemma_div_is_ordered, lemma_div_is_ordered_by_denominator};

verus! {

/// Largest admitted refraction index (raw): 64 in real terms.
pub const IR_MAX: i64 = 64 * 65536;

/// Smallest admitted refraction index (raw): 1/64 in real terms.
pub const IR_MIN: i64 = 1024;

#[derive(Clone, Copy, PartialEq, Eq, Structural, Debug)]
pub struct Lambertian {
    pub albedo: Vec3,
}

#[derive(Clone, Copy, PartialEq, Eq, Structural, Debug)]
pub struct Metal {
    pub albedo: Vec3,
    pub fuzz: i64,
}

#[derive(Clone, Copy, PartialEq, Eq, Structural, Debug)]
pub struct Dielectric {
    pub index_of_refraction: i64,
}

#[derive(Clone, Copy, PartialEq, Eq, Structural, Debug)]
pub enum Material {
    Lambertian(Lambertian),
    Metal(Metal),
    Dielectric(Dielectric),
}

/// Each channel of an albedo lies in [0, 1] (raw [0, SCALE]).
pub open spec fn albedo_ok(a: V3i) -> bool {
    0 <= a.x <= SCALE as int && 0 <= a.y <= SCALE as int && 0 <= a.z <= SCALE as int
}

/// A well-formed material: albedo channels in [0, 1], fuzz in [0, 1], and a
/// refraction index within the admitted fixed-point range.
pub open spec fn material_ok(m: Material) -> bool {
    match m {
        Material::Lambertian(l) => albedo_ok(l.albedo@),
        Material::Metal(mt) => albedo_ok(mt.albedo@) && 0 <= mt.fuzz <= SCALE,
        Material::Dielectric(d) => IR_MIN <= d.index_of_refraction <= IR_MAX,
    }
}

impl Lambertian {
    pub fn new(albedo: Vec3) -> (r: Lambertian)
        requires
            albedo_ok(albedo@),
        ensures
            r.albedo == albedo,
            material_ok(Material::Lambertian(r)),
    {
        Lambertian { albedo }
    }
}

impl Metal {
    /// The fuzz parameter is clamped into [0, 1].
    pub fn new(albedo: Vec3, fuzz: i64) -> (r: Metal)
        requires
            albedo_ok(albedo@),
        ensures
            r.albedo == albedo,
            r.fuzz == crate::fixed::clamp_s(fuzz as int, 0, SCALE as int),
            material_ok(Material::Metal(r)),
    {
        let f: i64 = crate::fixed::clamp(fuzz, 0, SCALE);
        Metal { albedo, fuzz: f }
    }
}

/// The fifth power of a raw fixed-point value, rounded at each product.
pub open spec fn pow5_s(x: int) -> int {
    fmul_s(x, fmul_s(x, fmul_s(x, fmul_s(x, x))))
}

/// Schlick's reflectance approximation:
/// r0 + (1 - r0) (1 - cosine)^5 with r0 = ((1 - ref_idx) / (1 + ref_idx))^2.
pub open spec fn reflectance_s(cosine: int, ref_idx: int) -> int {
    let s = SCALE as int;
    let r0 = fdiv_s(s - ref_idx, s + ref_idx);
    let r0sq = fmul_s(r0, r0);
    r0sq + fmul_s(s - r0sq, pow5_s(s - cosine))
}

impl Dielectric {
    pub fn new(index_of_refraction: i64) -> (r: Dielectric)
        requires
            IR_MIN <= index_of_refraction <= IR_MAX,
        ensures
            r.index_of_refraction == index_of_refraction,
            material_ok(Material::Dielectric(r)),
    {
        Dielectric { index_of_refraction }
    }

    /// Schlick's approximation for the reflectance at a dielectric boundary.
    pub fn reflectance(&self, cosine: i64, ref_idx: i64) -> (r: i64)
        requires
            -0x40_0000 <= cosine <= 0x40_0000,
            0 < ref_idx <= 0x40_0000,
        ensures
            r == reflectance_s(cosine as int, ref_idx as int),
    {
        proof {
            fixed::lemma_fdiv_bound((SCALE as int) - ref_idx, (SCALE as int) + ref_idx);
            fixed::lemma_fdiv_divisor_bound(
                (SCALE as int) - ref_idx,
                (SCALE as int) + ref_idx,
                0x40_0000,
                65537,
            );
            let r0hi: int = ((0x40_0000 as int) * (65536 as int)) / 65537 + 1;
            assert(r0hi <= 0x40_0000);
        }
        let r0: i64 = fixed::fdiv(SCALE - ref_idx, SCALE + ref_idx);
        proof {
            lemma_mul76(r0 as int, r0 as int, 0x40_0000, 0x40_0000);
            fixed::lemma_fmul_s_in(r0 as int, r0 as int, 0x40_0000, 0x40_0000);
            let sqhi: int = ((0x40_0000 as int) * (0x40_0000 as int)) / 65536;
            assert(sqhi == 0x1000_0000);
        }
        let r0sq: i64 = fixed::fmul(r0, r0);
        let e: i64 = SCALE - cosine;
        proof {
            lemma_mul76(e as int, e as int, 0x41_0000, 0x41_0000);
            fixed::lemma_fmul_s_in(e as int, e as int, 0x41_0000, 0x41_0000);
            assert(((0x41_0000 as int) * (0x41_0000 as int)) / 65536 + 1 <= 0x1100_0000);
        }
        let t0: i64 = fixed::fmul(e, e);
        proof {
            lemma_mul76(e as int, t0 as int, 0x41_0000, 0x1100_0000);
            fixed::lemma_fmul_s_in(e as int, t0 as int, 0x41_0000, 0x1100_0000);
            assert(((0x41_0000 as int) * (0x1100_0000 as int)) / 65536 + 1 <= 0x5_0000_0000);
        }
        let t1: i64 = fixed::fmul(e, t0);
        proof {
            lemma_mul76(e as int, t1 as int, 0x41_0000, 0x5_0000_0000);
            fixed::lemma_fmul_s_in(e as int, t1 as int, 0x41_0000, 0x5_0000_0000);
            assert(((0x41_0000 as int) * (0x5_0000_0000 as int)) / 65536 + 1 <= 0x160_0000_0000);
        }
        let t2: i64 = fixed::fmul(e, t1);
        proof {
            lemma_mul76(e as int, t2 as int, 0x41_0000, 0x160_0000_0000);
            fixed::lemma_fmul_s_in(e as int, t2 as int, 0x41_0000, 0x160_0000_0000);
            assert(((0x41_0000 as int) * (0x160_0000_0000 as int)) / 65536 + 1
                <= 0x6000_0000_0000);
        }
        let t3: i64 = fixed::fmul(e, t2);
        proof {
            lemma_mul76(
                (SCALE as int) - (r0sq as int),
                t3 as int,
                0x1100_8000,
                0x6000_0000_0000,
            );
            lemma_fmul_s_76((SCALE as int) - (r0sq as int), t3 as int);
        }
        r0sq + fixed::fmul(SCALE - r0sq, t3)
    }
}

/// The view of an optional scatter outcome.
pub open spec fn opt_sc_i(o: Option<(Vec3, Ray)>) -> Option<(V3i, RayI)> {
    match o {
        Some(p) => Some((p.0@, p.1@)),
        None => None,
    }
}

/// What scattering computes, as a pure function of the material, the
/// incoming ray, the hit record and the tape of draws: the optional
/// (attenuation, scattered ray) outcome and the new tape position.
pub open spec fn scatter_i(m: Material, r: RayI, rec: HitRecI, t: Seq<i64>, pos: int) -> (
    Option<(V3i, RayI)>,
    int,
) {
    match m {
        Material::Lambertian(l) => {
            let (ruv, p1) = ruv_i(t, pos);
            let d0 = add_i(rec.normal, ruv);
            let dir = if near_zero_s(d0) {
                rec.normal
            } else {
                d0
            };
            (Some((l.albedo@, RayI { orig: rec.p, dir })), p1)
        },
        Material::Metal(mt) => {
            let ud = unit_i(r.dir);
            let refl = reflect_i(ud, rec.normal);
            let (rus, p1) = rius_i(t, pos);
            let dir = add_i(refl, scale_i(mt.fuzz as int, rus));
            if 0 < dot_i(dir, rec.normal) {
                (Some((mt.albedo@, RayI { orig: rec.p, dir })), p1)
            } else {
                (None, p1)
            }
        },
        Material::Dielectric(d) => {
            let s = SCALE as int;
            let ratio = if rec.front_face {
                fdiv_s(s, d.index_of_refraction as int)
            } else {
                d.index_of_refraction as int
            };
            let ud = unit_i(r.dir);
            let c0 = dot_i(neg_i(ud), rec.normal);
            let cos = if c0 > s {
                s
            } else {
                c0
            };
            let cc = fmul_s(cos, cos);
            let kk = if s - cc < 0 {
                0
            } else {
                s - cc
            };
            let sin = sqrt_floor(kk * s);
            let cannot_refract = fmul_s(ratio, sin) > s;
            let dr = draw_at(t, pos);
            let p1 = next_pos(t, pos);
            let dir = if cannot_refract || reflectance_s(cos, ratio) > dr {
                reflect_i(ud, rec.normal)
            } else {
                refract_i(ud, rec.normal, ratio)
            };
            (Some((vi(s, s, s), RayI { orig: rec.p, dir })), p1)
        },
    }
}

impl Material {
    /// Decide whether and how light scatters at a hit: the attenuation per
    /// channel and the scattered ray, or nothing when the ray is absorbed.
    /// Diffuse and dielectric materials always scatter; metal absorbs a
    /// fuzz-perturbed reflection that points into the surface.
    pub fn scatter(&self, ray: &Ray, rec: &HitRecord, s: &mut Sampler) -> (res: Option<
        (Vec3, Ray),
    >)
        requires
            material_ok(*self),
            ray_ok_i(ray@),
            vi_in(rec@.normal, 262144),
            vi_in(rec@.p, 0x2000_0000_0000_0000),
            sampler_ok(*old(s)),
        ensures
            (opt_sc_i(res), final(s).pos as int) == scatter_i(
                *self,
                ray@,
                rec@,
                old(s).tape@,
                old(s).pos as int,
            ),
            final(s).tape@ == old(s).tape@,
            sampler_ok(*final(s)),
            self is Lambertian ==> res is Some,
            self is Dielectric ==> res is Some,
            res matches Some(p) ==> p.1@.orig == rec@.p,
            res matches Some(p) ==> albedo_ok(p.0@),
            res matches Some(p) ==> vi_in(p.1@.dir, 0x1_0000_0000),
    {
        match self {
            Material::Lambertian(l) => {
                let ruv: Vec3 = crate::sampler::random_unit_vector(s);
                let d0: Vec3 = rec.normal.add(ruv);
                let dir: Vec3 = if crate::vec3::near_zero(&d0) {
                    rec.normal
                } else {
                    d0
                };
                Some((l.albedo, Ray::new(rec.p, dir)))
            },
            Material::Metal(mt) => {
                proof {
                    lemma_dot_ok(ray@.dir, ray@.dir, 0x40_0000, 0x40_0000);
                    lemma_unit_bound(ray@.dir);
                }
                let ud: Vec3 = crate::vec3::unit_vector(ray.direction());
                proof {
                    lemma_dot_bound(unit_i(ray@.dir), rec@.normal, 0x2_0000, 0x4_0000);
                    let d = dot_i(unit_i(ray@.dir), rec@.normal);
                    lemma_mul76(2 * d, rec@.normal.x, 0x40_0000, 0x4_0000);
                    lemma_mul76(2 * d, rec@.normal.y, 0x40_0000, 0x4_0000);
                    lemma_mul76(2 * d, rec@.normal.z, 0x40_0000, 0x4_0000);
                    lemma_scale_bound(2 * d, rec@.normal, 0x40_0000, 0x4_0000);
                    assert(((0x40_0000 as int) * (0x4_0000 as int)) / 65536 + 1 <= 0x100_0001);
                }
                let refl: Vec3 = crate::vec3::reflect(ud, rec.normal);
                let rus: Vec3 = crate::sampler::random_in_unit_sphere(s);
                proof {
                    lemma_mul76(mt.fuzz as int, rus@.x, 65536, 65536);
                    lemma_mul76(mt.fuzz as int, rus@.y, 65536, 65536);
                    lemma_mul76(mt.fuzz as int, rus@.z, 65536, 65536);
                    lemma_scale_bound(mt.fuzz as int, rus@, 65536, 65536);
                }
                let dir: Vec3 = refl.add(rus.scale(mt.fuzz));
                proof {
                    assert(vi_in(refl@, 0x120_0002));
                    assert(vi_in(dir@, 0x121_0003));
                    lemma_dot_ok(dir@, rec@.normal, 0x121_0003, 0x4_0000);
                }
                let scattered: Ray = Ray::new(rec.p, dir);
                if dir.dot(rec.normal) > 0 {
                    Some((mt.albedo, scattered))
                } else {
                    None
                }
            },
            Material::Dielectric(d) => {
                proof {
                    fixed::lemma_fdiv_bound(SCALE as int, d.index_of_refraction as int);
                    fixed::lemma_fdiv_divisor_bound(
                        SCALE as int,
                        d.index_of_refraction as int,
                        65536,
                        IR_MIN as int,
                    );
                    lemma_div_is_ordered_by_denominator(
                        (65536 as int) * (65536 as int),
                        d.index_of_refraction as int,
                        IR_MAX as int,
                    );
                    assert(((65536 as int) * (65536 as int)) / (IR_MIN as int) == 0x40_0000);
                    assert(((65536 as int) * (65536 as int)) / (IR_MAX as int) == 1024);
                }
                let ratio: i64 = if rec.front_face {
                    fixed::fdiv(SCALE, d.index_of_refraction)
                } else {
                    d.index_of_refraction
                };
                proof {
                    lemma_dot_ok(ray@.dir, ray@.dir, 0x40_0000, 0x40_0000);
                    lemma_unit_bound(ray@.dir);
                }
                let ud: Vec3 = crate::vec3::unit_vector(ray.direction());
                proof {
                    lemma_dot_ok(neg_i(unit_i(ray@.dir)), rec@.normal, 0x2_0000, 0x4_0000);
                    lemma_dot_bound(neg_i(unit_i(ray@.dir)), rec@.normal, 0x2_0000, 0x4_0000);
                }
                let c0: i64 = ud.neg().dot(rec.normal);
                let cos: i64 = if c0 > SCALE {
                    SCALE
                } else {
                    c0
                };
                proof {
                    lemma_mul76(cos as int, cos as int, 0x40_0000, 0x40_0000);
                    fixed::lemma_fmul_s_in(cos as int, cos as int, 0x40_0000, 0x40_0000);
                    assert(0 <= (cos as int) * (cos as int)) by (nonlinear_arith);
                    lemma_div_is_ordered(0, (cos as int) * (cos as int), SCALE as int);
                }
                let cc: i64 = fixed::fmul(cos, cos);
                let kk: i64 = if SCALE - cc < 0 {
                    0
                } else {
                    SCALE - cc
                };
                let sin: i64 = fixed::fx_sqrt(kk);
                proof {
                    assert(sin as int <= SCALE as int) by (nonlinear_arith)
                        requires
                            0 <= sin,
                            (sin as int) * (sin as int) <= (kk as int) * (SCALE as int),
                            0 <= kk <= SCALE,
                            SCALE == 65536,
                    ;
                    lemma_mul76(ratio as int, sin as int, 0x40_0000, 65536);
                    lemma_fmul_s_76(ratio as int, sin as int);
                }
                let cannot_refract: bool = fixed::fmul(ratio, sin) > SCALE;
                let refl_p: i64 = d.reflectance(cos, ratio);
                let dr: i64 = s.next();
                proof {
                    let du = unit_i(ray@.dir);
                    lemma_dot_bound(du, rec@.normal, 0x2_0000, 0x4_0000);
                    let dd = dot_i(du, rec@.normal);
                    lemma_mul76(2 * dd, rec@.normal.x, 0x40_0000, 0x4_0000);
                    lemma_mul76(2 * dd, rec@.normal.y, 0x40_0000, 0x4_0000);
                    lemma_mul76(2 * dd, rec@.normal.z, 0x40_0000, 0x4_0000);
                    lemma_scale_bound(2 * dd, rec@.normal, 0x40_0000, 0x4_0000);
                }
                let dir: Vec3 = if cannot_refract || refl_p > dr {
                    crate::vec3::reflect(ud, rec.normal)
                } else {
                    crate::vec3::refract(ud, rec.normal, ratio)
                };
                proof {
                    assert(vi_in(reflect_i(unit_i(ray@.dir), rec@.normal), 0x120_0002));
                }
                Some((Vec3::new(SCALE, SCALE, SCALE), Ray::new(rec.p, dir)))
            },
        }
    }
}

} // verus!
