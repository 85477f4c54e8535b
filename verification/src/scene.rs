//! Procedural scene construction: a ground sphere, a grid of small spheres
//! with randomly chosen materials, and three large feature spheres.

use vstd::prelude::*;
use crate::fixed;
use crate::fixed::{fmul_s, sqrt_floor, SCALE};
use crate::vec3::{Vec3, vi, sub_i, dot_i, vi_in, lemma_dot_ok};
use crate::sphere::Sphere;
use crate::hittable::{Hittable, HittableList, list_ok};
use crate::material::{Material, Lambertian, Metal, Dielectric};
use crate::sampler::{Sampler, sampler_ok, tape_ok, draw_at, next_pos};

verus! {

/// 0.9 in raw fixed point: the sub-cell jitter span of the grid spheres.
pub const JITTER: i64 = 58982;

/// The probability thresholds for the material choice, as raw draws:
/// below MAT_DIFFUSE the sphere is diffuse, below MAT_METAL it is metal,
/// else it is glass.
pub const MAT_DIFFUSE: i64 = 52429;

pub const MAT_METAL: i64 = 62260;

/// The grid sphere of one cell, if its center falls far enough from the
/// feature sphere at (4, 0.2, 0): the material choice and the two jitters
/// are drawn first, the material parameters only for a kept sphere.
pub open spec fn scene_cell_i(t: Seq<i64>, pos: int, a: int, b: int) -> (Option<Sphere>, int) {
    let cm = draw_at(t, pos);
    let p1 = next_pos(t, pos);
    let r1 = draw_at(t, p1);
    let p2 = next_pos(t, p1);
    let r2 = draw_at(t, p2);
    let p3 = next_pos(t, p2);
    let center = vi(a * 65536 + fmul_s(JITTER as int, r1), 13107, b * 65536 + fmul_s(
        JITTER as int,
        r2,
    ));
    let off = sub_i(center, vi(262144, 13107, 0));
    if sqrt_floor(dot_i(off, off) * (SCALE as int)) > JITTER as int {
        if cm < MAT_DIFFUSE as int {
            let c1 = draw_at(t, p3);
            let p4 = next_pos(t, p3);
            let c2 = draw_at(t, p4);
            let p5 = next_pos(t, p4);
            let c3 = draw_at(t, p5);
            let p6 = next_pos(t, p5);
            let albedo = Vec3 {
                x: fmul_s(c1, c1) as i64,
                y: fmul_s(c2, c2) as i64,
                z: fmul_s(c3, c3) as i64,
            };
            (
                Some(
                    Sphere {
                        center: Vec3 { x: center.x as i64, y: 13107, z: center.z as i64 },
                        radius: 13107,
                        material: Material::Lambertian(Lambertian { albedo }),
                    },
                ),
                p6,
            )
        } else if cm < MAT_METAL as int {
            let c1 = draw_at(t, p3);
            let p4 = next_pos(t, p3);
            let c2 = draw_at(t, p4);
            let p5 = next_pos(t, p4);
            let c3 = draw_at(t, p5);
            let p6 = next_pos(t, p5);
            let f = draw_at(t, p6);
            let p7 = next_pos(t, p6);
            let albedo = Vec3 {
                x: (32768 + c1 / 2) as i64,
                y: (32768 + c2 / 2) as i64,
                z: (32768 + c3 / 2) as i64,
            };
            (
                Some(
                    Sphere {
                        center: Vec3 { x: center.x as i64, y: 13107, z: center.z as i64 },
                        radius: 13107,
                        material: Material::Metal(Metal { albedo, fuzz: (f / 2) as i64 }),
                    },
                ),
                p7,
            )
        } else {
            (
                Some(
                    Sphere {
                        center: Vec3 { x: center.x as i64, y: 13107, z: center.z as i64 },
                        radius: 13107,
                        material: Material::Dielectric(Dielectric { index_of_refraction: 98304 }),
                    },
                ),
                p3,
            )
        }
    } else {
        (None, p3)
    }
}

/// The grid spheres of cells m, m+1, ..., 483 in order; cell m covers
/// column m % 22 and row m / 22 of the 22 x 22 grid over [-11, 11).
pub open spec fn scene_cells_from(t: Seq<i64>, pos: int, m: int) -> (Seq<Hittable>, int)
    decreases 484 - m,
{
    if m < 0 || m >= 484 {
        (Seq::empty(), pos)
    } else {
        let a = m / 22 - 11;
        let b = m % 22 - 11;
        let (sp, p1) = scene_cell_i(t, pos, a, b);
        let (rest, p2) = scene_cells_from(t, p1, m + 1);
        (
            (match sp {
                Some(s) => seq![Hittable::Sphere(s)],
                None => Seq::empty(),
            }) + rest,
            p2,
        )
    }
}

pub open spec fn ground_sphere() -> Sphere {
    Sphere {
        center: Vec3 { x: 0, y: -65536000i64, z: -65536i64 },
        radius: 65536000,
        material: Material::Lambertian(
            Lambertian { albedo: Vec3 { x: 32768, y: 32768, z: 32768 } },
        ),
    }
}

pub open spec fn glass_feature() -> Sphere {
    Sphere {
        center: Vec3 { x: 0, y: 65536, z: 0 },
        radius: 65536,
        material: Material::Dielectric(Dielectric { index_of_refraction: 98304 }),
    }
}

pub open spec fn diffuse_feature() -> Sphere {
    Sphere {
        center: Vec3 { x: -262144i64, y: 65536, z: 0 },
        radius: 65536,
        material: Material::Lambertian(
            Lambertian { albedo: Vec3 { x: 26214, y: 13107, z: 6554 } },
        ),
    }
}

pub open spec fn metal_feature() -> Sphere {
    Sphere {
        center: Vec3 { x: 262144, y: 65536, z: 0 },
        radius: 65536,
        material: Material::Metal(
            Metal { albedo: Vec3 { x: 45875, y: 39322, z: 32768 }, fuzz: 0 },
        ),
    }
}

/// The whole procedural scene: the ground sphere, the kept grid spheres in
/// cell order, then the glass, diffuse and metal feature spheres.
pub open spec fn random_scene_i(t: Seq<i64>, pos: int) -> (Seq<Hittable>, int) {
    let (cells, p1) = scene_cells_from(t, pos, 0);
    (
        seq![Hittable::Sphere(ground_sphere())] + cells + seq![
            Hittable::Sphere(glass_feature()),
            Hittable::Sphere(diffuse_feature()),
            Hittable::Sphere(metal_feature()),
        ],
        p1,
    )
}

/// Build the procedural scene from the sampler's draws.
pub fn random_scene(smp: &mut Sampler) -> (w: HittableList)
    requires
        sampler_ok(*old(smp)),
    ensures
        (w.objects@, final(smp).pos as int) == random_scene_i(old(smp).tape@, old(smp).pos as int),
        final(smp).tape@ == old(smp).tape@,
        sampler_ok(*final(smp)),
        list_ok(w.objects@),
{
    let ghost t = smp.tape@;
    let ghost pos0: int = smp.pos as int;
    let mut w: HittableList = HittableList::new();
    w.push(
        Hittable::Sphere(
            Sphere::new(
                Vec3::new(0, -65536000, -65536),
                65536000,
                Material::Lambertian(Lambertian::new(Vec3::new(32768, 32768, 32768))),
            ),
        ),
    );
    let ghost pcells: int = smp.pos as int;
    proof {
        assert(w.objects@.skip(1) =~= Seq::<Hittable>::empty());
        assert(w.objects@.skip(1) + scene_cells_from(t, pcells, 0).0 =~= scene_cells_from(
            t,
            pcells,
            0,
        ).0);
    }
    let mut m: u32 = 0;
    while m < 484
        invariant
            m <= 484,
            smp.tape@ == t,
            t == old(smp).tape@,
            pos0 == old(smp).pos as int,
            pcells == pos0,
            tape_ok(t),
            list_ok(w.objects@),
            w.objects@.len() >= 1,
            w.objects@[0] == Hittable::Sphere(ground_sphere()),
            scene_cells_from(t, pcells, 0) == (
                w.objects@.skip(1) + scene_cells_from(t, smp.pos as int, m as int).0,
                scene_cells_from(t, smp.pos as int, m as int).1,
            ),
        decreases 484 - m,
    {
        let a: i64 = (m / 22) as i64 - 11;
        let b: i64 = (m % 22) as i64 - 11;
        let ghost pm: int = smp.pos as int;
        let ghost prev = w.objects@;
        let cm: i64 = smp.next();
        let r1: i64 = smp.next();
        let r2: i64 = smp.next();
        proof {
            crate::vec3::lemma_mul76(JITTER as int, r1 as int, 65536, 65536);
            crate::vec3::lemma_mul76(JITTER as int, r2 as int, 65536, 65536);
            fixed::lemma_fmul_s_in(JITTER as int, r1 as int, 65536, 65536);
            fixed::lemma_fmul_s_in(JITTER as int, r2 as int, 65536, 65536);
        }
        let cx: i64 = a * 65536 + fixed::fmul(JITTER, r1);
        let cz: i64 = b * 65536 + fixed::fmul(JITTER, r2);
        let center: Vec3 = Vec3::new(cx, 13107, cz);
        let off: Vec3 = center.sub(Vec3::new(262144, 13107, 0));
        proof {
            lemma_dot_ok(off@, off@, 0x10_0000, 0x10_0000);
            crate::vec3::lemma_dot_self_nonneg(off@);
        }
        let q: i64 = off.dot(off);
        let len: i64 = fixed::fx_sqrt(q);
        if len > JITTER {
            if cm < MAT_DIFFUSE {
                let c1: i64 = smp.next();
                let c2: i64 = smp.next();
                let c3: i64 = smp.next();
                proof {
                    crate::vec3::lemma_mul76(c1 as int, c1 as int, 65536, 65536);
                    crate::vec3::lemma_mul76(c2 as int, c2 as int, 65536, 65536);
                    crate::vec3::lemma_mul76(c3 as int, c3 as int, 65536, 65536);
                    fixed::lemma_fmul_s_in(c1 as int, c1 as int, 65536, 65536);
                    fixed::lemma_fmul_s_in(c2 as int, c2 as int, 65536, 65536);
                    fixed::lemma_fmul_s_in(c3 as int, c3 as int, 65536, 65536);
                    vstd::arithmetic::div_mod::lemma_div_is_ordered(
                        0,
                        (c1 as int) * (c1 as int),
                        SCALE as int,
                    );
                    vstd::arithmetic::div_mod::lemma_div_is_ordered(
                        0,
                        (c2 as int) * (c2 as int),
                        SCALE as int,
                    );
                    vstd::arithmetic::div_mod::lemma_div_is_ordered(
                        0,
                        (c3 as int) * (c3 as int),
                        SCALE as int,
                    );
                }
                let albedo: Vec3 = Vec3::new(
                    fixed::fmul(c1, c1),
                    fixed::fmul(c2, c2),
                    fixed::fmul(c3, c3),
                );
                w.push(
                    Hittable::Sphere(
                        Sphere::new(
                            center,
                            13107,
                            Material::Lambertian(Lambertian::new(albedo)),
                        ),
                    ),
                );
            } else if cm < MAT_METAL {
                let c1: i64 = smp.next();
                let c2: i64 = smp.next();
                let c3: i64 = smp.next();
                let f: i64 = smp.next();
                let albedo: Vec3 = Vec3::new(
                    32768 + fixed::idiv(c1, 2),
                    32768 + fixed::idiv(c2, 2),
                    32768 + fixed::idiv(c3, 2),
                );
                proof {
                    vstd::arithmetic::div_mod::lemma_div_is_ordered(0, c1 as int, 2);
                    vstd::arithmetic::div_mod::lemma_div_is_ordered(0, c2 as int, 2);
                    vstd::arithmetic::div_mod::lemma_div_is_ordered(0, c3 as int, 2);
                    vstd::arithmetic::div_mod::lemma_div_is_ordered(0, f as int, 2);
                    vstd::arithmetic::div_mod::lemma_div_is_ordered(c1 as int, 65535, 2);
                    vstd::arithmetic::div_mod::lemma_div_is_ordered(c2 as int, 65535, 2);
                    vstd::arithmetic::div_mod::lemma_div_is_ordered(c3 as int, 65535, 2);
                    vstd::arithmetic::div_mod::lemma_div_is_ordered(f as int, 65535, 2);
                }
                let fuzz: i64 = fixed::idiv(f, 2);
                w.push(
                    Hittable::Sphere(
                        Sphere::new(center, 13107, Material::Metal(Metal::new(albedo, fuzz))),
                    ),
                );
            } else {
                w.push(
                    Hittable::Sphere(
                        Sphere::new(center, 13107, Material::Dielectric(Dielectric::new(98304))),
                    ),
                );
            }
        }
        proof {
            assert(scene_cells_from(t, pm, m as int) == (
                (match scene_cell_i(t, pm, a as int, b as int).0 {
                    Some(s) => seq![Hittable::Sphere(s)],
                    None => Seq::<Hittable>::empty(),
                }) + scene_cells_from(t, smp.pos as int, m as int + 1).0,
                scene_cells_from(t, smp.pos as int, m as int + 1).1,
            ));
            assert(w.objects@.skip(1) =~= prev.skip(1) + (
            match scene_cell_i(t, pm, a as int, b as int).0 {
                Some(s) => seq![Hittable::Sphere(s)],
                None => Seq::<Hittable>::empty(),
            }));
        }
        m = m + 1;
    }
    w.push(Hittable::Sphere(Sphere::new(Vec3::new(0, 65536, 0), 65536, Material::Dielectric(
        Dielectric::new(98304),
    ))));
    w.push(Hittable::Sphere(Sphere::new(Vec3::new(-262144, 65536, 0), 65536,
        Material::Lambertian(Lambertian::new(Vec3::new(26214, 13107, 6554))),
    )));
    w.push(Hittable::Sphere(Sphere::new(Vec3::new(262144, 65536, 0), 65536, Material::Metal(
        Metal::new(Vec3::new(45875, 39322, 32768), 0),
    ))));
    proof {
        assert(w.objects@ =~= seq![Hittable::Sphere(ground_sphere())] + scene_cells_from(
            t,
            pcells,
            0,
        ).0 + seq![
            Hittable::Sphere(glass_feature()),
            Hittable::Sphere(diffuse_feature()),
            Hittable::Sphere(metal_feature()),
        ]);
    }
    w
}

} // verus!
