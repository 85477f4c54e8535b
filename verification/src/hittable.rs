//! Hit records and the geometry capability: a closed sum over the concrete
//! shapes, and the aggregate that reports the globally nearest hit.

use vstd::prelude::*;
use crate::vec3::{Vec3, V3i, dot_i, neg_i, vi_in, dot_ok};
use crate::ray::{Ray, RayI, ray_ok_i};
use crate::material::{Material, material_ok};
use crate::sphere::{Sphere, sphere_ok, sphere_hit_i, T_CAP};
use crate::fixed::SCALE;
use vstd::arithmetic::div_mod::lemma_fundamental_div_mod;

verus! {

/// The result of a ray-geometry intersection at the nearest valid parameter.
#[derive(Clone, Copy, PartialEq, Eq, Structural, Debug)]
pub struct HitRecord {
    pub p: Vec3,
    pub normal: Vec3,
    pub t: i64,
    pub front_face: bool,
    pub material: Material,
}

/// Mathematical view of a hit record.
pub ghost struct HitRecI {
    pub p: V3i,
    pub normal: V3i,
    pub t: int,
    pub front_face: bool,
    pub material: Material,
}

impl View for HitRecord {
    type V = HitRecI;

    open spec fn view(&self) -> HitRecI {
        HitRecI {
            p: self.p@,
            normal: self.normal@,
            t: self.t as int,
            front_face: self.front_face,
            material: self.material,
        }
    }
}

/// The stored normal: the outward normal if it opposes the ray direction,
/// else its negation.
pub open spec fn face_normal_i(dir: V3i, outward: V3i) -> V3i {
    if dot_i(dir, outward) < 0 {
        outward
    } else {
        neg_i(outward)
    }
}

/// Negating one side of a fixed-point dot product flips its sign up to
/// rounding: the result lies in [-dot - 3, -dot].
pub proof fn lemma_dot_neg(a: V3i, b: V3i)
    ensures
        -dot_i(a, b) - 3 <= dot_i(a, neg_i(b)) <= -dot_i(a, b),
{
    lemma_dot_neg_comp(a.x, b.x);
    lemma_dot_neg_comp(a.y, b.y);
    lemma_dot_neg_comp(a.z, b.z);
}

proof fn lemma_dot_neg_comp(x: int, y: int)
    ensures
        -((x * y) / (SCALE as int)) - 1 <= (x * (-y)) / (SCALE as int) <= -((x * y) / (
        SCALE as int)),
{
    let s = SCALE as int;
    let p = x * y;
    assert(x * (-y) == -p) by (nonlinear_arith)
        requires
            p == x * y,
    ;
    lemma_fundamental_div_mod(p, s);
    let q = p / s;
    let r = p % s;
    if r == 0 {
        assert(-p == s * (-q) + 0) by (nonlinear_arith)
            requires
                p == s * q,
        ;
        vstd::arithmetic::div_mod::lemma_fundamental_div_mod_converse(-p, s, -q, 0);
    } else {
        assert(-p == s * (-q - 1) + (s - r)) by (nonlinear_arith)
            requires
                p == s * q + r,
        ;
        vstd::arithmetic::div_mod::lemma_fundamental_div_mod_converse(-p, s, -q - 1, s - r);
    }
}

/// Front-face orientation: the stored normal never points along the ray.
/// This holds exactly, rounding included.
pub proof fn lemma_face_normal_opposes(dir: V3i, outward: V3i)
    ensures
        dot_i(dir, face_normal_i(dir, outward)) <= 0,
{
    if dot_i(dir, outward) < 0 {
    } else {
        lemma_dot_neg(dir, outward);
    }
}

impl HitRecord {
    /// Orient the stored normal against the incoming ray.
    pub fn set_face_normal(&mut self, r: &Ray, outward_normal: Vec3)
        requires
            dot_ok(r@.dir, outward_normal@),
            vi_in(outward_normal@, 0x4000_0000_0000_0000),
        ensures
            final(self).front_face == (dot_i(r@.dir, outward_normal@) < 0),
            final(self).normal@ == face_normal_i(r@.dir, outward_normal@),
            dot_i(r@.dir, final(self).normal@) <= 0,
            final(self).p == old(self).p,
            final(self).t == old(self).t,
            final(self).material == old(self).material,
    {
        let d: i64 = r.direction().dot(outward_normal);
        self.front_face = d < 0;
        self.normal = if self.front_face {
            outward_normal
        } else {
            outward_normal.neg()
        };
        proof {
            lemma_face_normal_opposes(r@.dir, outward_normal@);
        }
    }
}

/// The geometry capability: a closed sum over the concrete shapes.
#[derive(Clone, Copy, PartialEq, Eq, Structural, Debug)]
pub enum Hittable {
    Sphere(Sphere),
}

pub open spec fn hittable_ok(h: Hittable) -> bool {
    match h {
        Hittable::Sphere(s) => sphere_ok(s),
    }
}

pub open spec fn hittable_hit_i(h: Hittable, r: RayI, t_min: int, t_max: int) -> Option<
    HitRecI,
> {
    match h {
        Hittable::Sphere(s) => sphere_hit_i(s, r, t_min, t_max),
    }
}

impl Hittable {
    /// Report the nearest intersection in [t_min, t_max], if any.
    pub fn hit(&self, ray: &Ray, t_min: i64, t_max: i64) -> (res: Option<HitRecord>)
        requires
            hittable_ok(*self),
            ray_ok_i(ray@),
            0 <= t_min <= t_max <= T_CAP,
        ensures
            (res is Some) == (hittable_hit_i(*self, ray@, t_min as int, t_max as int) is Some),
            res matches Some(h) ==> Some(h@) == hittable_hit_i(
                *self,
                ray@,
                t_min as int,
                t_max as int,
            ),
            res matches Some(h) ==> t_min <= h.t <= t_max,
            res matches Some(h) ==> dot_i(ray@.dir, h@.normal) <= 0,
            res matches Some(h) ==> material_ok(h.material),
            res matches Some(h) ==> vi_in(h@.p, 0x800_0000_0000),
            res matches Some(h) ==> vi_in(h@.normal, 0x8_0000_0000_0000),
    {
        match self {
            Hittable::Sphere(s) => s.hit(ray, t_min, t_max),
        }
    }
}

/// The view of an optional hit record.
pub open spec fn opt_rec_i(o: Option<HitRecord>) -> Option<HitRecI> {
    match o {
        Some(h) => Some(h@),
        None => None,
    }
}

/// Left fold of the aggregate search: objects before index i have been
/// examined and `best` is the nearest hit among them; the upper bound of the
/// parameter interval shrinks to the best parameter found so far.
pub open spec fn scene_hit_from(
    objs: Seq<Hittable>,
    r: RayI,
    t_min: int,
    t_max: int,
    i: int,
    best: Option<HitRecI>,
) -> Option<HitRecI>
    decreases objs.len() - i,
{
    if i < 0 || i >= objs.len() {
        best
    } else {
        let cur_max = match best {
            Some(b) => b.t,
            None => t_max,
        };
        match hittable_hit_i(objs[i], r, t_min, cur_max) {
            Some(h) => scene_hit_from(objs, r, t_min, t_max, i + 1, Some(h)),
            None => scene_hit_from(objs, r, t_min, t_max, i + 1, best),
        }
    }
}

/// The aggregate query: the intersection with the globally smallest
/// admissible parameter among all objects, if any.
pub open spec fn scene_hit_i(objs: Seq<Hittable>, r: RayI, t_min: int, t_max: int) -> Option<
    HitRecI,
> {
    scene_hit_from(objs, r, t_min, t_max, 0, None)
}

pub open spec fn list_ok(objs: Seq<Hittable>) -> bool {
    forall|i: int| 0 <= i < objs.len() ==> hittable_ok(#[trigger] objs[i])
}

/// Shrinking the upper end of the parameter interval keeps a reported root
/// iff it still lies inside: the root does not change, it can only drop out.
proof fn lemma_sphere_root_shrink(
    s: Sphere,
    r: RayI,
    t_min: int,
    t_max: int,
    tmax2: int,
    t: int,
)
    requires
        crate::sphere::sphere_root_i(s, r, t_min, t_max) == Some(t),
        t_min <= tmax2 <= t_max,
        256 <= dot_i(r.dir, r.dir),
    ensures
        t <= tmax2 ==> crate::sphere::sphere_root_i(s, r, t_min, tmax2) == Some(t),
        t > tmax2 ==> crate::sphere::sphere_root_i(s, r, t_min, tmax2) is None,
{
    let oc = crate::vec3::sub_i(r.orig, s.center@);
    let a = dot_i(r.dir, r.dir);
    let half_b = dot_i(oc, r.dir);
    let c = dot_i(oc, oc) - crate::fixed::fmul_s(s.radius as int, s.radius as int);
    let disc = crate::fixed::fmul_s(half_b, half_b) - crate::fixed::fmul_s(a, c);
    assert(disc >= 0);
    assert(0 <= disc * (SCALE as int)) by (nonlinear_arith)
        requires
            0 <= disc,
    ;
    crate::fixed::lemma_sqrt_floor(disc * (SCALE as int));
    let sqrtd = crate::fixed::sqrt_floor(disc * (SCALE as int));
    assert(0 <= sqrtd);
    vstd::arithmetic::div_mod::lemma_div_is_ordered(
        (-half_b - sqrtd) * (SCALE as int),
        (-half_b + sqrtd) * (SCALE as int),
        a,
    );
}

/// Nearest-hit law of the aggregate: a scene of exactly two spheres, both
/// intersected by the ray within [t_min, t_max] at parameters t1 and t2,
/// reports the hit with the smaller parameter.
pub proof fn lemma_nearest_of_two(
    s1: Sphere,
    s2: Sphere,
    r: RayI,
    t_min: int,
    t_max: int,
    t1: int,
    t2: int,
    objs: Seq<Hittable>,
)
    requires
        objs.len() == 2,
        objs[0] == Hittable::Sphere(s1),
        objs[1] == Hittable::Sphere(s2),
        crate::sphere::sphere_root_i(s1, r, t_min, t_max) == Some(t1),
        crate::sphere::sphere_root_i(s2, r, t_min, t_max) == Some(t2),
        256 <= dot_i(r.dir, r.dir),
    ensures
        t2 <= t1 ==> scene_hit_i(objs, r, t_min, t_max) == Some(
            crate::sphere::sphere_rec_i(s2, r, t2),
        ),
        t1 < t2 ==> scene_hit_i(objs, r, t_min, t_max) == Some(
            crate::sphere::sphere_rec_i(s1, r, t1),
        ),
{
    let rec1 = crate::sphere::sphere_rec_i(s1, r, t1);
    assert(rec1.t == t1);
    assert(t_min <= t1 <= t_max);
    assert(scene_hit_i(objs, r, t_min, t_max) == scene_hit_from(
        objs,
        r,
        t_min,
        t_max,
        1,
        Some(rec1),
    ));
    lemma_sphere_root_shrink(s2, r, t_min, t_max, t1, t2);
    if t2 <= t1 {
        let rec2 = crate::sphere::sphere_rec_i(s2, r, t2);
        assert(scene_hit_from(objs, r, t_min, t_max, 1, Some(rec1)) == scene_hit_from(
            objs,
            r,
            t_min,
            t_max,
            2,
            Some(rec2),
        ));
    } else {
        assert(scene_hit_from(objs, r, t_min, t_max, 1, Some(rec1)) == scene_hit_from(
            objs,
            r,
            t_min,
            t_max,
            2,
            Some(rec1),
        ));
    }
}

/// The scene: a growable collection of objects, searched linearly.
pub struct HittableList {
    pub objects: Vec<Hittable>,
}

impl HittableList {
    pub fn new() -> (r: HittableList)
        ensures
            r.objects@ =~= Seq::<Hittable>::empty(),
    {
        HittableList { objects: Vec::new() }
    }

    /// Append an object to the scene.
    pub fn push(&mut self, obj: Hittable)
        ensures
            final(self).objects@ =~= old(self).objects@.push(obj),
    {
        self.objects.push(obj);
    }

    /// Report the intersection with the smallest admissible parameter in
    /// [t_min, t_max] over all objects, if any: the nearest surface wins.
    pub fn hit(&self, ray: &Ray, t_min: i64, t_max: i64) -> (res: Option<HitRecord>)
        requires
            list_ok(self.objects@),
            ray_ok_i(ray@),
            0 <= t_min <= t_max <= T_CAP,
        ensures
            opt_rec_i(res) == scene_hit_i(self.objects@, ray@, t_min as int, t_max as int),
            res matches Some(h) ==> t_min <= h.t <= t_max,
            res matches Some(h) ==> dot_i(ray@.dir, h@.normal) <= 0,
            res matches Some(h) ==> material_ok(h.material),
            res matches Some(h) ==> vi_in(h@.p, 0x800_0000_0000),
            res matches Some(h) ==> vi_in(h@.normal, 0x8_0000_0000_0000),
    {
        let ghost objs = self.objects@;
        let ghost g_t_min: int = t_min as int;
        let ghost g_t_max: int = t_max as int;
        let mut best: Option<HitRecord> = None;
        let mut closest: i64 = t_max;
        let mut i: usize = 0;
        while i < self.objects.len()
            invariant
                0 <= i <= self.objects.len(),
                objs == self.objects@,
                list_ok(objs),
                ray_ok_i(ray@),
                0 <= g_t_min <= g_t_max <= T_CAP,
                g_t_min == t_min as int,
                g_t_max == t_max as int,
                match best {
                    Some(b) => closest == b.t && g_t_min <= b.t <= g_t_max && dot_i(
                        ray@.dir,
                        b@.normal,
                    ) <= 0 && material_ok(b.material) && vi_in(b@.p, 0x800_0000_0000) && vi_in(
                        b@.normal,
                        0x8_0000_0000_0000,
                    ),
                    None => closest == t_max,
                },
                g_t_min <= closest <= g_t_max,
                scene_hit_from(objs, ray@, g_t_min, g_t_max, i as int, opt_rec_i(best))
                    == scene_hit_i(objs, ray@, g_t_min, g_t_max),
            decreases self.objects.len() - i,
        {
            let obj: &Hittable = &self.objects[i];
            let cand: Option<HitRecord> = obj.hit(ray, t_min, closest);
            proof {
                assert(scene_hit_from(objs, ray@, g_t_min, g_t_max, i as int, opt_rec_i(best))
                    == (match hittable_hit_i(objs[i as int], ray@, g_t_min, closest as int) {
                    Some(h) => scene_hit_from(objs, ray@, g_t_min, g_t_max, i + 1, Some(h)),
                    None => scene_hit_from(objs, ray@, g_t_min, g_t_max, i + 1, opt_rec_i(best)),
                }));
            }
            match cand {
                Some(rec) => {
                    closest = rec.t;
                    best = Some(rec);
                },
                None => {},
            }
            i = i + 1;
        }
        best
    }
}

} // verus!
