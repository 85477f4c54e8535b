//! Rays: origin plus direction, with the point-at-parameter map.

use vstd::prelude::*;
use crate::vec3::{Vec3, V3i, add_i, scale_i, dot_i, vi_in, mul76_ok, dot_ok, lemma_dot_ok};

verus! {

#[derive(Clone, Copy, PartialEq, Eq, Structural, Debug)]
pub struct Ray {
    pub orig: Vec3,
    pub dir: Vec3,
}

/// Mathematical view of a ray.
pub ghost struct RayI {
    pub orig: V3i,
    pub dir: V3i,
}

impl View for Ray {
    type V = RayI;

    open spec fn view(&self) -> RayI {
        RayI { orig: self.orig@, dir: self.dir@ }
    }
}

/// The point reached after parameter t: origin + t * direction, with the
/// scaling rounded componentwise.
pub open spec fn at_i(r: RayI, t: int) -> V3i {
    add_i(r.orig, scale_i(t, r.dir))
}

/// A ray the tracer accepts: origin within the world bound (8192 in real
/// terms), direction componentwise within 64, and direction of fixed-point
/// squared length at least 256 (about 1/16 in real terms) so that it can be
/// normalized.  The magnitude caps are machine limits of the fixed-point
/// encoding; the positive lower bound is the contract that rays have a
/// non-degenerate direction.
pub open spec fn ray_ok_i(r: RayI) -> bool {
    vi_in(r.orig, 0x2000_0000) && vi_in(r.dir, 0x40_0000) && 256 <= dot_i(r.dir, r.dir)
}

impl Ray {
    pub fn new(orig: Vec3, dir: Vec3) -> (r: Ray)
        ensures
            r@.orig == orig@,
            r@.dir == dir@,
    {
        Ray { orig, dir }
    }

    pub fn origin(&self) -> (r: Vec3)
        ensures
            r@ == self@.orig,
    {
        self.orig
    }

    pub fn direction(&self) -> (r: Vec3)
        ensures
            r@ == self@.dir,
    {
        self.dir
    }

    /// The point reached after parameter t.
    pub fn at(&self, t: i64) -> (r: Vec3)
        requires
            mul76_ok(t as int, self@.dir.x),
            mul76_ok(t as int, self@.dir.y),
            mul76_ok(t as int, self@.dir.z),
            vi_in(self@.orig, 0x2000_0000_0000_0000),
        ensures
            r@ == at_i(self@, t as int),
    {
        self.orig.add(self.dir.scale(t))
    }

    /// Check the bounds that `ray_ok_i` asks of a ray.
    pub fn ray_ok(&self) -> (r: bool)
        ensures
            r == ray_ok_i(self@),
    {
        let ob: bool = self.orig.x <= 0x2000_0000 && self.orig.x >= -0x2000_0000
            && self.orig.y <= 0x2000_0000 && self.orig.y >= -0x2000_0000
            && self.orig.z <= 0x2000_0000 && self.orig.z >= -0x2000_0000;
        let db: bool = self.dir.x <= 0x40_0000 && self.dir.x >= -0x40_0000
            && self.dir.y <= 0x40_0000 && self.dir.y >= -0x40_0000
            && self.dir.z <= 0x40_0000 && self.dir.z >= -0x40_0000;
        if ob && db {
            proof {
                lemma_dot_ok(self@.dir, self@.dir, 0x40_0000, 0x40_0000);
            }
            let q: i64 = self.dir.dot(self.dir);
            q >= 256
        } else {
            false
        }
    }
}

} // verus!
