//! Randomness: a seedable generator behind a trusted boundary fills a tape
//! of raw fixed-point draws in [0, 1); everything downstream consumes the
//! tape through `Sampler` and is a pure, fully specified function of it.

use vstd::prelude::*;
use crate::vec3::{Vec3, V3i, vi, dot_i, vi_in, unit_i, lemma_dot_ok, lemma_unit_bound};

verus! {

#[verifier::external_type_specification]
#[verifier::external_body]
pub struct ExStdRng(rand::rngs::StdRng);

/// Relies on rand's SeedableRng::seed_from_u64: builds a generator whose
/// sequence is a function of the seed alone.
#[verifier::external_body]
fn seed_rng(seed: u64) -> rand::rngs::StdRng {
    <rand::rngs::StdRng as rand::SeedableRng>::seed_from_u64(seed)
}

/// Relies on rand's RngExt::random_range over 0..65536: a uniform value in
/// [0, 65536), that is a raw fixed-point draw in [0, 1).
#[verifier::external_body]
fn draw_raw(rng: &mut rand::rngs::StdRng) -> (r: i64)
    ensures
        0 <= r < 65536,
{
    rand::RngExt::random_range(rng, 0i64..65536i64)
}

/// Every entry is a raw fixed-point value in [0, 1).
pub open spec fn tape_ok(t: Seq<i64>) -> bool {
    forall|i: int| 0 <= i < t.len() ==> 0 <= #[trigger] t[i] < 65536
}

/// Fill a tape of n draws from the seeded generator.
pub fn make_tape(seed: u64, n: usize) -> (r: Vec<i64>)
    ensures
        r@.len() == n as int,
        tape_ok(r@),
{
    let mut rng = seed_rng(seed);
    let mut v: Vec<i64> = Vec::new();
    let mut k: usize = 0;
    while k < n
        invariant
            k <= n,
            v@.len() == k as int,
            tape_ok(v@),
        decreases n - k,
    {
        let d: i64 = draw_raw(&mut rng);
        v.push(d);
        k = k + 1;
    }
    v
}

/// The value drawn at a position: the tape entry, or zero past the end.
pub open spec fn draw_at(t: Seq<i64>, pos: int) -> int {
    if 0 <= pos < t.len() {
        t[pos] as int
    } else {
        0
    }
}

/// The position after one draw.
pub open spec fn next_pos(t: Seq<i64>, pos: int) -> int {
    if 0 <= pos < t.len() {
        pos + 1
    } else {
        pos
    }
}

/// A cursor over a tape of draws.  Consuming a draw is deterministic in the
/// tape and the position, which makes every rendering function of this
/// library a pure function of its inputs.
pub struct Sampler {
    pub tape: Vec<i64>,
    pub pos: usize,
}

pub open spec fn sampler_ok(s: Sampler) -> bool {
    tape_ok(s.tape@)
}

impl Sampler {
    pub fn new(tape: Vec<i64>) -> (r: Sampler)
        requires
            tape_ok(tape@),
        ensures
            r.tape == tape,
            r.pos == 0usize,
            sampler_ok(r),
    {
        Sampler { tape, pos: 0 }
    }

    /// The next draw: a raw fixed-point value in [0, 1).
    pub fn next(&mut self) -> (r: i64)
        requires
            sampler_ok(*old(self)),
        ensures
            r == draw_at(old(self).tape@, old(self).pos as int),
            final(self).pos == next_pos(old(self).tape@, old(self).pos as int),
            final(self).tape == old(self).tape,
            sampler_ok(*final(self)),
            0 <= r < 65536,
    {
        if self.pos < self.tape.len() {
            let v: i64 = self.tape[self.pos];
            self.pos = self.pos + 1;
            v
        } else {
            0
        }
    }
}

/// One rejection-sampling attempt chain for a point in the unit sphere:
/// draw three symmetric values in [-1, 1); accept when the fixed-point
/// squared length is below one, else retry, with a fixed fallback of
/// (1/2, 0, 0) after the attempt budget is spent.
pub open spec fn rius_from(t: Seq<i64>, pos: int, attempts: nat) -> (V3i, int)
    decreases attempts,
{
    if attempts == 0 {
        (vi(32768, 0, 0), pos)
    } else {
        let x = 2 * draw_at(t, pos) - 65536;
        let p1 = next_pos(t, pos);
        let y = 2 * draw_at(t, p1) - 65536;
        let p2 = next_pos(t, p1);
        let z = 2 * draw_at(t, p2) - 65536;
        let p3 = next_pos(t, p2);
        let v = vi(x, y, z);
        if dot_i(v, v) < 65536 {
            (v, p3)
        } else {
            rius_from(t, p3, (attempts - 1) as nat)
        }
    }
}

/// The point in the unit sphere drawn at a position, with the new position.
pub open spec fn rius_i(t: Seq<i64>, pos: int) -> (V3i, int) {
    rius_from(t, pos, 16)
}

/// A random point strictly inside the unit sphere.
pub fn random_in_unit_sphere(s: &mut Sampler) -> (r: Vec3)
    requires
        sampler_ok(*old(s)),
    ensures
        (r@, final(s).pos as int) == rius_i(old(s).tape@, old(s).pos as int),
        final(s).tape@ == old(s).tape@,
        sampler_ok(*final(s)),
        dot_i(r@, r@) < 65536,
        vi_in(r@, 65536),
{
    let ghost t = s.tape@;
    let ghost pos0: int = s.pos as int;
    let mut k: usize = 0;
    while k < 16
        invariant
            k <= 16,
            s.tape@ == t,
            t == old(s).tape@,
            pos0 == old(s).pos as int,
            tape_ok(t),
            rius_from(t, s.pos as int, (16 - k) as nat) == rius_i(t, pos0),
        decreases 16 - k,
    {
        let ghost pk: int = s.pos as int;
        let x: i64 = 2 * s.next() - 65536;
        let y: i64 = 2 * s.next() - 65536;
        let z: i64 = 2 * s.next() - 65536;
        let p: Vec3 = Vec3::new(x, y, z);
        proof {
            lemma_dot_ok(p@, p@, 65536, 65536);
        }
        let q: i64 = p.dot(p);
        proof {
            assert(rius_from(t, pk, (16 - k) as nat) == (if dot_i(p@, p@) < 65536 {
                (p@, s.pos as int)
            } else {
                rius_from(t, s.pos as int, (16 - (k + 1)) as nat)
            }));
        }
        if q < 65536 {
            return p;
        }
        k = k + 1;
    }
    proof {
        assert(rius_from(t, s.pos as int, 0) == (vi(32768, 0, 0), s.pos as int));
    }
    proof {
        crate::vec3::lemma_dot_self_nonneg(vi(32768, 0, 0));
        assert(dot_i(vi(32768, 0, 0), vi(32768, 0, 0)) == 16384);
    }
    Vec3::new(32768, 0, 0)
}

/// The unit direction drawn at a position: a point in the unit sphere,
/// normalized; a fixed axis direction stands in when the point is too close
/// to zero to normalize.
pub open spec fn ruv_i(t: Seq<i64>, pos: int) -> (V3i, int) {
    let (p, p1) = rius_i(t, pos);
    if 256 <= dot_i(p, p) {
        (unit_i(p), p1)
    } else {
        (vi(65536, 0, 0), p1)
    }
}

/// A random direction of unit length (up to rounding).
pub fn random_unit_vector(s: &mut Sampler) -> (r: Vec3)
    requires
        sampler_ok(*old(s)),
    ensures
        (r@, final(s).pos as int) == ruv_i(old(s).tape@, old(s).pos as int),
        final(s).tape@ == old(s).tape@,
        sampler_ok(*final(s)),
        vi_in(r@, 65936),
{
    let p: Vec3 = random_in_unit_sphere(s);
    proof {
        lemma_dot_ok(p@, p@, 65536, 65536);
    }
    let q: i64 = p.dot(p);
    if q >= 256 {
        proof {
            lemma_unit_bound(p@);
        }
        crate::vec3::unit_vector(p)
    } else {
        Vec3::new(65536, 0, 0)
    }
}

/// One rejection-sampling attempt chain for a point in the unit disk of the
/// x-y plane, with the disk center as fallback.
pub open spec fn rid_from(t: Seq<i64>, pos: int, attempts: nat) -> (V3i, int)
    decreases attempts,
{
    if attempts == 0 {
        (vi(0, 0, 0), pos)
    } else {
        let x = 2 * draw_at(t, pos) - 65536;
        let p1 = next_pos(t, pos);
        let y = 2 * draw_at(t, p1) - 65536;
        let p2 = next_pos(t, p1);
        let v = vi(x, y, 0);
        if dot_i(v, v) < 65536 {
            (v, p2)
        } else {
            rid_from(t, p2, (attempts - 1) as nat)
        }
    }
}

/// The point in the unit disk drawn at a position, with the new position.
pub open spec fn rid_i(t: Seq<i64>, pos: int) -> (V3i, int) {
    rid_from(t, pos, 16)
}

/// A random point strictly inside the unit disk of the x-y plane.
pub fn random_in_unit_disk(s: &mut Sampler) -> (r: Vec3)
    requires
        sampler_ok(*old(s)),
    ensures
        (r@, final(s).pos as int) == rid_i(old(s).tape@, old(s).pos as int),
        final(s).tape@ == old(s).tape@,
        sampler_ok(*final(s)),
        dot_i(r@, r@) < 65536,
        vi_in(r@, 65536),
        r@.z == 0,
{
    let ghost t = s.tape@;
    let ghost pos0: int = s.pos as int;
    let mut k: usize = 0;
    while k < 16
        invariant
            k <= 16,
            s.tape@ == t,
            t == old(s).tape@,
            pos0 == old(s).pos as int,
            tape_ok(t),
            rid_from(t, s.pos as int, (16 - k) as nat) == rid_i(t, pos0),
        decreases 16 - k,
    {
        let ghost pk: int = s.pos as int;
        let x: i64 = 2 * s.next() - 65536;
        let y: i64 = 2 * s.next() - 65536;
        let p: Vec3 = Vec3::new(x, y, 0);
        proof {
            lemma_dot_ok(p@, p@, 65536, 65536);
        }
        let q: i64 = p.dot(p);
        proof {
            assert(rid_from(t, pk, (16 - k) as nat) == (if dot_i(p@, p@) < 65536 {
                (p@, s.pos as int)
            } else {
                rid_from(t, s.pos as int, (16 - (k + 1)) as nat)
            }));
        }
        if q < 65536 {
            return p;
        }
        k = k + 1;
    }
    proof {
        assert(rid_from(t, s.pos as int, 0) == (vi(0, 0, 0), s.pos as int));
        crate::vec3::lemma_dot_self_nonneg(vi(0, 0, 0));
        assert(dot_i(vi(0, 0, 0), vi(0, 0, 0)) == 0);
    }
    Vec3::new(0, 0, 0)
}

} // verus!
