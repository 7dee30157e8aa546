//! Spheres and ray/sphere intersection.
//!
//! The intersection routine follows the foot-of-perpendicular construction:
//! project the origin-to-center vector onto the ray, split the right
//! triangle with Pythagoras, and step back half a chord to the near hit.
//! `intersect_spec` states the whole computation exactly over the integer
//! model, including every rounded square root.

use vstd::prelude::*;
use crate::scalar::DEFAULT_EPSILON;
use crate::scalar::iabs;
use crate::scalar::fmul_spec;
use crate::scalar::fsqrt_spec;
use crate::scalar::fixed_mul;
use crate::scalar::fixed_sqrt;
use crate::scalar::lemma_fmul_bound;
use crate::scalar::lemma_fmul_self_mono;
use crate::scalar::lemma_fsqrt_le;
use crate::vector::MAX_COORD;
use crate::vector::Vector;
use crate::vector::V3;
use crate::vector::v3_sub;
use crate::vector::v3_add;
use crate::vector::v3_scale;
use crate::vector::v3_dot;
use crate::vector::v3_len;
use crate::vector::v3_almost_eq;
use crate::vector::v3_in_range;
use crate::vector::v3_unit_range;
use crate::vector::lemma_dot_self_nonneg;
use crate::ray::Ray;

verus! {

#[derive(Clone, Copy)]
pub struct Sphere {
    pub center: Vector,
    pub radius: i64,
}

/// Outcome of an intersection query: a miss is an expected, ordinary result,
/// not an error.
#[derive(Debug)]
pub enum Intersection {
    /// The ray does not hit the sphere (also reported when the ray starts
    /// inside or on the sphere, which this kernel does not support).
    Miss,
    /// The ray first touches the sphere at the carried point.
    Hit(Vector),
}

/// The model of an intersection outcome: the hit point, if any.
pub open spec fn intersection_view(i: Intersection) -> Option<V3> {
    match i {
        Intersection::Miss => None,
        Intersection::Hit(v) => Some(v@),
    }
}

/// Whether two outcomes agree within `eps`: both misses, or hits at
/// componentwise almost-equal points.
pub open spec fn intersection_almost_eq(a: Intersection, b: Intersection, eps: int) -> bool {
    match (a, b) {
        (Intersection::Miss, Intersection::Miss) => true,
        (Intersection::Hit(p), Intersection::Hit(q)) => v3_almost_eq(p@, q@, eps),
        _ => false,
    }
}

/// Exact value of the intersection routine on the integer model.
pub open spec fn intersect_spec(center: V3, radius: int, pos: V3, dir: V3) -> Option<V3> {
    let to_center = v3_sub(center, pos);
    let l = v3_len(to_center);
    if l <= radius {
        // the origin is inside or on the sphere: unsupported, report a miss
        None
    } else {
        let tcenter = v3_dot(to_center, dir);
        if tcenter < 0 {
            // the sphere lies behind the ray
            None
        } else {
            let lsq = fmul_spec(l, l);
            let tcsq = fmul_spec(tcenter, tcenter);
            let dsq = if lsq >= tcsq {
                lsq - tcsq
            } else {
                0
            };
            let d = fsqrt_spec(dsq);
            if d > radius {
                // the ray line passes the sphere at more than a radius
                None
            } else {
                let tdelta = fsqrt_spec(fmul_spec(radius, radius) - fmul_spec(d, d));
                let t = tcenter - tdelta;
                Some(v3_add(pos, v3_scale(dir, t)))
            }
        }
    }
}

impl Intersection {
    /// True iff the outcomes agree within the default tolerance.
    pub fn almost_equal(&self, other: &Intersection) -> (r: bool)
        ensures
            r == intersection_almost_eq(*self, *other, DEFAULT_EPSILON as int),
    {
        match self {
            Intersection::Miss => match other {
                Intersection::Miss => true,
                _ => false,
            },
            Intersection::Hit(v1) => match other {
                Intersection::Hit(v2) => v1.almost_equal(v2),
                _ => false,
            },
        }
    }
}

impl Sphere {
    /// The near intersection of `ray` with this sphere, or a miss.  The far
    /// intersection point is never returned; a tangent ray yields the single
    /// touching point.  A ray starting inside or on the sphere reports a
    /// miss, as does a sphere behind the ray's origin.
    pub fn intersect_ray(&self, ray: &Ray) -> (r: Intersection)
        requires
            v3_in_range(self.center@),
            v3_in_range(ray.pos@),
            v3_unit_range(ray.dir@),
            0 <= self.radius <= MAX_COORD,
        ensures
            intersection_view(r) == intersect_spec(
                self.center@,
                self.radius as int,
                ray.pos@,
                ray.dir@,
            ),
    {
        proof {
            assert(iabs(self.center@.x - ray.pos@.x) <= 20_000_000_000_000);
            assert(iabs(self.center@.y - ray.pos@.y) <= 20_000_000_000_000);
            assert(iabs(self.center@.z - ray.pos@.z) <= 20_000_000_000_000);
        }
        let to_center = self.center.sub(&ray.pos);
        proof {
            let tc = to_center@;
            lemma_fmul_bound(tc.x, tc.x, 20_000_000_000_000, 20_000_000_000_000, 400_000_000_000_000_000);
            lemma_fmul_bound(tc.y, tc.y, 20_000_000_000_000, 20_000_000_000_000, 400_000_000_000_000_000);
            lemma_fmul_bound(tc.z, tc.z, 20_000_000_000_000, 20_000_000_000_000, 400_000_000_000_000_000);
            lemma_dot_self_nonneg(tc);
            lemma_fsqrt_le(v3_dot(tc, tc), 1_200_000_000_000_000_000, 34_999_999_999_999);
        }
        let l = to_center.len();
        if l <= self.radius {
            return Intersection::Miss;
        }
        proof {
            let tc = to_center@;
            let dv = ray.dir@;
            lemma_fmul_bound(tc.x, dv.x, 20_000_000_000_000, 1_000_000_000, 20_000_000_000_000);
            lemma_fmul_bound(tc.y, dv.y, 20_000_000_000_000, 1_000_000_000, 20_000_000_000_000);
            lemma_fmul_bound(tc.z, dv.z, 20_000_000_000_000, 1_000_000_000, 20_000_000_000_000);
        }
        let tcenter = to_center.dot(&ray.dir);
        if tcenter < 0 {
            return Intersection::Miss;
        }
        proof {
            lemma_fmul_bound(l as int, l as int, 34_999_999_999_999, 34_999_999_999_999,
                1_224_999_999_999_999_999);
            lemma_fmul_bound(tcenter as int, tcenter as int, 60_000_000_000_000, 60_000_000_000_000,
                3_600_000_000_000_000_000);
        }
        let lsq = fixed_mul(l, l);
        let tcsq = fixed_mul(tcenter, tcenter);
        let dsq: i64 = if lsq >= tcsq {
            lsq - tcsq
        } else {
            0
        };
        proof {
            lemma_fsqrt_le(dsq as int, 1_224_999_999_999_999_999, 34_999_999_999_999);
        }
        let d = fixed_sqrt(dsq);
        if d > self.radius {
            return Intersection::Miss;
        }
        proof {
            lemma_fmul_bound(self.radius as int, self.radius as int, 10_000_000_000_000,
                10_000_000_000_000, 100_000_000_000_000_000);
            lemma_fmul_bound(d as int, d as int, 10_000_000_000_000, 10_000_000_000_000,
                100_000_000_000_000_000);
            lemma_fmul_self_mono(d as int, self.radius as int);
        }
        let rsq = fixed_mul(self.radius, self.radius);
        let ddsq = fixed_mul(d, d);
        proof {
            lemma_fsqrt_le(rsq - ddsq, 100_000_000_000_000_000, 10_000_000_000_000);
        }
        let tdelta = fixed_sqrt(rsq - ddsq);
        let t = tcenter - tdelta;
        proof {
            let dv = ray.dir@;
            lemma_fmul_bound(dv.x, t as int, 1_000_000_000, 70_000_000_000_000, 70_000_000_000_000);
            lemma_fmul_bound(dv.y, t as int, 1_000_000_000, 70_000_000_000_000, 70_000_000_000_000);
            lemma_fmul_bound(dv.z, t as int, 1_000_000_000, 70_000_000_000_000, 70_000_000_000_000);
        }
        let hit = ray.forwarded(t);
        Intersection::Hit(hit.pos)
    }
}

} // verus!
