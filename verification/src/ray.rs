//! Rays: an origin and a direction.

use vstd::prelude::*;
use crate::scalar::DEFAULT_EPSILON;
use crate::scalar::iabs;
use crate::scalar::fmul_spec;
use crate::vector::Vector;
use crate::vector::v3_add;
use crate::vector::v3_scale;
use crate::vector::v3_almost_eq;

verus! {

/// A ray: origin `pos` plus direction `dir`.  Rays handed out by the camera
/// carry a direction of unit length; the type itself places no constraint.
#[derive(Clone, Copy, Debug)]
pub struct Ray {
    pub pos: Vector,
    pub dir: Vector,
}

impl Ray {
    /// The ray translated `distance` along its own direction; the direction
    /// is kept, so this moves the origin and nothing else.
    pub fn forwarded(&self, distance: i64) -> (r: Ray)
        requires
            iabs(fmul_spec(self.dir@.x, distance as int)) <= 0x7fff_ffff_ffff_ffff,
            iabs(fmul_spec(self.dir@.y, distance as int)) <= 0x7fff_ffff_ffff_ffff,
            iabs(fmul_spec(self.dir@.z, distance as int)) <= 0x7fff_ffff_ffff_ffff,
            iabs(self.pos@.x + fmul_spec(self.dir@.x, distance as int)) <= 0x7fff_ffff_ffff_ffff,
            iabs(self.pos@.y + fmul_spec(self.dir@.y, distance as int)) <= 0x7fff_ffff_ffff_ffff,
            iabs(self.pos@.z + fmul_spec(self.dir@.z, distance as int)) <= 0x7fff_ffff_ffff_ffff,
        ensures
            r.pos@ == v3_add(self.pos@, v3_scale(self.dir@, distance as int)),
            r.dir == self.dir,
    {
        Ray { pos: self.pos.add(&self.dir.mul(distance)), dir: self.dir }
    }

    /// True iff origin and direction each match within the default tolerance.
    pub fn almost_equal(&self, other: &Ray) -> (r: bool)
        ensures
            r == (v3_almost_eq(self.pos@, other.pos@, DEFAULT_EPSILON as int) && v3_almost_eq(
                self.dir@,
                other.dir@,
                DEFAULT_EPSILON as int,
            )),
    {
        self.pos.almost_equal(&other.pos) && self.dir.almost_equal(&other.dir)
    }
}

} // verus!
