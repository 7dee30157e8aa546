//! Three-component vectors over fixed-point scalars.
//!
//! The mathematical model of a `Vector` is `V3`, a triple of unbounded
//! integers reached through `@`; every operation's contract states its
//! result exactly over that model.

use vstd::prelude::*;
use crate::scalar::SCALE;
use crate::scalar::DEFAULT_EPSILON;
use crate::scalar::iabs;
use crate::scalar::fmul_spec;
use crate::scalar::fdiv_spec;
use crate::scalar::fsqrt_spec;
use crate::scalar::almost_eq_spec;
use crate::scalar::fixed_mul;
use crate::scalar::fixed_div;
use crate::scalar::fixed_sqrt;
use crate::scalar::lemma_fmul_bound;
use crate::scalar::lemma_fmul_self_nonneg;
use crate::scalar::lemma_fsqrt_bracket;
use vstd::arithmetic::div_mod::lemma_div_is_ordered;
use vstd::arithmetic::div_mod::lemma_div_pos_is_pos;

verus! {

/// Largest coordinate magnitude the kernel's contracts admit: 1e4 in value.
pub const MAX_COORD: i64 = 10_000_000_000_000;

/// Mathematical model of a vector: a triple of unbounded integers.
pub struct V3 {
    pub x: int,
    pub y: int,
    pub z: int,
}

#[derive(Clone, Copy, Debug)]
pub struct Vector {
    pub x: i64,
    pub y: i64,
    pub z: i64,
}

impl View for Vector {
    type V = V3;

    open spec fn view(&self) -> V3 {
        V3 { x: self.x as int, y: self.y as int, z: self.z as int }
    }
}

pub open spec fn v3_zero() -> V3 {
    V3 { x: 0, y: 0, z: 0 }
}

pub open spec fn v3_add(a: V3, b: V3) -> V3 {
    V3 { x: a.x + b.x, y: a.y + b.y, z: a.z + b.z }
}

pub open spec fn v3_sub(a: V3, b: V3) -> V3 {
    V3 { x: a.x - b.x, y: a.y - b.y, z: a.z - b.z }
}

pub open spec fn v3_neg(a: V3) -> V3 {
    V3 { x: -a.x, y: -a.y, z: -a.z }
}

pub open spec fn v3_scale(a: V3, s: int) -> V3 {
    V3 { x: fmul_spec(a.x, s), y: fmul_spec(a.y, s), z: fmul_spec(a.z, s) }
}

pub open spec fn v3_div(a: V3, s: int) -> V3 {
    V3 { x: fdiv_spec(a.x, s), y: fdiv_spec(a.y, s), z: fdiv_spec(a.z, s) }
}

pub open spec fn v3_dot(a: V3, b: V3) -> int {
    fmul_spec(a.x, b.x) + fmul_spec(a.y, b.y) + fmul_spec(a.z, b.z)
}

/// Right-handed cross product.
pub open spec fn v3_cross(a: V3, b: V3) -> V3 {
    V3 {
        x: fmul_spec(a.y, b.z) - fmul_spec(a.z, b.y),
        y: fmul_spec(a.z, b.x) - fmul_spec(a.x, b.z),
        z: fmul_spec(a.x, b.y) - fmul_spec(a.y, b.x),
    }
}

/// Euclidean norm, rounded down to a unit.
pub open spec fn v3_len(a: V3) -> int {
    fsqrt_spec(v3_dot(a, a))
}

/// Division of each component by the norm; the identity when the norm is 0.
pub open spec fn v3_normalized(a: V3) -> V3 {
    let l = v3_len(a);
    if l <= 0 {
        a
    } else {
        v3_div(a, l)
    }
}

pub open spec fn v3_almost_eq(a: V3, b: V3, eps: int) -> bool {
    almost_eq_spec(a.x, b.x, eps) && almost_eq_spec(a.y, b.y, eps) && almost_eq_spec(
        a.z,
        b.z,
        eps,
    )
}

/// All coordinates within the kernel's admitted magnitude.
pub open spec fn v3_in_range(a: V3) -> bool {
    &&& iabs(a.x) <= MAX_COORD
    &&& iabs(a.y) <= MAX_COORD
    &&& iabs(a.z) <= MAX_COORD
}

/// All coordinates within one unit of length: what a direction vector holds.
pub open spec fn v3_unit_range(a: V3) -> bool {
    &&& iabs(a.x) <= SCALE
    &&& iabs(a.y) <= SCALE
    &&& iabs(a.z) <= SCALE
}

/// The squares in a dot product of in-range vectors are small.
pub proof fn lemma_dot_in_range(a: V3, b: V3)
    requires
        v3_in_range(a),
        v3_in_range(b),
    ensures
        iabs(fmul_spec(a.x, b.x)) <= 100_000_000_000_000_000,
        iabs(fmul_spec(a.y, b.y)) <= 100_000_000_000_000_000,
        iabs(fmul_spec(a.z, b.z)) <= 100_000_000_000_000_000,
        iabs(v3_dot(a, b)) <= 300_000_000_000_000_000,
{
    lemma_fmul_bound(a.x, b.x, 10_000_000_000_000, 10_000_000_000_000, 100_000_000_000_000_000);
    lemma_fmul_bound(a.y, b.y, 10_000_000_000_000, 10_000_000_000_000, 100_000_000_000_000_000);
    lemma_fmul_bound(a.z, b.z, 10_000_000_000_000, 10_000_000_000_000, 100_000_000_000_000_000);
}

/// A dot product of a vector with itself is non-negative.
pub proof fn lemma_dot_self_nonneg(a: V3)
    ensures
        0 <= v3_dot(a, a),
{
    lemma_fmul_self_nonneg(a.x);
    lemma_fmul_self_nonneg(a.y);
    lemma_fmul_self_nonneg(a.z);
}

/// Each component of a normalized in-range vector fits comfortably in range.
proof fn lemma_norm_component_fits(vx: int, d: int, l: int)
    requires
        iabs(vx) <= MAX_COORD,
        fmul_spec(vx, vx) <= d,
        0 <= d,
        l == fsqrt_spec(d),
        1 <= l,
    ensures
        iabs(fdiv_spec(vx, l)) <= 2_000_000_000_000_000_000,
{
    let s = SCALE as int;
    let m = (iabs(vx) * s) / iabs(l);
    assert(iabs(l) == l);
    lemma_fsqrt_bracket(d);
    lemma_fmul_self_nonneg(vx);
    // vx * vx <= (fmul + 1) * s <= (d + 1) * s <= d * s + s < (l + 1)^2 + s
    assert(vx * vx < (fmul_spec(vx, vx) + 1) * s);
    assert((fmul_spec(vx, vx) + 1) * s <= (d + 1) * s) by (nonlinear_arith)
        requires
            fmul_spec(vx, vx) + 1 <= d + 1,
            s > 0,
    ;
    assert((d + 1) * s == d * s + s) by (nonlinear_arith);
    assert(vx * vx < (l + 1) * (l + 1) + s);
    if iabs(vx) <= 2 * SCALE {
        assert(iabs(vx) * s <= 2 * s * s) by (nonlinear_arith)
            requires
                iabs(vx) <= 2 * s,
                s > 0,
        ;
        lemma_div_pos_is_pos(iabs(vx) * s, l);
        lemma_div_is_ordered(iabs(vx) * s, 2 * s * s, l);
        vstd::arithmetic::div_mod::lemma_div_is_ordered_by_denominator(2 * s * s, 1, l);
        assert((2 * s * s) / 1int == 2 * s * s);
        assert(m <= 2 * s * s);
    } else {
        // large component: l is nearly |vx|, so the quotient is near one
        assert(iabs(vx) * iabs(vx) == vx * vx) by (nonlinear_arith);
        assert((iabs(vx) - 1) * (iabs(vx) - 1) <= vx * vx - s) by (nonlinear_arith)
            requires
                iabs(vx) > 2 * s,
                s == 1_000_000_000,
                iabs(vx) * iabs(vx) == vx * vx,
        ;
        assert((iabs(vx) - 1) * (iabs(vx) - 1) < (l + 1) * (l + 1));
        assert(iabs(vx) - 1 < l + 1) by (nonlinear_arith)
            requires
                (iabs(vx) - 1) * (iabs(vx) - 1) < (l + 1) * (l + 1),
                iabs(vx) - 1 >= 0,
                l + 1 >= 0,
        ;
        assert(iabs(vx) <= l + 1);
        assert(iabs(vx) * s <= (l + 1) * s) by (nonlinear_arith)
            requires
                iabs(vx) <= l + 1,
                s > 0,
        ;
        lemma_div_pos_is_pos(iabs(vx) * s, l);
        lemma_div_is_ordered(iabs(vx) * s, (l + 1) * s, l);
        assert(((l + 1) * s) / l <= 2 * s) by {
            assert((l + 1) * s <= l * (2 * s)) by (nonlinear_arith)
                requires
                    1 <= l,
                    s > 0,
                    s <= l * s,
            ;
            assert(s <= l * s) by (nonlinear_arith)
                requires
                    1 <= l,
                    s > 0,
            ;
            lemma_div_is_ordered((l + 1) * s, l * (2 * s), l);
            vstd::arithmetic::div_mod::lemma_div_multiples_vanish(2 * s, l);
        };
        assert(m <= 2 * s);
        assert(2 * s <= 2_000_000_000_000_000_000);
    }
}

impl Vector {
    /// True iff the two vectors differ by less than the default tolerance
    /// in every component.
    pub fn almost_equal(&self, other: &Vector) -> (r: bool)
        ensures
            r == v3_almost_eq(self@, other@, DEFAULT_EPSILON as int),
    {
        self.almost_equal_with_epsilon(other, DEFAULT_EPSILON)
    }

    /// Independent per-component absolute-difference checks, not a
    /// Euclidean-distance threshold.
    pub fn almost_equal_with_epsilon(&self, other: &Vector, epsilon: i64) -> (r: bool)
        ensures
            r == v3_almost_eq(self@, other@, epsilon as int),
    {
        let dx: i128 = (self.x as i128) - (other.x as i128);
        let dy: i128 = (self.y as i128) - (other.y as i128);
        let dz: i128 = (self.z as i128) - (other.z as i128);
        let e: i128 = epsilon as i128;
        -e < dx && dx < e && -e < dy && dy < e && -e < dz && dz < e
    }

    pub fn zero() -> (r: Vector)
        ensures
            r@ == v3_zero(),
    {
        Vector { x: 0, y: 0, z: 0 }
    }

    pub fn unitx() -> (r: Vector)
        ensures
            r@ == (V3 { x: SCALE as int, y: 0, z: 0 }),
    {
        Vector { x: SCALE, y: 0, z: 0 }
    }

    pub fn unity() -> (r: Vector)
        ensures
            r@ == (V3 { x: 0, y: SCALE as int, z: 0 }),
    {
        Vector { x: 0, y: SCALE, z: 0 }
    }

    pub fn unitz() -> (r: Vector)
        ensures
            r@ == (V3 { x: 0, y: 0, z: SCALE as int }),
    {
        Vector { x: 0, y: 0, z: SCALE }
    }

    /// Componentwise sum.
    pub fn add(&self, other: &Vector) -> (r: Vector)
        requires
            iabs(self@.x + other@.x) <= 0x7fff_ffff_ffff_ffff,
            iabs(self@.y + other@.y) <= 0x7fff_ffff_ffff_ffff,
            iabs(self@.z + other@.z) <= 0x7fff_ffff_ffff_ffff,
        ensures
            r@ == v3_add(self@, other@),
    {
        Vector { x: self.x + other.x, y: self.y + other.y, z: self.z + other.z }
    }

    /// Componentwise difference.
    pub fn sub(&self, other: &Vector) -> (r: Vector)
        requires
            iabs(self@.x - other@.x) <= 0x7fff_ffff_ffff_ffff,
            iabs(self@.y - other@.y) <= 0x7fff_ffff_ffff_ffff,
            iabs(self@.z - other@.z) <= 0x7fff_ffff_ffff_ffff,
        ensures
            r@ == v3_sub(self@, other@),
    {
        Vector { x: self.x - other.x, y: self.y - other.y, z: self.z - other.z }
    }

    /// Multiplication of each component by the scalar `s`.
    pub fn mul(&self, s: i64) -> (r: Vector)
        requires
            iabs(fmul_spec(self@.x, s as int)) <= 0x7fff_ffff_ffff_ffff,
            iabs(fmul_spec(self@.y, s as int)) <= 0x7fff_ffff_ffff_ffff,
            iabs(fmul_spec(self@.z, s as int)) <= 0x7fff_ffff_ffff_ffff,
        ensures
            r@ == v3_scale(self@, s as int),
    {
        Vector { x: fixed_mul(self.x, s), y: fixed_mul(self.y, s), z: fixed_mul(self.z, s) }
    }

    /// Division of each component by the scalar `s`.
    pub fn div(&self, s: i64) -> (r: Vector)
        requires
            s != 0,
            iabs(fdiv_spec(self@.x, s as int)) <= 0x7fff_ffff_ffff_ffff,
            iabs(fdiv_spec(self@.y, s as int)) <= 0x7fff_ffff_ffff_ffff,
            iabs(fdiv_spec(self@.z, s as int)) <= 0x7fff_ffff_ffff_ffff,
        ensures
            r@ == v3_div(self@, s as int),
    {
        Vector { x: fixed_div(self.x, s), y: fixed_div(self.y, s), z: fixed_div(self.z, s) }
    }

    /// Componentwise negation.
    pub fn neg(&self) -> (r: Vector)
        requires
            iabs(self@.x) <= 0x7fff_ffff_ffff_ffff,
            iabs(self@.y) <= 0x7fff_ffff_ffff_ffff,
            iabs(self@.z) <= 0x7fff_ffff_ffff_ffff,
        ensures
            r@ == v3_neg(self@),
    {
        Vector { x: -self.x, y: -self.y, z: -self.z }
    }

    /// Dot product.
    pub fn dot(&self, other: &Vector) -> (r: i64)
        requires
            iabs(fmul_spec(self@.x, other@.x)) <= 0x1fff_ffff_ffff_ffff,
            iabs(fmul_spec(self@.y, other@.y)) <= 0x1fff_ffff_ffff_ffff,
            iabs(fmul_spec(self@.z, other@.z)) <= 0x1fff_ffff_ffff_ffff,
        ensures
            r == v3_dot(self@, other@),
    {
        fixed_mul(self.x, other.x) + fixed_mul(self.y, other.y) + fixed_mul(self.z, other.z)
    }

    /// Right-handed cross product.
    pub fn cross(&self, other: &Vector) -> (r: Vector)
        requires
            iabs(fmul_spec(self@.y, other@.z)) <= 0x1fff_ffff_ffff_ffff,
            iabs(fmul_spec(self@.z, other@.y)) <= 0x1fff_ffff_ffff_ffff,
            iabs(fmul_spec(self@.z, other@.x)) <= 0x1fff_ffff_ffff_ffff,
            iabs(fmul_spec(self@.x, other@.z)) <= 0x1fff_ffff_ffff_ffff,
            iabs(fmul_spec(self@.x, other@.y)) <= 0x1fff_ffff_ffff_ffff,
            iabs(fmul_spec(self@.y, other@.x)) <= 0x1fff_ffff_ffff_ffff,
        ensures
            r@ == v3_cross(self@, other@),
    {
        Vector {
            x: fixed_mul(self.y, other.z) - fixed_mul(self.z, other.y),
            y: fixed_mul(self.z, other.x) - fixed_mul(self.x, other.z),
            z: fixed_mul(self.x, other.y) - fixed_mul(self.y, other.x),
        }
    }

    /// Euclidean norm, rounded down to a unit.
    pub fn len(&self) -> (r: i64)
        requires
            iabs(fmul_spec(self@.x, self@.x)) <= 0x1fff_ffff_ffff_ffff,
            iabs(fmul_spec(self@.y, self@.y)) <= 0x1fff_ffff_ffff_ffff,
            iabs(fmul_spec(self@.z, self@.z)) <= 0x1fff_ffff_ffff_ffff,
        ensures
            r == v3_len(self@),
            0 <= r < 100_000_000_000_000,
    {
        proof {
            lemma_dot_self_nonneg(self@);
        }
        let d = self.dot(self);
        fixed_sqrt(d)
    }

    /// Division by the norm.  The norm must be at least one unit: normalizing
    /// a vector of zero length is a caller error ruled out by contract.
    pub fn normalized(&self) -> (r: Vector)
        requires
            v3_in_range(self@),
            v3_len(self@) >= 1,
        ensures
            r@ == v3_normalized(self@),
    {
        proof {
            lemma_dot_in_range(self@, self@);
            lemma_dot_self_nonneg(self@);
        }
        let l = self.len();
        proof {
            let d = v3_dot(self@, self@);
            lemma_fmul_self_nonneg(self@.x);
            lemma_fmul_self_nonneg(self@.y);
            lemma_fmul_self_nonneg(self@.z);
            lemma_norm_component_fits(self@.x, d, l as int);
            lemma_norm_component_fits(self@.y, d, l as int);
            lemma_norm_component_fits(self@.z, d, l as int);
        }
        self.div(l)
    }
}

} // verus!
