//! A pinhole camera and its screen-to-ray projection.
//!
//! The virtual screen lies one world unit in front of the camera along
//! `forward`; its width is twice the tangent of half the horizontal field
//! of view.  The tangent is evaluated as a quotient of truncated Taylor
//! polynomials over fixed-point scalars, and `tan_half_spec` states that
//! evaluation exactly, so every later step of the projection is pinned down.

use vstd::prelude::*;
use crate::scalar::SCALE;
use crate::scalar::fmul_spec;
use crate::scalar::fdiv_spec;
use crate::scalar::fixed_mul;
use crate::scalar::fixed_div;
use crate::scalar::posunit_to_unit;
use crate::scalar::lemma_fmul_bound;
use crate::scalar::lemma_fdiv_bound;
use crate::vector::MAX_COORD;
use crate::vector::Vector;
use crate::vector::V3;
use crate::vector::v3_add;
use crate::vector::v3_cross;
use crate::vector::v3_scale;
use crate::vector::v3_div;
use crate::vector::v3_len;
use crate::vector::v3_normalized;
use crate::vector::v3_in_range;
use crate::vector::v3_unit_range;
use crate::ray::Ray;

verus! {

/// An angle in radians, kept as its own type so that call sites cannot
/// confuse it with degrees.
#[derive(Clone, Copy, Debug)]
pub struct Radians(pub i64);

/// Largest field of view the projection accepts, a little over pi radians.
pub const FOVX_LIMIT: i64 = 3_200_000_000;

/// Floor put under the cosine before dividing: guards the quotient against
/// the zero of the cosine at the edge of the admitted field of view.
pub const TAN_DEN_MIN: i64 = 10_000_000;

/// Smallest admitted aspect ratio (width over height): 0.1.
pub const ASPECT_MIN: i64 = 100_000_000;

/// Truncated Taylor polynomial of the sine: terms through the 7th power.
pub open spec fn sin_poly_spec(x: int) -> int {
    let x2 = fmul_spec(x, x);
    let x3 = fmul_spec(x2, x);
    let x5 = fmul_spec(x3, x2);
    let x7 = fmul_spec(x5, x2);
    x - fdiv_spec(x3, 6 * (SCALE as int)) + fdiv_spec(x5, 120 * (SCALE as int)) - fdiv_spec(
        x7,
        5040 * (SCALE as int),
    )
}

/// Truncated Taylor polynomial of the cosine: terms through the 8th power.
pub open spec fn cos_poly_spec(x: int) -> int {
    let x2 = fmul_spec(x, x);
    let x4 = fmul_spec(x2, x2);
    let x6 = fmul_spec(x4, x2);
    let x8 = fmul_spec(x4, x4);
    (SCALE as int) - fdiv_spec(x2, 2 * (SCALE as int)) + fdiv_spec(x4, 24 * (SCALE as int))
        - fdiv_spec(x6, 720 * (SCALE as int)) + fdiv_spec(x8, 40320 * (SCALE as int))
}

/// Tangent of half the angle: sine over cosine of the half angle, with the
/// cosine clamped from below by `TAN_DEN_MIN`.
pub open spec fn tan_half_spec(fovx: int) -> int {
    let h = fdiv_spec(fovx, 2 * (SCALE as int));
    let s = sin_poly_spec(h);
    let c = cos_poly_spec(h);
    let den = if c < TAN_DEN_MIN {
        TAN_DEN_MIN as int
    } else {
        c
    };
    fdiv_spec(s, den)
}

/// The vector from the camera to the looked-at point of the screen plane.
pub open spec fn screen_offset_spec(
    forward: V3,
    up: V3,
    aspect: int,
    fovx: int,
    x: int,
    y: int,
) -> V3 {
    let right = v3_cross(forward, up);
    let xunit = 2 * x - (SCALE as int);
    let yunit = -(2 * y - (SCALE as int));
    let w = 2 * tan_half_spec(fovx);
    let h = fdiv_spec(w, aspect);
    let tx = v3_div(v3_scale(v3_scale(right, xunit), w), 2 * (SCALE as int));
    let ty = v3_div(v3_scale(v3_scale(up, yunit), h), 2 * (SCALE as int));
    v3_add(v3_add(forward, tx), ty)
}

/// Tangent of half the given angle, by the clamped polynomial quotient.
fn tan_half(fovx: i64) -> (r: i64)
    requires
        0 < fovx <= FOVX_LIMIT,
    ensures
        r == tan_half_spec(fovx as int),
        -300_000_000_000 <= r <= 300_000_000_000,
{
    proof {
        lemma_fdiv_bound(fovx as int, 2 * (SCALE as int), 3_200_000_000, 2_000_000_000,
            1_600_000_000);
    }
    let h = fixed_div(fovx, 2 * SCALE);
    proof {
        let hi = h as int;
        lemma_fmul_bound(hi, hi, 1_600_000_000, 1_600_000_000, 2_560_000_000);
    }
    let x2 = fixed_mul(h, h);
    proof {
        lemma_fmul_bound(x2 as int, h as int, 2_560_000_000, 1_600_000_000, 4_096_000_000);
        lemma_fmul_bound(x2 as int, x2 as int, 2_560_000_000, 2_560_000_000, 6_553_600_000);
    }
    let x3 = fixed_mul(x2, h);
    let x4 = fixed_mul(x2, x2);
    proof {
        lemma_fmul_bound(x3 as int, x2 as int, 4_096_000_000, 2_560_000_000, 10_485_760_000);
        lemma_fmul_bound(x4 as int, x2 as int, 6_553_600_000, 2_560_000_000, 16_777_216_000);
        lemma_fmul_bound(x4 as int, x4 as int, 6_553_600_000, 6_553_600_000, 42_949_672_960);
    }
    let x5 = fixed_mul(x3, x2);
    let x6 = fixed_mul(x4, x2);
    let x8 = fixed_mul(x4, x4);
    proof {
        lemma_fmul_bound(x5 as int, x2 as int, 10_485_760_000, 2_560_000_000, 26_843_545_600);
    }
    let x7 = fixed_mul(x5, x2);
    proof {
        lemma_fdiv_bound(x3 as int, 6 * (SCALE as int), 4_096_000_000, 6_000_000_000, 682_666_667);
        lemma_fdiv_bound(x5 as int, 120 * (SCALE as int), 10_485_760_000, 120_000_000_000,
            87_381_334);
        lemma_fdiv_bound(x7 as int, 5040 * (SCALE as int), 26_843_545_600, 5_040_000_000_000,
            5_326_101);
        lemma_fdiv_bound(x2 as int, 2 * (SCALE as int), 2_560_000_000, 2_000_000_000,
            1_280_000_000);
        lemma_fdiv_bound(x4 as int, 24 * (SCALE as int), 6_553_600_000, 24_000_000_000,
            273_066_667);
        lemma_fdiv_bound(x6 as int, 720 * (SCALE as int), 16_777_216_000, 720_000_000_000,
            23_301_689);
        lemma_fdiv_bound(x8 as int, 40320 * (SCALE as int), 42_949_672_960, 40_320_000_000_000,
            1_065_222);
    }
    let s = h - fixed_div(x3, 6 * SCALE) + fixed_div(x5, 120 * SCALE) - fixed_div(
        x7,
        5040 * SCALE,
    );
    let c = SCALE - fixed_div(x2, 2 * SCALE) + fixed_div(x4, 24 * SCALE) - fixed_div(
        x6,
        720 * SCALE,
    ) + fixed_div(x8, 40320 * SCALE);
    let den = if c < TAN_DEN_MIN {
        TAN_DEN_MIN
    } else {
        c
    };
    proof {
        lemma_fdiv_bound(s as int, den as int, 3_000_000_000, 10_000_000, 300_000_000_000);
    }
    fixed_div(s, den)
}

/// A pinhole camera.  `forward` and `up` must be unit vectors orthogonal to
/// each other; that is the caller's responsibility and is reflected in the
/// requirement that the screen offset never degenerates to length zero.
pub struct Camera {
    pub position: Vector,
    pub forward: Vector,
    pub up: Vector,
    pub aspect_ratio: i64,
    pub fovx: Radians,
}

impl Camera {
    /// The ray from the camera through the screen point `(x, y)`, both
    /// coordinates in `[0, 1]`: `(0, 0)` is the top-left corner, `(1, 1)`
    /// the bottom-right, and `(0.5, 0.5)` maps onto the `forward` axis.
    /// Calling it outside that square is a precondition failure.
    pub fn screen_ray(&self, x: i64, y: i64) -> (r: Ray)
        requires
            0 <= x <= SCALE,
            0 <= y <= SCALE,
            v3_in_range(self.position@),
            v3_unit_range(self.forward@),
            v3_unit_range(self.up@),
            ASPECT_MIN <= self.aspect_ratio <= MAX_COORD,
            0 < self.fovx.0 <= FOVX_LIMIT,
            v3_len(
                screen_offset_spec(
                    self.forward@,
                    self.up@,
                    self.aspect_ratio as int,
                    self.fovx.0 as int,
                    x as int,
                    y as int,
                ),
            ) >= 1,
        ensures
            r.pos == self.position,
            r.dir@ == v3_normalized(
                screen_offset_spec(
                    self.forward@,
                    self.up@,
                    self.aspect_ratio as int,
                    self.fovx.0 as int,
                    x as int,
                    y as int,
                ),
            ),
    {
        proof {
            let f = self.forward@;
            let u = self.up@;
            lemma_fmul_bound(f.y, u.z, 1_000_000_000, 1_000_000_000, 1_000_000_000);
            lemma_fmul_bound(f.z, u.y, 1_000_000_000, 1_000_000_000, 1_000_000_000);
            lemma_fmul_bound(f.z, u.x, 1_000_000_000, 1_000_000_000, 1_000_000_000);
            lemma_fmul_bound(f.x, u.z, 1_000_000_000, 1_000_000_000, 1_000_000_000);
            lemma_fmul_bound(f.x, u.y, 1_000_000_000, 1_000_000_000, 1_000_000_000);
            lemma_fmul_bound(f.y, u.x, 1_000_000_000, 1_000_000_000, 1_000_000_000);
        }
        let right = self.forward.cross(&self.up);
        let xunit = posunit_to_unit(x);
        let yunit = -posunit_to_unit(y);
        let w = 2 * tan_half(self.fovx.0);
        proof {
            lemma_fdiv_bound(w as int, self.aspect_ratio as int, 600_000_000_000, 100_000_000,
                6_000_000_000_000);
        }
        let h = fixed_div(w, self.aspect_ratio);
        proof {
            let rv = right@;
            lemma_fmul_bound(rv.x, xunit as int, 2_000_000_000, 1_000_000_000, 2_000_000_000);
            lemma_fmul_bound(rv.y, xunit as int, 2_000_000_000, 1_000_000_000, 2_000_000_000);
            lemma_fmul_bound(rv.z, xunit as int, 2_000_000_000, 1_000_000_000, 2_000_000_000);
        }
        let rx = right.mul(xunit);
        proof {
            let rv = rx@;
            lemma_fmul_bound(rv.x, w as int, 2_000_000_000, 600_000_000_000, 1_200_000_000_000);
            lemma_fmul_bound(rv.y, w as int, 2_000_000_000, 600_000_000_000, 1_200_000_000_000);
            lemma_fmul_bound(rv.z, w as int, 2_000_000_000, 600_000_000_000, 1_200_000_000_000);
        }
        let rxw = rx.mul(w);
        proof {
            let rv = rxw@;
            lemma_fdiv_bound(rv.x, 2 * (SCALE as int), 1_200_000_000_000, 2_000_000_000,
                600_000_000_000);
            lemma_fdiv_bound(rv.y, 2 * (SCALE as int), 1_200_000_000_000, 2_000_000_000,
                600_000_000_000);
            lemma_fdiv_bound(rv.z, 2 * (SCALE as int), 1_200_000_000_000, 2_000_000_000,
                600_000_000_000);
        }
        let tx = rxw.div(2 * SCALE);
        proof {
            let u = self.up@;
            lemma_fmul_bound(u.x, yunit as int, 1_000_000_000, 1_000_000_000, 1_000_000_000);
            lemma_fmul_bound(u.y, yunit as int, 1_000_000_000, 1_000_000_000, 1_000_000_000);
            lemma_fmul_bound(u.z, yunit as int, 1_000_000_000, 1_000_000_000, 1_000_000_000);
        }
        let uy = self.up.mul(yunit);
        proof {
            let uv = uy@;
            lemma_fmul_bound(uv.x, h as int, 1_000_000_000, 6_000_000_000_000, 6_000_000_000_000);
            lemma_fmul_bound(uv.y, h as int, 1_000_000_000, 6_000_000_000_000, 6_000_000_000_000);
            lemma_fmul_bound(uv.z, h as int, 1_000_000_000, 6_000_000_000_000, 6_000_000_000_000);
        }
        let uyh = uy.mul(h);
        proof {
            let uv = uyh@;
            lemma_fdiv_bound(uv.x, 2 * (SCALE as int), 6_000_000_000_000, 2_000_000_000,
                3_000_000_000_000);
            lemma_fdiv_bound(uv.y, 2 * (SCALE as int), 6_000_000_000_000, 2_000_000_000,
                3_000_000_000_000);
            lemma_fdiv_bound(uv.z, 2 * (SCALE as int), 6_000_000_000_000, 2_000_000_000,
                3_000_000_000_000);
        }
        let ty = uyh.div(2 * SCALE);
        let point = self.position.add(&self.forward).add(&tx).add(&ty);
        let offset = point.sub(&self.position);
        proof {
            assert(offset@ == screen_offset_spec(
                self.forward@,
                self.up@,
                self.aspect_ratio as int,
                self.fovx.0 as int,
                x as int,
                y as int,
            ));
        }
        Ray { pos: self.position, dir: offset.normalized() }
    }

    /// Total form of `screen_ray`: refuses, loudly and observably, any
    /// screen coordinate outside `[0, 1]` instead of making it a caller
    /// error.
    pub fn screen_ray_checked(&self, x: i64, y: i64) -> (r: Option<Ray>)
        requires
            v3_in_range(self.position@),
            v3_unit_range(self.forward@),
            v3_unit_range(self.up@),
            ASPECT_MIN <= self.aspect_ratio <= MAX_COORD,
            0 < self.fovx.0 <= FOVX_LIMIT,
            (0 <= x <= SCALE && 0 <= y <= SCALE) ==> v3_len(
                screen_offset_spec(
                    self.forward@,
                    self.up@,
                    self.aspect_ratio as int,
                    self.fovx.0 as int,
                    x as int,
                    y as int,
                ),
            ) >= 1,
        ensures
            match r {
                Some(ray) => {
                    &&& 0 <= x <= SCALE
                    &&& 0 <= y <= SCALE
                    &&& ray.pos == self.position
                    &&& ray.dir@ == v3_normalized(
                        screen_offset_spec(
                            self.forward@,
                            self.up@,
                            self.aspect_ratio as int,
                            self.fovx.0 as int,
                            x as int,
                            y as int,
                        ),
                    )
                },
                None => !(0 <= x <= SCALE && 0 <= y <= SCALE),
            },
    {
        if 0 <= x && x <= SCALE && 0 <= y && y <= SCALE {
            Some(self.screen_ray(x, y))
        } else {
            None
        }
    }
}

} // verus!
