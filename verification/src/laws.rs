//! General laws of the kernel, each stated over the mathematical model and
//! proved once for every admitted input.

use vstd::prelude::*;
use crate::scalar::SCALE;
use crate::scalar::DEFAULT_EPSILON;
use crate::scalar::iabs;
use crate::scalar::fmul_spec;
use crate::scalar::fdiv_spec;
use crate::scalar::almost_eq_spec;
use crate::scalar::lemma_fmul_comm;
use crate::scalar::lemma_fmul_zero;
use crate::scalar::lemma_fdiv_zero;
use crate::scalar::lemma_fmul_self_nonneg;
use crate::scalar::lemma_fsqrt_bracket;
use crate::vector::V3;
use crate::vector::v3_zero;
use crate::vector::v3_add;
use crate::vector::v3_neg;
use crate::vector::v3_dot;
use crate::vector::v3_cross;
use crate::vector::v3_scale;
use crate::vector::v3_div;
use crate::vector::v3_almost_eq;
use crate::vector::v3_in_range;
use crate::vector::v3_len;
use crate::vector::v3_normalized;
use crate::vector::lemma_dot_self_nonneg;
use crate::scalar::lemma_fmul_bound;
use crate::scalar::lemma_fdiv_bound;
use crate::scalar::lemma_fsqrt_ge;
use crate::vector::MAX_COORD;
use crate::vector::v3_unit_range;
use crate::camera::screen_offset_spec;
use crate::camera::tan_half_spec;
use crate::camera::sin_poly_spec;
use crate::camera::cos_poly_spec;
use crate::camera::FOVX_LIMIT;
use crate::camera::TAN_DEN_MIN;
use crate::camera::ASPECT_MIN;
use vstd::arithmetic::div_mod::lemma_fundamental_div_mod;
use vstd::arithmetic::div_mod::lemma_mod_bound;
use vstd::arithmetic::div_mod::lemma_div_pos_is_pos;

verus! {

/// Every vector is almost equal to itself, under any positive tolerance.
pub proof fn lemma_almost_equal_refl(a: V3, eps: int)
    requires
        eps > 0,
    ensures
        v3_almost_eq(a, a, eps),
{
}

/// The dot product is symmetric: `dot(a, b) == dot(b, a)`, exactly.
pub proof fn lemma_dot_symmetric(a: V3, b: V3)
    ensures
        v3_dot(a, b) == v3_dot(b, a),
{
    lemma_fmul_comm(a.x, b.x);
    lemma_fmul_comm(a.y, b.y);
    lemma_fmul_comm(a.z, b.z);
}

/// The cross product is antisymmetric: `cross(a, b) == -cross(b, a)`,
/// exactly, not merely within a tolerance.
pub proof fn lemma_cross_antisymmetric(a: V3, b: V3)
    ensures
        v3_cross(a, b) == v3_neg(v3_cross(b, a)),
{
    lemma_fmul_comm(a.y, b.z);
    lemma_fmul_comm(a.z, b.y);
    lemma_fmul_comm(a.z, b.x);
    lemma_fmul_comm(a.x, b.z);
    lemma_fmul_comm(a.x, b.y);
    lemma_fmul_comm(a.y, b.x);
}

/// A vector plus its negation is exactly the zero vector, and therefore
/// almost equal to it under any positive tolerance.
pub proof fn lemma_add_neg_zero(a: V3, eps: int)
    requires
        eps > 0,
    ensures
        v3_add(a, v3_neg(a)) == v3_zero(),
        v3_almost_eq(v3_add(a, v3_neg(a)), v3_zero(), eps),
{
}

/// The center of the screen looks along the forward axis: at coordinates
/// `(0.5, 0.5)` the screen offset is the forward vector itself, so the
/// resulting ray direction is the normalized forward vector.
pub proof fn lemma_screen_ray_center(forward: V3, up: V3, aspect: int, fovx: int)
    ensures
        screen_offset_spec(forward, up, aspect, fovx, (SCALE as int) / 2, (SCALE as int) / 2)
            == forward,
{
    let s = SCALE as int;
    let right = v3_cross(forward, up);
    let xunit = 2 * (s / 2) - s;
    assert(xunit == 0);
    let w = 2 * tan_half_spec(fovx);
    let h = fdiv_spec(w, aspect);
    lemma_fmul_zero(right.x);
    lemma_fmul_zero(right.y);
    lemma_fmul_zero(right.z);
    lemma_fmul_zero(up.x);
    lemma_fmul_zero(up.y);
    lemma_fmul_zero(up.z);
    lemma_fmul_zero(w);
    lemma_fmul_zero(h);
    assert(v3_scale(right, 0) == v3_zero());
    assert(v3_scale(v3_scale(right, 0), w) == v3_zero());
    assert(v3_scale(v3_scale(up, 0), h) == v3_zero());
    lemma_fdiv_zero(2 * s);
    assert(v3_div(v3_zero(), 2 * s) == v3_zero());
}

/// The square of the magnitude is the square.
proof fn lemma_abs_sq(a: int)
    ensures
        iabs(a) * iabs(a) == a * a,
{
    let m = iabs(a);
    if a < 0 {
        assert(m * m == a * a) by (nonlinear_arith)
            requires
                m == -a,
        ;
    }
}

/// Distribution of a product over a three-term sum.
proof fn lemma_distrib3(a: int, b: int, c: int, k: int)
    ensures
        (a + b + c) * k == a * k + b * k + c * k,
{
    assert((a + b + c) * k == a * k + b * k + c * k) by (nonlinear_arith);
}

/// Multiplying an inequality by a positive factor.
proof fn lemma_mul_mono_k(x: int, y: int, k: int)
    requires
        x <= y,
        0 < k,
    ensures
        x * k <= y * k,
{
    assert(x * k <= y * k) by (nonlinear_arith)
        requires
            x <= y,
            0 < k,
    ;
}

/// Cancelling a positive factor from an inequality.
proof fn lemma_cancel_k(x: int, y: int, k: int)
    requires
        x * k <= y * k,
        0 < k,
    ensures
        x <= y,
{
    assert(x <= y) by (nonlinear_arith)
        requires
            x * k <= y * k,
            0 < k,
    ;
}

/// Bracket of a Euclidean quotient: `q * l <= a < (q + 1) * l`.
proof fn lemma_div_bracket(a: int, l: int)
    requires
        0 <= a,
        0 < l,
    ensures
        0 <= a / l,
        (a / l) * l <= a,
        a < (a / l + 1) * l,
{
    lemma_fundamental_div_mod(a, l);
    lemma_mod_bound(a, l);
    lemma_div_pos_is_pos(a, l);
    assert(l * (a / l) == (a / l) * l) by (nonlinear_arith);
    assert((a / l + 1) * l == (a / l) * l + l) by (nonlinear_arith);
}

/// Upper square bound for one normalized component.
proof fn lemma_comp_upper(m: int, l: int, a: int, s: int)
    requires
        0 <= m,
        0 < l,
        0 <= a,
        0 < s,
        m * l <= a * s,
    ensures
        m * m * (l * l) <= a * a * (s * s),
{
    assert(m * m * (l * l) <= a * a * (s * s)) by (nonlinear_arith)
        requires
            0 <= m,
            0 < l,
            0 <= a,
            0 < s,
            m * l <= a * s,
    ;
}

/// Lower square bound for one normalized component.
proof fn lemma_comp_lower(m: int, l: int, a: int, s: int)
    requires
        0 <= m,
        0 < l,
        0 <= a,
        0 < s,
        m * l <= a * s,
        a * s < (m + 1) * l,
    ensures
        m * m * (l * l) >= a * a * (s * s) - 2 * (a * s) * l,
{
    if a * s < l {
        assert(m == 0) by (nonlinear_arith)
            requires
                0 <= m,
                m * l <= a * s,
                a * s < l,
                0 < l,
        ;
        assert(0 >= a * a * (s * s) - 2 * (a * s) * l) by (nonlinear_arith)
            requires
                0 <= a,
                0 < s,
                a * s < l,
        ;
    } else {
        assert(m * m * (l * l) >= a * a * (s * s) - 2 * (a * s) * l) by (nonlinear_arith)
            requires
                0 <= m,
                0 < l,
                l <= a * s,
                a * s < (m + 1) * l,
    ;
    }
}

/// Normalizing keeps the length within the default tolerance of one:
/// for every in-range vector whose length is at least half a unit,
/// `len(normalized(v))` differs from 1 by less than the default epsilon.
/// (Much shorter vectors lose too much to rounding and are left out.)
pub proof fn lemma_normalized_length(v: V3)
    requires
        v3_in_range(v),
        v3_len(v) >= 500_000_000,
    ensures
        almost_eq_spec(v3_len(v3_normalized(v)), SCALE as int, DEFAULT_EPSILON as int),
{
    let s = SCALE as int;
    let d = v3_dot(v, v);
    let l = v3_len(v);
    lemma_dot_self_nonneg(v);
    lemma_fsqrt_bracket(d);
    let ax = iabs(v.x);
    let ay = iabs(v.y);
    let az = iabs(v.z);
    lemma_abs_sq(v.x);
    lemma_abs_sq(v.y);
    lemma_abs_sq(v.z);
    let t = v.x * v.x + v.y * v.y + v.z * v.z;
    lemma_fmul_self_nonneg(v.x);
    lemma_fmul_self_nonneg(v.y);
    lemma_fmul_self_nonneg(v.z);
    lemma_distrib3(fmul_spec(v.x, v.x), fmul_spec(v.y, v.y), fmul_spec(v.z, v.z), s);
    assert(d * s <= t);
    assert(t < d * s + 3 * s);
    assert(l * l <= t);
    assert(t < (l + 1) * (l + 1) + 3 * s);

    let n = v3_normalized(v);
    assert(n == v3_div(v, l));
    assert(iabs(l) == l);
    assert(ax * s >= 0 && ay * s >= 0 && az * s >= 0) by (nonlinear_arith)
        requires
            0 <= ax,
            0 <= ay,
            0 <= az,
            0 < s,
    ;
    lemma_div_pos_is_pos(ax * s, l);
    lemma_div_pos_is_pos(ay * s, l);
    lemma_div_pos_is_pos(az * s, l);
    let mx = iabs(n.x);
    let my = iabs(n.y);
    let mz = iabs(n.z);
    assert(mx == (ax * s) / l);
    assert(my == (ay * s) / l);
    assert(mz == (az * s) / l);
    lemma_div_bracket(ax * s, l);
    lemma_div_bracket(ay * s, l);
    lemma_div_bracket(az * s, l);

    // upper bound on the squares of the normalized components
    lemma_comp_upper(mx, l, ax, s);
    lemma_comp_upper(my, l, ay, s);
    lemma_comp_upper(mz, l, az, s);
    let msum = mx * mx + my * my + mz * mz;
    lemma_distrib3(mx * mx, my * my, mz * mz, l * l);
    lemma_distrib3(ax * ax, ay * ay, az * az, s * s);
    assert(msum * (l * l) <= t * (s * s));
    lemma_mul_mono_k(t, (l + 1) * (l + 1) + 3 * s - 1, s * s);
    assert(((l + 1) * (l + 1) + 3 * s) * (s * s) <= (s + 31) * (s + 31) * (l * l))
        by (nonlinear_arith)
        requires
            l >= 500_000_000,
            s == 1_000_000_000,
    ;
    assert(((l + 1) * (l + 1) + 3 * s - 1) * (s * s) <= ((l + 1) * (l + 1) + 3 * s) * (s * s))
        by (nonlinear_arith)
        requires
            0 < s,
    ;
    lemma_cancel_k(msum, (s + 31) * (s + 31), l * l);
    assert(msum <= (s + 31) * (s + 31));

    // lower bound on the squares of the normalized components
    lemma_comp_lower(mx, l, ax, s);
    lemma_comp_lower(my, l, ay, s);
    lemma_comp_lower(mz, l, az, s);
    lemma_distrib3(ax, ay, az, 2 * s * l);
    assert(2 * (ax * s) * l + 2 * (ay * s) * l + 2 * (az * s) * l == (ax + ay + az) * (2 * s * l))
        by (nonlinear_arith);
    assert(msum * (l * l) >= t * (s * s) - (ax + ay + az) * (2 * s * l));
    assert((ax + ay + az) * (ax + ay + az) <= 3 * t) by (nonlinear_arith)
        requires
            t == ax * ax + ay * ay + az * az,
    ;
    assert(ax + ay + az <= 2 * (l + 1)) by (nonlinear_arith)
        requires
            (ax + ay + az) * (ax + ay + az) <= 3 * t,
            t < (l + 1) * (l + 1) + 3 * s,
            s == 1_000_000_000,
            l >= 500_000_000,
            0 <= ax + ay + az,
    ;
    assert((ax + ay + az) * (2 * s * l) <= 2 * (l + 1) * (2 * s * l)) by (nonlinear_arith)
        requires
            ax + ay + az <= 2 * (l + 1),
            0 < s,
            0 < l,
    ;
    lemma_mul_mono_k(l * l, t, s * s);
    assert(msum * (l * l) >= (l * l) * (s * s) - 2 * (l + 1) * (2 * s * l));
    assert((l * l) * (s * s) - 2 * (l + 1) * (2 * s * l) >= (s * s - 4 * s - 8) * (l * l))
        by (nonlinear_arith)
        requires
            l >= 500_000_000,
            s == 1_000_000_000,
    ;
    lemma_cancel_k(s * s - 4 * s - 8, msum, l * l);
    assert(msum >= s * s - 4 * s - 8);

    // the length of the normalized vector
    let dn = v3_dot(n, n);
    let ln = v3_len(n);
    lemma_dot_self_nonneg(n);
    lemma_fsqrt_bracket(dn);
    lemma_fmul_self_nonneg(n.x);
    lemma_fmul_self_nonneg(n.y);
    lemma_fmul_self_nonneg(n.z);
    lemma_abs_sq(n.x);
    lemma_abs_sq(n.y);
    lemma_abs_sq(n.z);
    lemma_distrib3(fmul_spec(n.x, n.x), fmul_spec(n.y, n.y), fmul_spec(n.z, n.z), s);
    assert(dn * s <= msum);
    assert(msum < dn * s + 3 * s);
    assert(ln * ln <= dn * s);
    assert(dn * s < (ln + 1) * (ln + 1));

    // upper: ln <= s + 31
    assert(ln <= s + 31) by (nonlinear_arith)
        requires
            ln * ln <= (s + 31) * (s + 31),
            0 <= ln,
            0 < s,
    ;
    // lower: ln >= s - 4
    assert((s - 4) * (s - 4) == s * s - 8 * s + 16) by (nonlinear_arith);
    assert(dn * s > (s - 4) * (s - 4));
    assert(ln + 1 > s - 4) by (nonlinear_arith)
        requires
            (ln + 1) * (ln + 1) > (s - 4) * (s - 4),
            0 <= ln + 1,
            0 < s - 4,
    ;
    assert(ln >= s - 4);
    assert(v3_len(v3_normalized(v)) == ln);
}

/// The tangent evaluation stays bounded over the admitted field of view.
proof fn lemma_tan_half_bound(fovx: int)
    requires
        0 < fovx <= FOVX_LIMIT,
    ensures
        -300_000_000_000 <= tan_half_spec(fovx) <= 300_000_000_000,
{
    let s = SCALE as int;
    lemma_fdiv_bound(fovx, 2 * s, 3_200_000_000, 2_000_000_000, 1_600_000_000);
    let h = fdiv_spec(fovx, 2 * s);
    lemma_fmul_bound(h, h, 1_600_000_000, 1_600_000_000, 2_560_000_000);
    let x2 = fmul_spec(h, h);
    lemma_fmul_bound(x2, h, 2_560_000_000, 1_600_000_000, 4_096_000_000);
    let x3 = fmul_spec(x2, h);
    lemma_fmul_bound(x2, x2, 2_560_000_000, 2_560_000_000, 6_553_600_000);
    let x4 = fmul_spec(x2, x2);
    lemma_fmul_bound(x3, x2, 4_096_000_000, 2_560_000_000, 10_485_760_000);
    let x5 = fmul_spec(x3, x2);
    lemma_fmul_bound(x4, x2, 6_553_600_000, 2_560_000_000, 16_777_216_000);
    let x6 = fmul_spec(x4, x2);
    lemma_fmul_bound(x4, x4, 6_553_600_000, 6_553_600_000, 42_949_672_960);
    let x8 = fmul_spec(x4, x4);
    lemma_fmul_bound(x5, x2, 10_485_760_000, 2_560_000_000, 26_843_545_600);
    let x7 = fmul_spec(x5, x2);
    lemma_fdiv_bound(x3, 6 * s, 4_096_000_000, 6_000_000_000, 682_666_667);
    lemma_fdiv_bound(x5, 120 * s, 10_485_760_000, 120_000_000_000, 87_381_334);
    lemma_fdiv_bound(x7, 5040 * s, 26_843_545_600, 5_040_000_000_000, 5_326_101);
    lemma_fdiv_bound(x2, 2 * s, 2_560_000_000, 2_000_000_000, 1_280_000_000);
    lemma_fdiv_bound(x4, 24 * s, 6_553_600_000, 24_000_000_000, 273_066_667);
    lemma_fdiv_bound(x6, 720 * s, 16_777_216_000, 720_000_000_000, 23_301_689);
    lemma_fdiv_bound(x8, 40320 * s, 42_949_672_960, 40_320_000_000_000, 1_065_222);
    let sn = sin_poly_spec(h);
    let c = cos_poly_spec(h);
    assert(-3_000_000_000 <= sn <= 3_000_000_000);
    let den = if c < TAN_DEN_MIN {
        TAN_DEN_MIN as int
    } else {
        c
    };
    assert(iabs(den) >= 10_000_000);
    lemma_fdiv_bound(sn, den, 3_000_000_000, 10_000_000, 300_000_000_000);
}

/// Screen offsets of admitted cameras stay within coordinate range.
proof fn lemma_screen_offset_in_range(forward: V3, up: V3, aspect: int, fovx: int, x: int, y: int)
    requires
        v3_unit_range(forward),
        v3_unit_range(up),
        ASPECT_MIN as int <= aspect <= MAX_COORD as int,
        0 < fovx <= FOVX_LIMIT,
        0 <= x <= SCALE as int,
        0 <= y <= SCALE as int,
    ensures
        v3_in_range(screen_offset_spec(forward, up, aspect, fovx, x, y)),
{
    let s = SCALE as int;
    lemma_fmul_bound(forward.y, up.z, 1_000_000_000, 1_000_000_000, 1_000_000_000);
    lemma_fmul_bound(forward.z, up.y, 1_000_000_000, 1_000_000_000, 1_000_000_000);
    lemma_fmul_bound(forward.z, up.x, 1_000_000_000, 1_000_000_000, 1_000_000_000);
    lemma_fmul_bound(forward.x, up.z, 1_000_000_000, 1_000_000_000, 1_000_000_000);
    lemma_fmul_bound(forward.x, up.y, 1_000_000_000, 1_000_000_000, 1_000_000_000);
    lemma_fmul_bound(forward.y, up.x, 1_000_000_000, 1_000_000_000, 1_000_000_000);
    let right = v3_cross(forward, up);
    let xunit = 2 * x - s;
    let yunit = -(2 * y - s);
    lemma_tan_half_bound(fovx);
    let w = 2 * tan_half_spec(fovx);
    lemma_fdiv_bound(w, aspect, 600_000_000_000, 100_000_000, 6_000_000_000_000);
    let h = fdiv_spec(w, aspect);
    lemma_fmul_bound(right.x, xunit, 2_000_000_000, 1_000_000_000, 2_000_000_000);
    lemma_fmul_bound(right.y, xunit, 2_000_000_000, 1_000_000_000, 2_000_000_000);
    lemma_fmul_bound(right.z, xunit, 2_000_000_000, 1_000_000_000, 2_000_000_000);
    let rx = v3_scale(right, xunit);
    lemma_fmul_bound(rx.x, w, 2_000_000_000, 600_000_000_000, 1_200_000_000_000);
    lemma_fmul_bound(rx.y, w, 2_000_000_000, 600_000_000_000, 1_200_000_000_000);
    lemma_fmul_bound(rx.z, w, 2_000_000_000, 600_000_000_000, 1_200_000_000_000);
    let rxw = v3_scale(rx, w);
    lemma_fdiv_bound(rxw.x, 2 * s, 1_200_000_000_000, 2_000_000_000, 600_000_000_000);
    lemma_fdiv_bound(rxw.y, 2 * s, 1_200_000_000_000, 2_000_000_000, 600_000_000_000);
    lemma_fdiv_bound(rxw.z, 2 * s, 1_200_000_000_000, 2_000_000_000, 600_000_000_000);
    lemma_fmul_bound(up.x, yunit, 1_000_000_000, 1_000_000_000, 1_000_000_000);
    lemma_fmul_bound(up.y, yunit, 1_000_000_000, 1_000_000_000, 1_000_000_000);
    lemma_fmul_bound(up.z, yunit, 1_000_000_000, 1_000_000_000, 1_000_000_000);
    let uy = v3_scale(up, yunit);
    lemma_fmul_bound(uy.x, h, 1_000_000_000, 6_000_000_000_000, 6_000_000_000_000);
    lemma_fmul_bound(uy.y, h, 1_000_000_000, 6_000_000_000_000, 6_000_000_000_000);
    lemma_fmul_bound(uy.z, h, 1_000_000_000, 6_000_000_000_000, 6_000_000_000_000);
    let uyh = v3_scale(uy, h);
    lemma_fdiv_bound(uyh.x, 2 * s, 6_000_000_000_000, 2_000_000_000, 3_000_000_000_000);
    lemma_fdiv_bound(uyh.y, 2 * s, 6_000_000_000_000, 2_000_000_000, 3_000_000_000_000);
    lemma_fdiv_bound(uyh.z, 2 * s, 6_000_000_000_000, 2_000_000_000, 3_000_000_000_000);
}

/// The screen-offset length demanded by the projection is satisfiable: for
/// the axis-aligned camera (forward along z, up along y) the offset keeps
/// its whole forward component, whatever the other parameters are, so its
/// length is at least one.
pub proof fn lemma_axis_camera_offset_length(aspect: int, fovx: int, x: int, y: int)
    ensures
        v3_len(
            screen_offset_spec(
                V3 { x: 0, y: 0, z: SCALE as int },
                V3 { x: 0, y: SCALE as int, z: 0 },
                aspect,
                fovx,
                x,
                y,
            ),
        ) >= SCALE as int,
{
    let s = SCALE as int;
    let forward = V3 { x: 0, y: 0, z: s };
    let up = V3 { x: 0, y: s, z: 0 };
    let right = v3_cross(forward, up);
    lemma_fmul_zero(s);
    lemma_fmul_zero(0);
    assert(right.y == 0 && right.z == 0);
    let xunit = 2 * x - s;
    let yunit = -(2 * y - s);
    let w = 2 * tan_half_spec(fovx);
    let h = fdiv_spec(w, aspect);
    lemma_fmul_zero(xunit);
    lemma_fmul_zero(yunit);
    lemma_fmul_zero(w);
    lemma_fmul_zero(h);
    lemma_fdiv_zero(2 * s);
    let tx = v3_div(v3_scale(v3_scale(right, xunit), w), 2 * s);
    let ty = v3_div(v3_scale(v3_scale(up, yunit), h), 2 * s);
    assert(tx.z == 0 && ty.z == 0);
    let offset = screen_offset_spec(forward, up, aspect, fovx, x, y);
    assert(offset.z == s);
    lemma_fmul_self_nonneg(offset.x);
    lemma_fmul_self_nonneg(offset.y);
    assert(fmul_spec(s, s) == s) by {
        assert(s * s >= 0) by (nonlinear_arith)
            requires
                0 < s,
        ;
        vstd::arithmetic::div_mod::lemma_div_multiples_vanish(s, s);
        assert(s * s == s * s);
    };
    assert(v3_dot(offset, offset) >= s);
    assert(s * s <= s * (SCALE as int));
    lemma_fsqrt_ge(v3_dot(offset, offset), s, s);
}

/// Rays produced by the camera projection carry a direction of unit length,
/// within the default tolerance: the round trip through `screen_ray` always
/// normalizes.  The screen offset must be at least half a unit long, which
/// holds for every camera whose forward and up axes are orthonormal.
pub proof fn lemma_screen_ray_unit_length(
    forward: V3,
    up: V3,
    aspect: int,
    fovx: int,
    x: int,
    y: int,
)
    requires
        v3_unit_range(forward),
        v3_unit_range(up),
        ASPECT_MIN as int <= aspect <= MAX_COORD as int,
        0 < fovx <= FOVX_LIMIT,
        0 <= x <= SCALE as int,
        0 <= y <= SCALE as int,
        v3_len(screen_offset_spec(forward, up, aspect, fovx, x, y)) >= 500_000_000,
    ensures
        almost_eq_spec(
            v3_len(v3_normalized(screen_offset_spec(forward, up, aspect, fovx, x, y))),
            SCALE as int,
            DEFAULT_EPSILON as int,
        ),
{
    lemma_screen_offset_in_range(forward, up, aspect, fovx, x, y);
    lemma_normalized_length(screen_offset_spec(forward, up, aspect, fovx, x, y));
}

} // verus!
