//! Fixed-point scalars.
//!
//! A scalar is an `i64` holding `value * SCALE`, so one unit is `1/SCALE`.
//! Multiplication, division and square root round toward zero; their exact
//! results are the spec functions `fmul_spec`, `fdiv_spec` and `fsqrt_spec`.

use vstd::prelude::*;
use vstd::arithmetic::div_mod::lemma_div_is_ordered;
use vstd::arithmetic::div_mod::lemma_div_pos_is_pos;
use vstd::arithmetic::div_mod::lemma_fundamental_div_mod;

verus! {

/// Number of fixed-point units in 1.0.
pub const SCALE: i64 = 1_000_000_000;

/// Default tolerance of the almost-equal comparisons: 1e-7, i.e. 100 units.
pub const DEFAULT_EPSILON: i64 = 100;

/// Magnitude of `a`.
pub open spec fn iabs(a: int) -> int {
    if a < 0 {
        -a
    } else {
        a
    }
}

/// Product of two scalars, rounded toward zero.
pub open spec fn fmul_spec(a: int, b: int) -> int {
    if a * b >= 0 {
        (a * b) / (SCALE as int)
    } else {
        -((-(a * b)) / (SCALE as int))
    }
}

/// Quotient of two scalars, rounded toward zero (meaningful for `b != 0`).
pub open spec fn fdiv_spec(a: int, b: int) -> int {
    if (a >= 0) == (b >= 0) {
        (iabs(a) * (SCALE as int)) / iabs(b)
    } else {
        -((iabs(a) * (SCALE as int)) / iabs(b))
    }
}

/// Floor of the square root of a natural number.
pub open spec fn sqrt_floor(n: nat) -> nat
    decreases n,
{
    if n == 0 {
        0
    } else {
        let p = sqrt_floor((n - 1) as nat);
        if (p + 1) * (p + 1) <= n {
            p + 1
        } else {
            p
        }
    }
}

/// Square root of a non-negative scalar, rounded down to a unit.
pub open spec fn fsqrt_spec(x: int) -> int {
    sqrt_floor((x * SCALE) as nat) as int
}

/// Componentwise absolute-difference comparison under a strict tolerance.
pub open spec fn almost_eq_spec(a: int, b: int, eps: int) -> bool {
    -eps < a - b < eps
}

/// `sqrt_floor(n)` is the unique `r` with `r * r <= n < (r + 1) * (r + 1)`.
pub proof fn lemma_sqrt_floor(n: nat)
    ensures
        sqrt_floor(n) * sqrt_floor(n) <= n,
        n < (sqrt_floor(n) + 1) * (sqrt_floor(n) + 1),
    decreases n,
{
    if n == 0 {
        let s = sqrt_floor(n);
        assert(s == 0);
        assert(s * s <= n && n < (s + 1) * (s + 1)) by (nonlinear_arith)
            requires
                n == 0,
                s == 0nat,
        ;
    } else {
        lemma_sqrt_floor((n - 1) as nat);
        let p = sqrt_floor((n - 1) as nat);
        if (p + 1) * (p + 1) <= n {
            assert(sqrt_floor(n) == p + 1);
            assert(n - 1 < (p + 1) * (p + 1));
            assert(n == (p + 1) * (p + 1));
            assert(n < (p + 2) * (p + 2)) by (nonlinear_arith)
                requires
                    n == (p + 1) * (p + 1),
                    p >= 0,
            ;
            assert(sqrt_floor(n) * sqrt_floor(n) <= n);
            assert(n < (sqrt_floor(n) + 1) * (sqrt_floor(n) + 1));
        } else {
            assert(sqrt_floor(n) == p);
            assert(p * p <= n - 1);
            assert(n < (p + 1) * (p + 1));
            assert(sqrt_floor(n) * sqrt_floor(n) <= n);
            assert(n < (sqrt_floor(n) + 1) * (sqrt_floor(n) + 1));
        }
    }
}

/// The floor square root is determined by its bracketing property.
pub proof fn lemma_sqrt_floor_unique(r: nat, n: nat)
    requires
        r * r <= n,
        n < (r + 1) * (r + 1),
    ensures
        r == sqrt_floor(n),
{
    lemma_sqrt_floor(n);
    let s = sqrt_floor(n);
    if r < s {
        assert((r + 1) * (r + 1) <= s * s) by (nonlinear_arith)
            requires
                r + 1 <= s,
                r >= 0,
        ;
    }
    if s < r {
        assert((s + 1) * (s + 1) <= r * r) by (nonlinear_arith)
            requires
                s + 1 <= r,
                s >= 0,
        ;
    }
}

/// A bound on the operands bounds the rounded product: if `|a| <= aa`,
/// `|b| <= bb` and `aa * bb <= q * SCALE`, then `|fmul_spec(a, b)| <= q`.
pub proof fn lemma_fmul_bound(a: int, b: int, aa: int, bb: int, q: int)
    requires
        0 <= aa,
        0 <= bb,
        0 <= q,
        -aa <= a <= aa,
        -bb <= b <= bb,
        aa * bb <= q * (SCALE as int),
    ensures
        -q <= fmul_spec(a, b) <= q,
{
    let s = SCALE as int;
    assert(-(aa * bb) <= a * b <= aa * bb) by (nonlinear_arith)
        requires
            0 <= aa,
            0 <= bb,
            -aa <= a <= aa,
            -bb <= b <= bb,
    ;
    assert(q * s == s * q) by (nonlinear_arith);
    vstd::arithmetic::div_mod::lemma_div_multiples_vanish(q, s);
    if a * b >= 0 {
        lemma_div_is_ordered(a * b, q * s, s);
        lemma_div_pos_is_pos(a * b, s);
    } else {
        lemma_div_is_ordered(-(a * b), q * s, s);
        lemma_div_pos_is_pos(-(a * b), s);
    }
}

/// The rounded product does not depend on the order of its operands.
pub proof fn lemma_fmul_comm(a: int, b: int)
    ensures
        fmul_spec(a, b) == fmul_spec(b, a),
{
    assert(a * b == b * a) by (nonlinear_arith);
}

/// A rounded square is non-negative.
pub proof fn lemma_fmul_self_nonneg(a: int)
    ensures
        0 <= fmul_spec(a, a),
        fmul_spec(a, a) * (SCALE as int) <= a * a,
        a * a < (fmul_spec(a, a) + 1) * (SCALE as int),
        a * a < fmul_spec(a, a) * (SCALE as int) + (SCALE as int),
{
    assert((fmul_spec(a, a) + 1) * (SCALE as int) == fmul_spec(a, a) * (SCALE as int) + (
    SCALE as int)) by (nonlinear_arith);
    let s = SCALE as int;
    assert(a * a >= 0) by (nonlinear_arith);
    lemma_div_pos_is_pos(a * a, s);
    lemma_fundamental_div_mod(a * a, s);
    assert(fmul_spec(a, a) == (a * a) / s);
    assert((a * a) / s * s <= a * a) by {
        assert(a * a == s * ((a * a) / s) + (a * a) % s);
        assert((a * a) % s >= 0);
        assert(s * ((a * a) / s) == (a * a) / s * s) by (nonlinear_arith);
    };
    assert(a * a < ((a * a) / s + 1) * s) by {
        assert(a * a == s * ((a * a) / s) + (a * a) % s);
        assert((a * a) % s < s);
        assert(s * ((a * a) / s) + s == ((a * a) / s + 1) * s) by (nonlinear_arith);
    };
}

/// Multiplying by zero gives zero.
pub proof fn lemma_fmul_zero(a: int)
    ensures
        fmul_spec(a, 0) == 0,
        fmul_spec(0, a) == 0,
{
    let s = SCALE as int;
    assert(a * 0 == 0 && 0 * a == 0) by (nonlinear_arith);
    vstd::arithmetic::div_mod::lemma_basic_div(0, s);
}

/// Dividing zero gives zero.
pub proof fn lemma_fdiv_zero(b: int)
    requires
        b != 0,
    ensures
        fdiv_spec(0, b) == 0,
{
    let s = SCALE as int;
    assert(iabs(0) * s == 0) by (nonlinear_arith);
    vstd::arithmetic::div_mod::lemma_basic_div(0, iabs(b));
}

/// Rounded squares are ordered as their non-negative arguments.
pub proof fn lemma_fmul_self_mono(a: int, b: int)
    requires
        0 <= a <= b,
    ensures
        fmul_spec(a, a) <= fmul_spec(b, b),
{
    let s = SCALE as int;
    assert(a * a >= 0 && b * b >= 0 && a * a <= b * b) by (nonlinear_arith)
        requires
            0 <= a <= b,
    ;
    lemma_div_is_ordered(a * a, b * b, s);
}

/// An upper bound on the argument bounds the rounded square root: if
/// `x <= q` and `q * SCALE < (b + 1)^2`, then `fsqrt_spec(x) <= b`.
pub proof fn lemma_fsqrt_le(x: int, q: int, b: int)
    requires
        0 <= x <= q,
        0 <= b,
        q * (SCALE as int) < (b + 1) * (b + 1),
    ensures
        0 <= fsqrt_spec(x) <= b,
{
    let s = SCALE as int;
    assert(0 <= x * s <= q * s) by (nonlinear_arith)
        requires
            0 <= x <= q,
            0 < s,
    ;
    let n = (x * s) as nat;
    lemma_sqrt_floor(n);
    let r = sqrt_floor(n);
    if r > b {
        assert((b + 1) * (b + 1) <= r * r) by (nonlinear_arith)
            requires
                b + 1 <= r,
                b >= 0,
        ;
    }
}

/// The square-root bracket, restated for scalars.
pub proof fn lemma_fsqrt_bracket(x: int)
    requires
        0 <= x,
    ensures
        0 <= fsqrt_spec(x),
        fsqrt_spec(x) * fsqrt_spec(x) <= x * (SCALE as int),
        x * (SCALE as int) < (fsqrt_spec(x) + 1) * (fsqrt_spec(x) + 1),
{
    let s = SCALE as int;
    assert(x * s >= 0) by (nonlinear_arith)
        requires
            0 <= x,
            0 < s,
    ;
    lemma_sqrt_floor((x * s) as nat);
}

/// A lower bound on the argument bounds the rounded square root from
/// below: if `x >= q` and `q * SCALE >= b^2`, then `fsqrt_spec(x) >= b`.
pub proof fn lemma_fsqrt_ge(x: int, q: int, b: int)
    requires
        0 <= q <= x,
        0 <= b,
        b * b <= q * (SCALE as int),
    ensures
        fsqrt_spec(x) >= b,
{
    let s = SCALE as int;
    assert(q * s <= x * s) by (nonlinear_arith)
        requires
            0 <= q <= x,
            0 < s,
    ;
    lemma_fsqrt_bracket(x);
    let r = fsqrt_spec(x);
    if r < b {
        assert((r + 1) * (r + 1) <= b * b) by (nonlinear_arith)
            requires
                r + 1 <= b,
                0 <= r,
        ;
    }
}

/// Bounds on numerator and denominator bound the rounded quotient: if
/// `|a| <= aa`, `|b| >= bmin` and `aa * SCALE <= q * bmin`, then
/// `|fdiv_spec(a, b)| <= q`.
pub proof fn lemma_fdiv_bound(a: int, b: int, aa: int, bmin: int, q: int)
    requires
        0 <= aa,
        0 <= q,
        -aa <= a <= aa,
        0 < bmin <= iabs(b),
        aa * (SCALE as int) <= q * bmin,
    ensures
        -q <= fdiv_spec(a, b) <= q,
{
    let s = SCALE as int;
    let m = (iabs(a) * s) / iabs(b);
    assert(0 <= iabs(a) * s <= aa * s) by (nonlinear_arith)
        requires
            0 <= iabs(a) <= aa,
            0 < s,
    ;
    lemma_div_pos_is_pos(iabs(a) * s, iabs(b));
    lemma_div_is_ordered(iabs(a) * s, aa * s, iabs(b));
    vstd::arithmetic::div_mod::lemma_div_is_ordered_by_denominator(aa * s, bmin, iabs(b));
    lemma_div_is_ordered(aa * s, q * bmin, bmin);
    assert(q * bmin == bmin * q) by (nonlinear_arith);
    vstd::arithmetic::div_mod::lemma_div_multiples_vanish(q, bmin);
    assert(m <= q);
}

/// Floor square root of a 128-bit integer by binary search.
fn isqrt_u128(x: u128) -> (r: u128)
    requires
        x < 10_000_000_000_000_000_000_000_000_000,
    ensures
        r * r <= x,
        x < (r + 1) * (r + 1),
        r == sqrt_floor(x as nat),
        r < 100_000_000_000_000,
{
    let mut lo: u128 = 0;
    let mut hi: u128 = 100_000_000_000_000;
    proof {
        assert(100_000_000_000_000u128 * 100_000_000_000_000u128
            == 10_000_000_000_000_000_000_000_000_000) by (nonlinear_arith);
    }
    while lo + 1 < hi
        invariant
            lo * lo <= x,
            x < hi * hi,
            lo < hi,
            hi <= 100_000_000_000_000,
        decreases hi - lo,
    {
        let mid: u128 = lo + (hi - lo) / 2;
        assert(lo < mid < hi);
        assert(mid * mid <= 100_000_000_000_000u128 * 100_000_000_000_000u128) by (nonlinear_arith)
            requires
                0 <= mid <= 100_000_000_000_000u128,
        ;
        if mid * mid <= x {
            lo = mid;
        } else {
            hi = mid;
        }
    }
    proof {
        assert(hi == lo + 1);
        lemma_sqrt_floor_unique(lo as nat, x as nat);
    }
    lo
}

/// Magnitudes multiply to the magnitude of the product.
proof fn lemma_abs_mul(a: int, b: int)
    ensures
        iabs(a) * iabs(b) == iabs(a * b),
{
    assert(iabs(a) * iabs(b) == iabs(a * b)) by (nonlinear_arith);
}

/// Scalar product `a * b`, rounded toward zero.
pub fn fixed_mul(a: i64, b: i64) -> (r: i64)
    requires
        -0x7fff_ffff_ffff_ffff <= fmul_spec(a as int, b as int) <= 0x7fff_ffff_ffff_ffff,
    ensures
        r == fmul_spec(a as int, b as int),
{
    let ai: i128 = a as i128;
    let bi: i128 = b as i128;
    let ua: u128 = if ai < 0 {
        (-ai) as u128
    } else {
        ai as u128
    };
    let ub: u128 = if bi < 0 {
        (-bi) as u128
    } else {
        bi as u128
    };
    proof {
        assert(ua <= 0x8000_0000_0000_0000u128 && ub <= 0x8000_0000_0000_0000u128);
        assert(ua * ub <= 0x8000_0000_0000_0000u128 * 0x8000_0000_0000_0000u128)
            by (nonlinear_arith)
            requires
                ua <= 0x8000_0000_0000_0000u128,
                ub <= 0x8000_0000_0000_0000u128,
        ;
    }
    let m: u128 = (ua * ub) / (SCALE as u128);
    proof {
        let s = SCALE as int;
        let p = (a as int) * (b as int);
        lemma_abs_mul(a as int, b as int);
        assert(ua * ub == iabs(p));
        assert(m == iabs(p) / s);
        if p >= 0 {
            assert(fmul_spec(a as int, b as int) == p / s);
            assert(iabs(p) == p);
        } else {
            assert(fmul_spec(a as int, b as int) == -((-p) / s));
            assert(iabs(p) == -p);
        }
        lemma_div_pos_is_pos(iabs(p), s);
        assert(m == iabs(fmul_spec(a as int, b as int)));
        if (a < 0) != (b < 0) {
            assert(p <= 0) by (nonlinear_arith)
                requires
                    (a < 0) != (b < 0),
                    p == (a as int) * (b as int),
            ;
        } else {
            assert(p >= 0) by (nonlinear_arith)
                requires
                    (a < 0) == (b < 0),
                    p == (a as int) * (b as int),
            ;
        }
    }
    if (a < 0) != (b < 0) {
        -(m as i64)
    } else {
        m as i64
    }
}

/// Scalar quotient `a / b`, rounded toward zero.
pub fn fixed_div(a: i64, b: i64) -> (r: i64)
    requires
        b != 0,
        -0x7fff_ffff_ffff_ffff <= fdiv_spec(a as int, b as int) <= 0x7fff_ffff_ffff_ffff,
    ensures
        r == fdiv_spec(a as int, b as int),
{
    let ai: i128 = a as i128;
    let bi: i128 = b as i128;
    let ua: u128 = if ai < 0 {
        (-ai) as u128
    } else {
        ai as u128
    };
    let ub: u128 = if bi < 0 {
        (-bi) as u128
    } else {
        bi as u128
    };
    proof {
        assert(ua <= 0x8000_0000_0000_0000u128 && 0 < ub);
        assert(ua * (SCALE as u128) <= 0x8000_0000_0000_0000u128 * 1_000_000_000u128)
            by (nonlinear_arith)
            requires
                ua <= 0x8000_0000_0000_0000u128,
        ;
    }
    let m: u128 = (ua * (SCALE as u128)) / ub;
    proof {
        let s = SCALE as int;
        assert(ua == iabs(a as int));
        assert(ub == iabs(b as int));
        assert(ua * (SCALE as u128) == iabs(a as int) * s);
        assert(m == (iabs(a as int) * s) / iabs(b as int));
        lemma_div_pos_is_pos(iabs(a as int) * s, iabs(b as int));
        assert(m == iabs(fdiv_spec(a as int, b as int)));
        assert(((a < 0) != (b < 0)) == !((a as int >= 0) == (b as int >= 0)));
    }
    if (a < 0) != (b < 0) {
        -(m as i64)
    } else {
        m as i64
    }
}

/// Square root of a non-negative scalar, rounded down to a unit.
pub fn fixed_sqrt(x: i64) -> (r: i64)
    requires
        0 <= x,
    ensures
        r == fsqrt_spec(x as int),
        0 <= r,
        r < 100_000_000_000_000,
{
    proof {
        let xi = x as int;
        assert(xi * (SCALE as int) < 10_000_000_000_000_000_000_000_000_000) by (nonlinear_arith)
            requires
                0 <= xi <= 0x7fff_ffff_ffff_ffff,
        ;
    }
    let xs: u128 = (x as u128) * (SCALE as u128);
    let r = isqrt_u128(xs);
    proof {
        assert(((x as int) * SCALE) as nat == xs as nat);
    }
    r as i64
}

/// True iff `a` and `b` differ by strictly less than `epsilon`.
pub fn almost_equal_with_epsilon(a: i64, b: i64, epsilon: i64) -> (r: bool)
    ensures
        r == almost_eq_spec(a as int, b as int, epsilon as int),
{
    let d: i128 = (a as i128) - (b as i128);
    let e: i128 = epsilon as i128;
    -e < d && d < e
}

/// True iff `a` and `b` differ by strictly less than the default tolerance.
pub fn almost_equal(a: i64, b: i64) -> (r: bool)
    ensures
        r == almost_eq_spec(a as int, b as int, DEFAULT_EPSILON as int),
{
    almost_equal_with_epsilon(a, b, DEFAULT_EPSILON)
}

/// Maps a coordinate in `[0, 1]` to the centered range `[-1, 1]`.
pub fn posunit_to_unit(value: i64) -> (r: i64)
    requires
        0 <= value <= SCALE,
    ensures
        r == 2 * value - SCALE,
{
    2 * value - SCALE
}

} // verus!
