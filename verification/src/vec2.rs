//! Fixed-point 2-D vectors and the unit lattice directions derived from them.

use vstd::prelude::*;
use crate::fx::{
    div_trunc, div_trunc_exec, fx_add, fx_clamp, fx_clamp_exec, fx_div, fx_mul, fx_ok, fx_sub,
    isqrt, lemma_clamp_odd, lemma_div_trunc_odd, lemma_fx_mul_neg_left, lemma_fx_mul_neg_right,
    lemma_isqrt_bounds, neg64, spec_fx_add, spec_fx_div, spec_fx_mul, spec_fx_sub, spec_isqrt,
    FX_ONE, FX_ONE_SQ,
};

verus! {

/// A 2-D vector of fixed-point scalars.
#[derive(Clone, Copy, Debug, PartialEq, Eq, Structural)]
pub struct V2 {
    pub x: i64,
    pub y: i64,
}

/// Both components lie in the representable range.
pub open spec fn v2_ok(v: V2) -> bool {
    fx_ok(v.x as int) && fx_ok(v.y as int)
}

/// The zero vector.
pub open spec fn v2_zero() -> V2 {
    V2 { x: 0, y: 0 }
}

pub open spec fn spec_v2_add(a: V2, b: V2) -> V2 {
    V2 { x: spec_fx_add(a.x, b.x), y: spec_fx_add(a.y, b.y) }
}

pub open spec fn spec_v2_sub(a: V2, b: V2) -> V2 {
    V2 { x: spec_fx_sub(a.x, b.x), y: spec_fx_sub(a.y, b.y) }
}

/// Scale both components by the fixed-point scalar `s`.
pub open spec fn spec_v2_scale(v: V2, s: i64) -> V2 {
    V2 { x: spec_fx_mul(v.x, s), y: spec_fx_mul(v.y, s) }
}

/// Divide both components by the fixed-point scalar `s`.
pub open spec fn spec_v2_div(v: V2, s: i64) -> V2 {
    V2 { x: spec_fx_div(v.x, s), y: spec_fx_div(v.y, s) }
}

/// Fixed-point dot product.
pub open spec fn spec_v2_dot(a: V2, b: V2) -> i64 {
    fx_clamp(div_trunc(a.x * b.x + a.y * b.y, 1000))
}

/// Squared length in raw tick products (units of `FX_ONE_SQ`).
pub open spec fn sqlen_raw(v: V2) -> int {
    v.x * v.x + v.y * v.y
}

pub open spec fn abs_i(a: int) -> int {
    if a >= 0 {
        a
    } else {
        -a
    }
}

/// The unit vector in `v`'s direction, or zero for the zero vector.
pub open spec fn spec_v2_norm(v: V2) -> V2 {
    if v.x == 0 && v.y == 0 {
        v
    } else {
        let len = spec_isqrt(sqlen_raw(v) as nat) as int;
        V2 { x: fx_clamp(div_trunc(v.x * 1000, len)), y: fx_clamp(div_trunc(v.y * 1000, len)) }
    }
}

/// Cap a vector to roughly unit length: vectors longer than one unit are
/// normalized, shorter ones pass through unchanged.
pub open spec fn spec_cap_vec(v: V2) -> V2 {
    if sqlen_raw(v) > 1_000_000 {
        spec_v2_norm(v)
    } else {
        v
    }
}

#[verifier::when_used_as_spec(spec_v2_add)]
pub fn v2_add(a: V2, b: V2) -> (r: V2)
    requires
        v2_ok(a),
        v2_ok(b),
    ensures
        r == spec_v2_add(a, b),
        v2_ok(r),
{
    V2 { x: fx_add(a.x, b.x), y: fx_add(a.y, b.y) }
}

#[verifier::when_used_as_spec(spec_v2_sub)]
pub fn v2_sub(a: V2, b: V2) -> (r: V2)
    requires
        v2_ok(a),
        v2_ok(b),
    ensures
        r == spec_v2_sub(a, b),
        v2_ok(r),
{
    V2 { x: fx_sub(a.x, b.x), y: fx_sub(a.y, b.y) }
}

#[verifier::when_used_as_spec(spec_v2_scale)]
pub fn v2_scale(v: V2, s: i64) -> (r: V2)
    requires
        v2_ok(v),
        fx_ok(s as int),
    ensures
        r == spec_v2_scale(v, s),
        v2_ok(r),
{
    V2 { x: fx_mul(v.x, s), y: fx_mul(v.y, s) }
}

#[verifier::when_used_as_spec(spec_v2_div)]
pub fn v2_div(v: V2, s: i64) -> (r: V2)
    requires
        v2_ok(v),
        1 <= s,
    ensures
        r == spec_v2_div(v, s),
        v2_ok(r),
{
    V2 { x: fx_div(v.x, s), y: fx_div(v.y, s) }
}

#[verifier::when_used_as_spec(spec_v2_dot)]
pub fn v2_dot(a: V2, b: V2) -> (r: i64)
    requires
        v2_ok(a),
        v2_ok(b),
    ensures
        r == spec_v2_dot(a, b),
        fx_ok(r as int),
{
    assert(-4_000_000_000_000_000_000 <= a.x * b.x <= 4_000_000_000_000_000_000
        && -4_000_000_000_000_000_000 <= a.y * b.y <= 4_000_000_000_000_000_000) by (nonlinear_arith)
        requires
            -2_000_000_000 <= a.x <= 2_000_000_000,
            -2_000_000_000 <= b.x <= 2_000_000_000,
            -2_000_000_000 <= a.y <= 2_000_000_000,
            -2_000_000_000 <= b.y <= 2_000_000_000,
    ;
    let p: i64 = a.x * b.x + a.y * b.y;
    fx_clamp_exec(div_trunc_exec(p, FX_ONE))
}

/// Squared length in raw tick products.
pub fn square_len_raw(v: V2) -> (r: i64)
    requires
        v2_ok(v),
    ensures
        r == sqlen_raw(v),
        0 <= r <= 8_000_000_000_000_000_000,
{
    assert(0 <= v.x * v.x <= 4_000_000_000_000_000_000
        && 0 <= v.y * v.y <= 4_000_000_000_000_000_000) by (nonlinear_arith)
        requires
            -2_000_000_000 <= v.x <= 2_000_000_000,
            -2_000_000_000 <= v.y <= 2_000_000_000,
    ;
    v.x * v.x + v.y * v.y
}

#[verifier::when_used_as_spec(spec_v2_norm)]
pub fn v2_normalized(v: V2) -> (r: V2)
    requires
        v2_ok(v),
    ensures
        r == spec_v2_norm(v),
        v2_ok(r),
{
    if v.x == 0 && v.y == 0 {
        v
    } else {
        let sq: i64 = square_len_raw(v);
        proof {
            assert(sq >= 1) by (nonlinear_arith)
                requires
                    !(v.x == 0 && v.y == 0),
                    sq == v.x * v.x + v.y * v.y,
            ;
        }
        let len_u: u64 = isqrt(sq as u64);
        proof {
            lemma_isqrt_bounds(sq as nat);
            assert(len_u >= 1) by (nonlinear_arith)
                requires
                    sq >= 1,
                    sq < (len_u + 1) * (len_u + 1),
            ;
        }
        let len: i64 = len_u as i64;
        let nx: i64 = fx_clamp_exec(div_trunc_exec(v.x * FX_ONE, len));
        let ny: i64 = fx_clamp_exec(div_trunc_exec(v.y * FX_ONE, len));
        V2 { x: nx, y: ny }
    }
}

#[verifier::when_used_as_spec(spec_cap_vec)]
pub fn cap_vec(v: V2) -> (r: V2)
    requires
        v2_ok(v),
    ensures
        r == spec_cap_vec(v),
        v2_ok(r),
        sqlen_raw(r) <= 1_000_000 + 2_000,
        sqlen_raw(v) <= 1_000_000 ==> r == v,
{
    proof {
        lemma_cap_bound(v);
    }
    let sq: i64 = square_len_raw(v);
    if sq > FX_ONE_SQ {
        v2_normalized(v)
    } else {
        v
    }
}

/// Capping never yields a squared length above one unit plus a rounding
/// margin of two ticks, and leaves sub-unit vectors untouched.
pub proof fn lemma_cap_bound(v: V2)
    requires
        v2_ok(v),
    ensures
        sqlen_raw(spec_cap_vec(v)) <= 1_000_000 + 2_000,
        sqlen_raw(v) <= 1_000_000 ==> spec_cap_vec(v) == v,
{
    if sqlen_raw(v) <= 1_000_000 {
        assert(spec_cap_vec(v) == v);
    } else {
        let s = sqlen_raw(v);
        let len = spec_isqrt(s as nat) as int;
        lemma_isqrt_bounds(s as nat);
        assert(len >= 1000) by (nonlinear_arith)
            requires
                s > 1_000_000,
                s < (len + 1) * (len + 1),
                len >= 0,
        ;
        assert(v.x * v.x <= s && v.y * v.y <= s) by (nonlinear_arith)
            requires
                s == v.x * v.x + v.y * v.y,
        ;
        lemma_norm_component(v.x as int, len, s);
        lemma_norm_component(v.y as int, len, s);
        assert(s <= len * len + 2 * len) by (nonlinear_arith)
            requires
                s < (len + 1) * (len + 1),
        ;
        let dx = div_trunc(v.x * 1000, len);
        let dy = div_trunc(v.y * 1000, len);
        assert(spec_v2_norm(v).x == dx as i64 && spec_v2_norm(v).y == dy as i64);
        assert(dx * dx + dy * dy <= 1_002_000) by (nonlinear_arith)
            requires
                dx * dx * (len * len) <= (v.x * v.x) * 1_000_000,
                dy * dy * (len * len) <= (v.y * v.y) * 1_000_000,
                v.x * v.x + v.y * v.y == s,
                s <= len * len + 2 * len,
                len >= 1000,
        ;
        assert(sqlen_raw(spec_cap_vec(v)) == dx * dx + dy * dy);
    }
}

/// One normalized component, squared, is bounded by its exact real value.
proof fn lemma_norm_component(x: int, len: int, s: int)
    requires
        len >= 1,
        x * x <= s,
        s < (len + 1) * (len + 1),
        -2_000_000_000 <= x <= 2_000_000_000,
    ensures
        div_trunc(x * 1000, len) * div_trunc(x * 1000, len) * (len * len) <= (x * x) * 1_000_000,
        -1000 <= div_trunc(x * 1000, len) <= 1000,
{
    let ax = abs_i(x);
    assert(ax == x || ax == -x);
    assert(ax >= 0 && ax * ax == x * x) by (nonlinear_arith)
        requires
            ax == x || ax == -x,
            x >= 0 ==> ax == x,
            x < 0 ==> ax == -x,
    ;
    assert(ax <= len) by (nonlinear_arith)
        requires
            x * x <= s,
            s < (len + 1) * (len + 1),
            len >= 1,
            ax >= 0,
            ax * ax == x * x,
    ;
    let q = (ax * 1000) / len;
    vstd::arithmetic::div_mod::lemma_fundamental_div_mod(ax * 1000, len);
    vstd::arithmetic::div_mod::lemma_div_is_ordered_by_denominator(ax * 1000, 1, len);
    assert(0 <= q) by (nonlinear_arith)
        requires
            q == (ax * 1000) / len,
            ax >= 0,
            len >= 1,
    ;
    assert(q * len <= ax * 1000) by (nonlinear_arith)
        requires
            q == (ax * 1000) / len,
            ax >= 0,
            len >= 1,
    ;
    assert(q <= 1000) by (nonlinear_arith)
        requires
            q * len <= ax * 1000,
            ax <= len,
            len >= 1,
            q >= 0,
    ;
    let d = div_trunc(x * 1000, len);
    if x >= 0 {
        assert(d == q);
    } else {
        assert(-(x * 1000) == ax * 1000);
        assert(d == -q);
    }
    assert(d * d == q * q) by (nonlinear_arith)
        requires
            d == q || d == -q,
    ;
    assert(q * q * (len * len) <= (ax * 1000) * (ax * 1000)) by (nonlinear_arith)
        requires
            0 <= q * len <= ax * 1000,
    ;
    assert((ax * 1000) * (ax * 1000) == (x * x) * 1_000_000) by (nonlinear_arith)
        requires
            ax * ax == x * x,
    ;
}

/// Collapse a continuous vector onto one of the four unit lattice
/// directions; the y axis wins exact magnitude ties.
pub open spec fn spec_velocity_to_offset(v: V2) -> (i64, i64) {
    if abs_i(v.x as int) > abs_i(v.y as int) {
        if v.x > 0 {
            (1i64, 0i64)
        } else {
            (-1i64, 0i64)
        }
    } else {
        if v.y > 0 {
            (0i64, 1i64)
        } else {
            (0i64, -1i64)
        }
    }
}

#[verifier::when_used_as_spec(spec_velocity_to_offset)]
pub fn velocity_to_offset(v: V2) -> (r: (i64, i64))
    requires
        v2_ok(v),
    ensures
        r == spec_velocity_to_offset(v),
{
    let ax: i64 = if v.x >= 0 { v.x } else { -v.x };
    let ay: i64 = if v.y >= 0 { v.y } else { -v.y };
    if ax > ay {
        if v.x > 0 {
            (1, 0)
        } else {
            (-1, 0)
        }
    } else {
        if v.y > 0 {
            (0, 1)
        } else {
            (0, -1)
        }
    }
}

/// The 4-connected neighbor offsets, in the fixed order +x, +y, -x, -y.
pub open spec fn neighbor_offset(k: int) -> (i64, i64) {
    if k == 0 {
        (1i64, 0i64)
    } else if k == 1 {
        (0i64, 1i64)
    } else if k == 2 {
        (-1i64, 0i64)
    } else {
        (0i64, -1i64)
    }
}

pub fn neighbor_offset_at(k: usize) -> (r: (i64, i64))
    requires
        k < 4,
    ensures
        r == neighbor_offset(k as int),
{
    if k == 0 {
        (1, 0)
    } else if k == 1 {
        (0, 1)
    } else if k == 2 {
        (-1, 0)
    } else {
        (0, -1)
    }
}

/// Exact componentwise negation inside the representable range.
pub open spec fn v2_neg(v: V2) -> V2 {
    V2 { x: neg64(v.x), y: neg64(v.y) }
}

/// The dot product is odd in its right argument.
pub proof fn lemma_dot_neg_right(a: V2, b: V2)
    requires
        v2_ok(a),
        v2_ok(b),
    ensures
        spec_v2_dot(a, v2_neg(b)) == neg64(spec_v2_dot(a, b)),
{
    assert(a.x * (-(b.x as int)) + a.y * (-(b.y as int)) == -(a.x * b.x + a.y * b.y))
        by (nonlinear_arith);
    lemma_div_trunc_odd(a.x * b.x + a.y * b.y, 1000);
    lemma_clamp_odd(div_trunc(a.x * b.x + a.y * b.y, 1000));
}

/// Scaling is odd in the scalar.
pub proof fn lemma_scale_neg(v: V2, s: i64)
    requires
        v2_ok(v),
        fx_ok(s as int),
    ensures
        spec_v2_scale(v, neg64(s)) == v2_neg(spec_v2_scale(v, s)),
{
    lemma_fx_mul_neg_right(v.x, s);
    lemma_fx_mul_neg_right(v.y, s);
}

/// Scaling is odd in the vector.
pub proof fn lemma_scale_neg_vec(v: V2, s: i64)
    requires
        v2_ok(v),
        fx_ok(s as int),
    ensures
        spec_v2_scale(v2_neg(v), s) == v2_neg(spec_v2_scale(v, s)),
{
    lemma_fx_mul_neg_left(v.x, s);
    lemma_fx_mul_neg_left(v.y, s);
}

/// Clamp raw components into range; the constructor for outside values.
pub fn v2_clamped(x: i64, y: i64) -> (r: V2)
    ensures
        r == (V2 { x: fx_clamp(x as int), y: fx_clamp(y as int) }),
        v2_ok(r),
{
    V2 { x: fx_clamp_exec(x), y: fx_clamp_exec(y) }
}

} // verus!
