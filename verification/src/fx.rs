//! Saturating fixed-point scalars.
//!
//! A scalar is an `i64` counting ticks of 1/1000 of a unit. Every operation
//! clamps its result into `[-FX_MAX, FX_MAX]`, so arithmetic is total and
//! never overflows.

use vstd::prelude::*;

verus! {

/// One whole unit, in ticks.
pub const FX_ONE: i64 = 1000;

/// One whole unit squared, in raw tick products.
pub const FX_ONE_SQ: i64 = 1_000_000;

/// Largest representable magnitude; results saturate here.
pub const FX_MAX: i64 = 2_000_000_000;

/// Smallest representable value.
pub const FX_MIN: i64 = -2_000_000_000;

/// The scalar lies in the representable range.
pub open spec fn fx_ok(a: int) -> bool {
    -2_000_000_000 <= a <= 2_000_000_000
}

/// Saturate an unbounded result into the representable range.
pub open spec fn fx_clamp(a: int) -> i64 {
    if a > 2_000_000_000 {
        2_000_000_000i64
    } else if a < -2_000_000_000 {
        -2_000_000_000i64
    } else {
        a as i64
    }
}

/// Division rounding toward zero, for a positive divisor.
pub open spec fn div_trunc(n: int, d: int) -> int {
    if n >= 0 {
        n / d
    } else {
        -((-n) / d)
    }
}

/// Saturating sum of two scalars.
pub open spec fn spec_fx_add(a: i64, b: i64) -> i64 {
    fx_clamp(a + b)
}

/// Saturating difference of two scalars.
pub open spec fn spec_fx_sub(a: i64, b: i64) -> i64 {
    fx_clamp(a - b)
}

/// Saturating fixed-point product: `a * b / FX_ONE`, rounded toward zero.
pub open spec fn spec_fx_mul(a: i64, b: i64) -> i64 {
    fx_clamp(div_trunc(a * b, 1000))
}

/// Saturating fixed-point quotient: `a * FX_ONE / b`, rounded toward zero.
pub open spec fn spec_fx_div(a: i64, b: i64) -> i64 {
    fx_clamp(div_trunc(a * 1000, b as int))
}

/// Saturate a raw `i64` into the representable range.
pub fn fx_clamp_exec(a: i64) -> (r: i64)
    ensures
        r == fx_clamp(a as int),
{
    if a > FX_MAX {
        FX_MAX
    } else if a < FX_MIN {
        FX_MIN
    } else {
        a
    }
}

/// Division rounding toward zero, computed on magnitudes.
pub fn div_trunc_exec(n: i64, d: i64) -> (r: i64)
    requires
        d >= 1,
        n > i64::MIN,
    ensures
        r as int == div_trunc(n as int, d as int),
{
    if n >= 0 {
        ((n as u64) / (d as u64)) as i64
    } else {
        let m: u64 = ((-n) as u64) / (d as u64);
        -(m as i64)
    }
}

#[verifier::when_used_as_spec(spec_fx_add)]
pub fn fx_add(a: i64, b: i64) -> (r: i64)
    requires
        fx_ok(a as int),
        fx_ok(b as int),
    ensures
        r == spec_fx_add(a, b),
        fx_ok(r as int),
{
    fx_clamp_exec(a + b)
}

#[verifier::when_used_as_spec(spec_fx_sub)]
pub fn fx_sub(a: i64, b: i64) -> (r: i64)
    requires
        fx_ok(a as int),
        fx_ok(b as int),
    ensures
        r == spec_fx_sub(a, b),
        fx_ok(r as int),
{
    fx_clamp_exec(a - b)
}

#[verifier::when_used_as_spec(spec_fx_mul)]
pub fn fx_mul(a: i64, b: i64) -> (r: i64)
    requires
        fx_ok(a as int),
        fx_ok(b as int),
    ensures
        r == spec_fx_mul(a, b),
        fx_ok(r as int),
{
    assert(-4_000_000_000_000_000_000 <= a * b <= 4_000_000_000_000_000_000) by (nonlinear_arith)
        requires
            -2_000_000_000 <= a <= 2_000_000_000,
            -2_000_000_000 <= b <= 2_000_000_000,
    ;
    let p: i64 = a * b;
    fx_clamp_exec(div_trunc_exec(p, FX_ONE))
}

#[verifier::when_used_as_spec(spec_fx_div)]
pub fn fx_div(a: i64, b: i64) -> (r: i64)
    requires
        fx_ok(a as int),
        1 <= b,
    ensures
        r == spec_fx_div(a, b),
        fx_ok(r as int),
{
    let p: i64 = a * FX_ONE;
    fx_clamp_exec(div_trunc_exec(p, b))
}

/// Exact negation inside the representable range.
pub open spec fn neg64(a: i64) -> i64 {
    (-(a as int)) as i64
}

/// Saturation is an odd function: it commutes with negation.
pub proof fn lemma_clamp_odd(z: int)
    ensures
        fx_clamp(-z) == neg64(fx_clamp(z)),
{
}

/// Truncating division is an odd function of its numerator.
pub proof fn lemma_div_trunc_odd(n: int, d: int)
    requires
        d >= 1,
    ensures
        div_trunc(-n, d) == -div_trunc(n, d),
{
}

/// The fixed-point product is odd in its left factor.
pub proof fn lemma_fx_mul_neg_left(a: i64, b: i64)
    requires
        fx_ok(a as int),
    ensures
        spec_fx_mul(neg64(a), b) == neg64(spec_fx_mul(a, b)),
{
    assert((-(a as int)) * b == -(a * b)) by (nonlinear_arith);
    lemma_div_trunc_odd(a * b, 1000);
    lemma_clamp_odd(div_trunc(a * b, 1000));
}

/// The fixed-point product is odd in its right factor.
pub proof fn lemma_fx_mul_neg_right(a: i64, b: i64)
    requires
        fx_ok(b as int),
    ensures
        spec_fx_mul(a, neg64(b)) == neg64(spec_fx_mul(a, b)),
{
    assert(a * (-(b as int)) == -(a * b)) by (nonlinear_arith);
    lemma_div_trunc_odd(a * b, 1000);
    lemma_clamp_odd(div_trunc(a * b, 1000));
}

/// The integer square root: the largest `r` with `r * r <= n`.
pub open spec fn spec_isqrt(n: nat) -> nat
    decreases n,
{
    if n == 0 {
        0
    } else {
        let r = spec_isqrt((n - 1) as nat);
        if (r + 1) * (r + 1) <= n {
            r + 1
        } else {
            r
        }
    }
}

/// The integer square root is bracketed by the two neighboring squares.
pub proof fn lemma_isqrt_bounds(n: nat)
    ensures
        spec_isqrt(n) * spec_isqrt(n) <= n,
        n < (spec_isqrt(n) + 1) * (spec_isqrt(n) + 1),
    decreases n,
{
    if n > 0 {
        lemma_isqrt_bounds((n - 1) as nat);
        let r = spec_isqrt((n - 1) as nat);
        if (r + 1) * (r + 1) <= n {
            assert(spec_isqrt(n) == r + 1);
            assert(n < (r + 2) * (r + 2)) by (nonlinear_arith)
                requires
                    n <= (r + 1) * (r + 1),
            ;
            assert((spec_isqrt(n) + 1) * (spec_isqrt(n) + 1) == (r + 2) * (r + 2));
            assert(n < (spec_isqrt(n) + 1) * (spec_isqrt(n) + 1));
        } else {
            assert(spec_isqrt(n) == r);
            assert(r * r <= n - 1 <= n);
            assert(n < (spec_isqrt(n) + 1) * (spec_isqrt(n) + 1));
        }
    } else {
        assert(spec_isqrt(0) == 0);
        assert(n < (spec_isqrt(n) + 1) * (spec_isqrt(n) + 1)) by (nonlinear_arith)
            requires
                n == 0,
                spec_isqrt(n) == 0,
        ;
    }
}

/// Any integer bracketed by the squares around it is the integer square root.
pub proof fn lemma_isqrt_unique(n: nat, r: nat)
    requires
        r * r <= n,
        n < (r + 1) * (r + 1),
    ensures
        r == spec_isqrt(n),
{
    lemma_isqrt_bounds(n);
    let s = spec_isqrt(n);
    assert(r == s) by (nonlinear_arith)
        requires
            r * r <= n,
            n < (r + 1) * (r + 1),
            s * s <= n,
            n < (s + 1) * (s + 1),
    ;
}

/// Binary search for the integer square root.
pub fn isqrt(n: u64) -> (r: u64)
    requires
        n <= 8_000_000_000_000_000_000,
    ensures
        r == spec_isqrt(n as nat),
        r <= 3_000_000_000,
{
    let mut lo: u64 = 0;
    let mut hi: u64 = 3_000_000_000;
    assert(3_000_000_000u64 * 3_000_000_000u64 > 8_000_000_000_000_000_000) by (nonlinear_arith);
    while hi - lo > 1
        invariant
            lo < hi <= 3_000_000_000,
            lo * lo <= n,
            n < hi * hi,
        decreases hi - lo,
    {
        let mid: u64 = lo + (hi - lo) / 2;
        assert(mid * mid <= 9_000_000_000_000_000_000) by (nonlinear_arith)
            requires
                mid <= 3_000_000_000,
        ;
        if mid * mid <= n {
            lo = mid;
        } else {
            hi = mid;
        }
    }
    proof {
        assert(n < (lo + 1) * (lo + 1));
        lemma_isqrt_unique(n as nat, lo as nat);
    }
    lo
}

} // verus!
