//! Fixed-point arithmetic on effort values.
//!
//! Effort (hours) and dimensionless ratios (velocity, buffer) are both
//! carried as unsigned integers scaled by [`SCALE`]: one unit is a
//! thousandth of an hour, and a ratio of `1.0` is stored as `SCALE`.
//! Every operation states its exact integer result; an operation whose
//! mathematical result does not fit in `u64` reports `None` rather than
//! wrapping.

use vstd::prelude::*;

verus! {

/// Number of stored units per whole hour (and per `1.0` of a ratio).
pub const SCALE: u64 = 1000;

/// The ratio `e / a`, rounded up to the nearest representable unit.
///
/// Rounding up keeps the ratio of two positive quantities strictly
/// positive, however small the numerator.
pub open spec fn ratio_ceil_spec(e: int, a: int) -> int {
    (e * (SCALE as int) + a - 1) / a
}

/// The ratio `n / d`, rounded down.
pub open spec fn ratio_floor_spec(n: int, d: int) -> int {
    (n * (SCALE as int)) / d
}

/// An effort `e` divided by a fixed-point ratio `v`, rounded down.
pub open spec fn div_ratio_spec(e: int, v: int) -> int {
    (e * (SCALE as int)) / v
}

/// An effort `t` multiplied by a fixed-point ratio `b`, rounded down.
pub open spec fn mul_ratio_spec(t: int, b: int) -> int {
    (t * b) / (SCALE as int)
}

/// The product of two `u64` values fits comfortably inside a `u128`.
proof fn lemma_u64_product_fits(x: u64, y: u64)
    ensures
        (x as int) * (y as int) <= (u64::MAX as int) * (u64::MAX as int),
        (x as int) * (y as int) < u128::MAX - u64::MAX,
{
    vstd::arithmetic::mul::lemma_mul_upper_bound(
        x as int,
        u64::MAX as int,
        y as int,
        u64::MAX as int,
    );
}

/// Computes `ratio_ceil_spec` exactly, reporting overflow.
pub fn ratio_ceil(e: u64, a: u64) -> (r: Option<u64>)
    requires
        a > 0,
    ensures
        r is Some <==> ratio_ceil_spec(e as int, a as int) <= u64::MAX,
        r is Some ==> r->Some_0 == ratio_ceil_spec(e as int, a as int),
{
    proof {
        lemma_u64_product_fits(e, SCALE);
    }
    let wide: u128 = ((e as u128) * (SCALE as u128) + (a as u128) - 1) / (a as u128);
    if wide <= u64::MAX as u128 {
        Some(wide as u64)
    } else {
        None
    }
}

/// Computes `ratio_floor_spec` exactly, reporting overflow.
pub fn ratio_floor(n: u64, d: u64) -> (r: Option<u64>)
    requires
        d > 0,
    ensures
        r is Some <==> ratio_floor_spec(n as int, d as int) <= u64::MAX,
        r is Some ==> r->Some_0 == ratio_floor_spec(n as int, d as int),
{
    let wide: u128 = ((n as u128) * (SCALE as u128)) / (d as u128);
    if wide <= u64::MAX as u128 {
        Some(wide as u64)
    } else {
        None
    }
}

/// Computes `div_ratio_spec` exactly, reporting overflow.
pub fn div_ratio(e: u64, v: u64) -> (r: Option<u64>)
    requires
        v > 0,
    ensures
        r is Some <==> div_ratio_spec(e as int, v as int) <= u64::MAX,
        r is Some ==> r->Some_0 == div_ratio_spec(e as int, v as int),
{
    let wide: u128 = ((e as u128) * (SCALE as u128)) / (v as u128);
    if wide <= u64::MAX as u128 {
        Some(wide as u64)
    } else {
        None
    }
}

/// Computes `mul_ratio_spec` exactly, reporting overflow.
pub fn mul_ratio(t: u64, b: u64) -> (r: Option<u64>)
    ensures
        r is Some <==> mul_ratio_spec(t as int, b as int) <= u64::MAX,
        r is Some ==> r->Some_0 == mul_ratio_spec(t as int, b as int),
{
    proof {
        lemma_u64_product_fits(t, b);
    }
    let wide: u128 = ((t as u128) * (b as u128)) / (SCALE as u128);
    if wide <= u64::MAX as u128 {
        Some(wide as u64)
    } else {
        None
    }
}

} // verus!
