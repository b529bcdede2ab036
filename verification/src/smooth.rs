//! Smoothing: renormalize the raw iteration count into a continuous value.
//!
//! The standard smooth-coloring identity for quadratic escape-time fractals
//! is `raw + 2 - log10(log10(|z|^2)) / log10(2)`. Over binary logarithms
//! this is `raw + 2 - log2(log2(|z|^2) * log10(2))`, which is what this
//! module computes in fixed point, with `log2` truncated below the
//! sixteenth fractional bit. The nested logarithm is undefined at or below
//! zero; fixed-point arguments that would reach it are clamped to the
//! smallest positive value (one raw unit), so the function is total and the
//! clamp is part of its stated contract.

use vstd::prelude::*;
use crate::fixed::{
    SCALE, fx_mul, fx_mul_spec, log2fx, log2fx_spec, lemma_fx_mul_spec_bound, lemma_flog2_upper,
    lemma_p2_values,
};

verus! {

/// `log10(2)` at scale 2^20, rounded to nearest.
pub const LOG10_OF_2: i64 = 315653;

/// Largest fixed-point squared magnitude accepted by smoothing (2^57).
pub const MAG_BOUND: i64 = 0x200_0000_0000_0000;

/// The smooth iteration value, in fixed point, for an escaped pixel with
/// raw count `raw` and fixed-point squared magnitude `m` at termination.
pub open spec fn smooth_spec(raw: int, m: int) -> int {
    let mc = if m < 1 { 1 } else { m };
    let inner = fx_mul_spec(log2fx_spec(mc), LOG10_OF_2 as int);
    let ic = if inner < 1 { 1 } else { inner };
    raw * (SCALE as int) + 2 * (SCALE as int) - log2fx_spec(ic)
}

/// Compute the smooth iteration value; exactly `smooth_spec`, and never
/// farther than a few units from the raw count.
pub fn smooth_value(raw: u32, m: i64) -> (s: i64)
    requires
        1 <= raw,
        m <= MAG_BOUND,
    ensures
        s == smooth_spec(raw as int, m as int),
        (raw as int) * (SCALE as int) - 9 * (SCALE as int) <= s
            <= (raw as int) * (SCALE as int) + 22 * (SCALE as int),
{
    let mc: i64 = if m < 1 { 1 } else { m };
    let l2: i64 = log2fx(mc as u64);
    proof {
        lemma_fx_mul_spec_bound(l2 as int, LOG10_OF_2 as int, 39 * (SCALE as int));
        assert((39 * (SCALE as int)) * (39 * (SCALE as int)) / (SCALE as int)
            == 1521 * (SCALE as int));
    }
    let inner: i64 = fx_mul(l2, LOG10_OF_2);
    let ic: i64 = if inner < 1 { 1 } else { inner };
    proof {
        lemma_p2_values();
        lemma_flog2_upper(ic as int, 31nat);
    }
    let outer: i64 = log2fx(ic as u64);
    (raw as i64) * SCALE + 2 * SCALE - outer
}

} // verus!
