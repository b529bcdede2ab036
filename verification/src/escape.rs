//! Escape-time evaluator: iterate `z -> z^2 + c` until the magnitude passes
//! the radius or the iteration cap is reached.
//!
//! The recurrence runs on fixed-point values. The escape test compares raw
//! products (`zx*zx + zy*zy > r*r`), which is scale-exact: no truncation is
//! involved in the comparison itself.

use vstd::prelude::*;
use vstd::arithmetic::mul::*;
use crate::fixed::{SCALE, fx_mul, fx_mul_spec, lemma_fx_mul_spec_bound, lemma_fx_square_nonneg};

verus! {

/// Largest radius the evaluator accepts (2^28, i.e. 256.0 at scale 2^20).
pub const RADIUS_BOUND: i64 = 0x1000_0000;

/// Largest magnitude of either component of the constant `c` (2^28).
pub const CENTER_BOUND: i64 = 0x1000_0000;

/// Magnitude bound on the components of `z` at loop termination (2^38).
pub const FINAL_BOUND: i64 = 0x40_0000_0000;

/// Per-pixel outcome of the escape-time loop.
#[derive(Clone, Copy, PartialEq, Eq, Structural, Debug)]
pub struct PixelResult {
    /// Number of recurrence steps actually performed (1-based).
    pub raw_iterations: u32,
    /// True when the loop stopped because the magnitude passed the radius,
    /// false when it stopped by reaching the iteration cap.
    pub escaped: bool,
    /// Real part of `z` at termination, fixed point.
    pub final_re: i64,
    /// Imaginary part of `z` at termination, fixed point.
    pub final_im: i64,
}

/// Real part of one recurrence step `z -> z^2 + c`.
pub open spec fn step_re(zx: int, zy: int, cx: int) -> int {
    fx_mul_spec(zx, zx) - fx_mul_spec(zy, zy) + cx
}

/// Imaginary part of one recurrence step `z -> z^2 + c`.
pub open spec fn step_im(zx: int, zy: int, cy: int) -> int {
    2 * fx_mul_spec(zx, zy) + cy
}

/// The escape condition: squared magnitude beyond squared radius, compared
/// on raw products.
pub open spec fn escapes(zx: int, zy: int, r: int) -> bool {
    zx * zx + zy * zy > r * r
}

/// Loop state at termination — (iterations, escaped, final re, final im) —
/// when iteration starts from `z = (zx, zy)` with `i` steps already taken.
/// The counter increments after each step and before the check, so the
/// returned count is 1-based and termination by cap happens at `max_it`.
pub open spec fn escape_from(
    cx: int,
    cy: int,
    r: int,
    max_it: int,
    zx: int,
    zy: int,
    i: int,
) -> (int, bool, int, int)
    decreases max_it - i,
{
    let nx = step_re(zx, zy, cx);
    let ny = step_im(zx, zy, cy);
    if escapes(nx, ny, r) {
        (i + 1, true, nx, ny)
    } else if i + 1 >= max_it {
        (i + 1, false, nx, ny)
    } else {
        escape_from(cx, cy, r, max_it, nx, ny, i + 1)
    }
}

/// The loop always performs at least one step and never more than the cap:
/// its count lands strictly above the steps already taken and at most at
/// `max_it`.
pub proof fn lemma_escape_bounded(
    cx: int,
    cy: int,
    r: int,
    max_it: int,
    zx: int,
    zy: int,
    i: int,
)
    requires
        0 <= i < max_it,
    ensures
        i < escape_from(cx, cy, r, max_it, zx, zy, i).0 <= max_it,
    decreases max_it - i,
{
    let nx = step_re(zx, zy, cx);
    let ny = step_im(zx, zy, cy);
    if !escapes(nx, ny, r) && i + 1 < max_it {
        lemma_escape_bounded(cx, cy, r, max_it, nx, ny, i + 1);
    }
}

/// Run the escape-time loop from the starting point `(zx0, zy0)`.
/// The result is exactly `escape_from` applied to the inputs, with the
/// count in `[1, max_it]` and the final components bounded.
pub fn escape_time(cx: i64, cy: i64, r: i64, max_it: u32, zx0: i64, zy0: i64) -> (p: PixelResult)
    requires
        1 <= max_it,
        0 < r <= RADIUS_BOUND,
        -CENTER_BOUND <= cx <= CENTER_BOUND,
        -CENTER_BOUND <= cy <= CENTER_BOUND,
        (zx0 as int) * (zx0 as int) + (zy0 as int) * (zy0 as int) <= (r as int) * (r as int),
    ensures
        (p.raw_iterations as int, p.escaped, p.final_re as int, p.final_im as int)
            == escape_from(cx as int, cy as int, r as int, max_it as int, zx0 as int, zy0 as int, 0),
        1 <= p.raw_iterations <= max_it,
        -FINAL_BOUND <= p.final_re <= FINAL_BOUND,
        -FINAL_BOUND <= p.final_im <= FINAL_BOUND,
{
    let mut zx: i64 = zx0;
    let mut zy: i64 = zy0;
    let mut i: u32 = 0;
    let mut escaped: bool = false;
    loop
        invariant_except_break
            !escaped,
            0 <= i < max_it,
            0 < r <= RADIUS_BOUND,
            -CENTER_BOUND <= cx <= CENTER_BOUND,
            -CENTER_BOUND <= cy <= CENTER_BOUND,
            (zx as int) * (zx as int) + (zy as int) * (zy as int) <= (r as int) * (r as int),
            escape_from(cx as int, cy as int, r as int, max_it as int, zx0 as int, zy0 as int, 0)
                == escape_from(cx as int, cy as int, r as int, max_it as int, zx as int, zy as int, i as int),
        ensures
            1 <= i <= max_it,
            -FINAL_BOUND <= zx <= FINAL_BOUND,
            -FINAL_BOUND <= zy <= FINAL_BOUND,
            (i as int, escaped, zx as int, zy as int)
                == escape_from(cx as int, cy as int, r as int, max_it as int, zx0 as int, zy0 as int, 0),
        decreases max_it - i,
    {
        proof {
            // Component bounds follow from the magnitude invariant.
            assert(-(r as int) <= zx as int <= r as int && -(r as int) <= zy as int <= r as int)
                by (nonlinear_arith)
                requires
                    0 < r,
                    (zx as int) * (zx as int) + (zy as int) * (zy as int)
                        <= (r as int) * (r as int),
            ;
            lemma_fx_mul_spec_bound(zx as int, zx as int, r as int);
            lemma_fx_mul_spec_bound(zy as int, zy as int, r as int);
            lemma_fx_mul_spec_bound(zx as int, zy as int, r as int);
            lemma_fx_square_nonneg(zx as int);
            lemma_fx_square_nonneg(zy as int);
            lemma_mul_upper_bound(r as int, RADIUS_BOUND as int, r as int, RADIUS_BOUND as int);
            assert(RADIUS_BOUND as int * RADIUS_BOUND as int == 0x100_0000_0000_0000);
            assert(0x100_0000_0000_0000int / (SCALE as int) == 0x10_0000_0000);
            lemma_div_ordered_helper(r as int);
        }
        let sq_x: i64 = fx_mul(zx, zx);
        let sq_y: i64 = fx_mul(zy, zy);
        let cross: i64 = fx_mul(zx, zy);
        let xtemp: i64 = sq_x - sq_y;
        let nzy: i64 = 2 * cross + cy;
        let nzx: i64 = xtemp + cx;
        i = i + 1;
        proof {
            assert((nzx as i128) as int == nzx as int);
            assert((nzx as int) * (nzx as int) <= 0x4000_0000_0000_0000_0000int
                && (nzy as int) * (nzy as int) <= 0x4000_0000_0000_0000_0000int)
                by (nonlinear_arith)
                requires
                    -FINAL_BOUND <= nzx <= FINAL_BOUND,
                    -FINAL_BOUND <= nzy <= FINAL_BOUND,
                    FINAL_BOUND == 0x40_0000_0000i64,
            ;
            assert(0 <= (nzx as int) * (nzx as int) && 0 <= (nzy as int) * (nzy as int))
                by (nonlinear_arith);
        }
        let mag2: i128 = (nzx as i128) * (nzx as i128) + (nzy as i128) * (nzy as i128);
        let rr: i128 = (r as i128) * (r as i128);
        zx = nzx;
        zy = nzy;
        if mag2 > rr {
            escaped = true;
            break;
        }
        if i == max_it {
            break;
        }
    }
    PixelResult { raw_iterations: i, escaped, final_re: zx, final_im: zy }
}

/// The squared radius, scaled down, stays below the final-component budget.
proof fn lemma_div_ordered_helper(r: int)
    requires
        0 < r <= RADIUS_BOUND as int,
    ensures
        (r * r) / (SCALE as int) <= 0x10_0000_0000,
{
    vstd::arithmetic::mul::lemma_mul_upper_bound(r, RADIUS_BOUND as int, r, RADIUS_BOUND as int);
    vstd::arithmetic::div_mod::lemma_div_is_ordered(
        r * r,
        RADIUS_BOUND as int * RADIUS_BOUND as int,
        SCALE as int,
    );
    assert(RADIUS_BOUND as int * RADIUS_BOUND as int == 0x100_0000_0000_0000);
    assert(0x100_0000_0000_0000int / (SCALE as int) == 0x10_0000_0000);
}

} // verus!
