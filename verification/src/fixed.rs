//! Exact fixed-point arithmetic: the numeric model of the renderer.
//!
//! A real quantity `v` is represented by the integer `v * SCALE` (truncated),
//! with `SCALE = 2^20`. Products truncate toward zero, exactly as a binary
//! fixed-point multiply does, and the spec functions here state that
//! truncation precisely, so every later stage of the pipeline has an exact
//! integer-level contract.

use vstd::prelude::*;
use vstd::arithmetic::div_mod::*;
use vstd::arithmetic::mul::*;

verus! {

/// One unit: the fixed-point encoding of the real number `1.0` (2^20).
pub const SCALE: i64 = 1048576;

/// Largest magnitude accepted by `fx_mul` (2^41): keeps the 128-bit
/// intermediate product and the scaled result comfortably in range.
pub const FX_ARG_BOUND: i64 = 0x200_0000_0000;

/// Magnitude bound on every `fx_mul` result (2^62).
pub const FX_RESULT_BOUND: i64 = 0x4000_0000_0000_0000;

/// Truncating-toward-zero fixed-point product: the exact value of a binary
/// fixed-point multiply of `a` and `b` at scale `SCALE`.
pub open spec fn fx_mul_spec(a: int, b: int) -> int {
    if a * b >= 0 {
        (a * b) / (SCALE as int)
    } else {
        -((-(a * b)) / (SCALE as int))
    }
}

/// Fixed-point multiply; the result is exactly `fx_mul_spec`.
pub fn fx_mul(a: i64, b: i64) -> (r: i64)
    requires
        -FX_ARG_BOUND <= a <= FX_ARG_BOUND,
        -FX_ARG_BOUND <= b <= FX_ARG_BOUND,
    ensures
        r == fx_mul_spec(a as int, b as int),
        -FX_RESULT_BOUND <= r <= FX_RESULT_BOUND,
{
    let neg: bool = (a < 0) != (b < 0);
    let ma: u64 = if a < 0 { (-a) as u64 } else { a as u64 };
    let mb: u64 = if b < 0 { (-b) as u64 } else { b as u64 };
    proof {
        lemma_mul_upper_bound(ma as int, FX_ARG_BOUND as int, mb as int, FX_ARG_BOUND as int);
        lemma_mul_nonnegative(ma as int, mb as int);
    }
    let p: u128 = (ma as u128) * (mb as u128);
    let q: u128 = p / (SCALE as u128);
    proof {
        lemma_div_is_ordered(p as int, FX_ARG_BOUND as int * FX_ARG_BOUND as int, SCALE as int);
        assert(FX_ARG_BOUND as int * FX_ARG_BOUND as int == 0x4_0000_0000_0000_0000_0000 as int);
        assert(0x4_0000_0000_0000_0000_0000 as int / (SCALE as int) == FX_RESULT_BOUND as int);
        lemma_div_pos_is_pos(p as int, SCALE as int);
        if neg {
            lemma_mul_unary_negation(ma as int, mb as int);
            if a < 0 {
                assert((a as int) * (b as int) == -((ma as int) * (mb as int))) by (nonlinear_arith)
                    requires
                        a < 0,
                        b >= 0,
                        ma as int == -(a as int),
                        mb as int == b as int,
                ;
            } else {
                assert((a as int) * (b as int) == -((ma as int) * (mb as int))) by (nonlinear_arith)
                    requires
                        a >= 0,
                        b < 0,
                        ma as int == a as int,
                        mb as int == -(b as int),
                ;
            }
        } else {
            if a < 0 {
                assert((a as int) * (b as int) == (ma as int) * (mb as int)) by (nonlinear_arith)
                    requires
                        a < 0,
                        b < 0,
                        ma as int == -(a as int),
                        mb as int == -(b as int),
                ;
            } else {
                assert((a as int) * (b as int) == (ma as int) * (mb as int)) by (nonlinear_arith)
                    requires
                        a >= 0,
                        b >= 0,
                        ma as int == a as int,
                        mb as int == b as int,
                ;
            }
        }
    }
    let qi: i64 = q as i64;
    if neg {
        proof {
            if p == 0 {
                lemma_div_of0(SCALE as int);
            }
        }
        -qi
    } else {
        qi
    }
}

/// Magnitude bound on a fixed-point product, from magnitude bounds on its
/// factors.
pub proof fn lemma_fx_mul_spec_bound(a: int, b: int, m: int)
    requires
        0 <= m,
        -m <= a <= m,
        -m <= b <= m,
    ensures
        -((m * m) / (SCALE as int)) <= fx_mul_spec(a, b) <= (m * m) / (SCALE as int),
{
    assert(-(m * m) <= a * b <= m * m) by (nonlinear_arith)
        requires
            0 <= m,
            -m <= a <= m,
            -m <= b <= m,
    ;
    if a * b >= 0 {
        lemma_div_is_ordered(a * b, m * m, SCALE as int);
        lemma_div_pos_is_pos(a * b, SCALE as int);
    } else {
        lemma_div_is_ordered(-(a * b), m * m, SCALE as int);
        lemma_div_pos_is_pos(-(a * b), SCALE as int);
    }
}

/// A fixed-point square is never negative.
pub proof fn lemma_fx_square_nonneg(a: int)
    ensures
        0 <= fx_mul_spec(a, a),
{
    assert(0 <= a * a) by (nonlinear_arith);
    lemma_div_pos_is_pos(a * a, SCALE as int);
}

/// Mathematical power of two.
pub open spec fn p2(n: nat) -> int
    decreases n,
{
    if n == 0 {
        1
    } else {
        2 * p2((n - 1) as nat)
    }
}

/// The concrete powers of two that the executable code reasons about.
pub proof fn lemma_p2_values()
    ensures
        p2(16nat) == 0x1_0000,
        p2(21nat) == 0x20_0000,
        p2(31nat) == 0x8000_0000,
        p2(59nat) == 0x800_0000_0000_0000,
        p2(62nat) == 0x4000_0000_0000_0000,
        p2(64nat) == 0x1_0000_0000_0000_0000,
{
    reveal_with_fuel(p2, 65);
}

pub proof fn lemma_p2_pos(n: nat)
    ensures
        p2(n) >= 1,
    decreases n,
{
    if n > 0 {
        lemma_p2_pos((n - 1) as nat);
    }
}

pub proof fn lemma_p2_adds(a: nat, b: nat)
    ensures
        p2(a + b) == p2(a) * p2(b),
    decreases a,
{
    if a == 0 {
    } else {
        lemma_p2_adds((a - 1) as nat, b);
        lemma_mul_is_associative(2, p2((a - 1) as nat), p2(b));
    }
}

pub proof fn lemma_p2_monotone(a: nat, b: nat)
    requires
        a <= b,
    ensures
        p2(a) <= p2(b),
    decreases b,
{
    if a < b {
        lemma_p2_monotone(a, (b - 1) as nat);
        lemma_p2_pos((b - 1) as nat);
    }
}

/// Power of two, executable; exact mirror of `p2`.
pub fn pow2e(n: u32) -> (r: u64)
    requires
        n <= 62,
    ensures
        r == p2(n as nat),
{
    let mut r: u64 = 1;
    let mut i: u32 = 0;
    while i < n
        invariant
            i <= n,
            n <= 62,
            r == p2(i as nat),
        decreases n - i,
    {
        proof {
            lemma_p2_pos(i as nat);
            lemma_p2_monotone((i + 1) as nat, 62nat);
            lemma_p2_values();
        }
        r = r * 2;
        i = i + 1;
    }
    r
}

/// Floor of the binary logarithm (0 for inputs below 2).
pub open spec fn flog2(x: int) -> int
    decreases x,
{
    if x < 2 {
        0
    } else {
        1 + flog2(x / 2)
    }
}

/// `flog2` brackets its argument between consecutive powers of two.
pub proof fn lemma_flog2_bounds(x: int)
    requires
        x >= 1,
    ensures
        0 <= flog2(x),
        p2(flog2(x) as nat) <= x,
        x < p2((flog2(x) + 1) as nat),
    decreases x,
{
    if x < 2 {
    } else {
        lemma_flog2_bounds(x / 2);
        let k = flog2(x / 2);
        lemma_fundamental_div_mod(x, 2);
        lemma_mod_division_less_than_divisor(x, 2);
        assert(p2((k + 1) as nat) == 2 * p2(k as nat));
        assert(p2((k + 2) as nat) == 2 * p2((k + 1) as nat));
    }
}

/// Executable floor-log2, exact against `flog2`.
pub fn floor_log2(x: u64) -> (k: u32)
    requires
        1 <= x,
    ensures
        k == flog2(x as int),
        k <= 63,
        p2(k as nat) <= x,
        x < p2((k + 1) as nat),
{
    let mut t: u64 = x;
    let mut k: u32 = 0;
    proof {
        lemma_div_by_self(1);
    }
    while t >= 2
        invariant
            1 <= t,
            1 <= x,
            k <= 63,
            t as int == x as int / p2(k as nat),
            flog2(x as int) == k + flog2(t as int),
        decreases t,
    {
        proof {
            lemma_p2_pos(k as nat);
            // x >= p2(k) * t >= p2(k) * 2 == p2(k + 1), so k + 1 stays in range.
            lemma_fundamental_div_mod(x as int, p2(k as nat));
            lemma_mod_division_less_than_divisor(x as int, p2(k as nat));
            lemma_mul_inequality(2, t as int, p2(k as nat));
            lemma_mul_is_commutative(t as int, p2(k as nat));
            if k >= 63 {
                lemma_p2_monotone(64nat, (k + 1) as nat);
                lemma_p2_values();
            }
            lemma_div_denominator(x as int, p2(k as nat), 2);
            lemma_mul_is_commutative(p2(k as nat), 2);
        }
        t = t / 2;
        k = k + 1;
    }
    proof {
        lemma_p2_pos(k as nat);
        lemma_fundamental_div_mod(x as int, p2(k as nat));
        lemma_mod_division_less_than_divisor(x as int, p2(k as nat));
        lemma_mul_basics(p2(k as nat));
        assert(p2((k + 1) as nat) == 2 * p2(k as nat));
    }
    k
}

/// One truncated fractional-bit extraction round of the binary logarithm:
/// `n` rounds of squaring the normalized mantissa yield the top `n`
/// fractional bits of `log2`.
pub open spec fn frac_rec(y: int, n: nat) -> int
    decreases n,
{
    if n == 0 {
        0
    } else {
        let y2 = (y * y) / (SCALE as int);
        if y2 >= 2 * (SCALE as int) {
            p2((n - 1) as nat) + frac_rec(y2 / 2, (n - 1) as nat)
        } else {
            frac_rec(y2, (n - 1) as nat)
        }
    }
}

/// Executable fractional-bit extraction, exact against `frac_rec`.
pub fn frac_bits(y: u64, n: u32) -> (r: u64)
    requires
        y < 2097152,
        n <= 16,
    ensures
        r == frac_rec(y as int, n as nat),
        r < p2(n as nat),
    decreases n,
{
    proof {
        lemma_p2_pos(n as nat);
    }
    if n == 0 {
        0
    } else {
        proof {
            lemma_mul_upper_bound(y as int, 2097151, y as int, 2097151);
            lemma_div_is_ordered(y as int * y as int, 2097151int * 2097151int, SCALE as int);
            lemma_div_pos_is_pos(y as int * y as int, SCALE as int);
            lemma_mul_nonnegative(y as int, y as int);
            assert(2097151int * 2097151int == 4398042316801) by (nonlinear_arith);
            assert(4398042316801int / (SCALE as int) == 4194300);
        }
        let y2: u64 = (y * y) / (SCALE as u64);
        if y2 >= 2 * (SCALE as u64) {
            let b: u64 = frac_bits(y2 / 2, n - 1);
            let hi: u64 = pow2e(n - 1);
            proof {
                lemma_p2_monotone(n as nat, 16nat);
                lemma_p2_values();
                assert(p2(n as nat) == 2 * p2((n - 1) as nat));
            }
            hi + b
        } else {
            frac_bits(y2, n - 1)
        }
    }
}

/// The mantissa of `x` normalized into `[SCALE, 2 * SCALE)` by a power of
/// two (the defined value is only meaningful for `x >= 1`).
pub open spec fn log2fx_norm(x: int) -> int {
    let k = flog2(x);
    if k <= 20 {
        x * p2((20 - k) as nat)
    } else {
        x / p2((k - 20) as nat)
    }
}

/// Fixed-point binary logarithm: integer part from `flog2`, 16 fractional
/// bits from `frac_rec` on the normalized mantissa.
pub open spec fn log2fx_spec(x: int) -> int {
    (flog2(x) - 20) * (SCALE as int) + frac_rec(log2fx_norm(x), 16) * 16
}

/// Executable fixed-point binary logarithm, exact against `log2fx_spec`.
/// The argument is a fixed-point value at scale `SCALE`, so the result is
/// `log2` of `x / SCALE`, again at scale `SCALE`, truncated below the
/// sixteenth fractional bit.
pub fn log2fx(x: u64) -> (r: i64)
    requires
        1 <= x <= 0x400_0000_0000_0000,
    ensures
        r == log2fx_spec(x as int),
        -20 * SCALE <= r < 39 * SCALE,
        (flog2(x as int) - 20) * (SCALE as int) <= r < (flog2(x as int) - 19) * (SCALE as int),
{
    let k: u32 = floor_log2(x);
    proof {
        if k > 58 {
            lemma_p2_monotone(59nat, k as nat);
            lemma_p2_values();
        }
    }
    let y: u64 = if k <= 20 {
        proof {
            lemma_p2_pos((20 - k) as nat);
            lemma_mul_strict_inequality(x as int, p2((k + 1) as nat), p2((20 - k) as nat));
            lemma_p2_adds((k + 1) as nat, (20 - k) as nat);
            lemma_mul_nonnegative(x as int, p2((20 - k) as nat));
            lemma_p2_values();
        }
        x * pow2e(20 - k)
    } else {
        proof {
            let d = p2((k - 20) as nat);
            lemma_p2_pos((k - 20) as nat);
            lemma_div_pos_is_pos(x as int, d);
            if x as int / d >= 2097152 {
                lemma_fundamental_div_mod(x as int, d);
                lemma_mod_division_less_than_divisor(x as int, d);
                lemma_mul_inequality(2097152, x as int / d, d);
                lemma_mul_is_commutative(x as int / d, d);
                lemma_p2_adds((k - 20) as nat, 21nat);
                lemma_p2_values();
                lemma_mul_is_commutative(d, 2097152);
                lemma_p2_monotone((k + 1) as nat, (k - 20 + 21) as nat);
            }
        }
        x / pow2e(k - 20)
    };
    let f: u64 = frac_bits(y, 16);
    proof {
        lemma_p2_values();
        lemma_frac_rec_bounds(y as int, 16nat);
    }
    ((k as i64) - 20) * SCALE + (f as i64) * 16
}

/// The extracted fractional bits always form a value in `[0, 2^n)`.
pub proof fn lemma_frac_rec_bounds(y: int, n: nat)
    ensures
        0 <= frac_rec(y, n) < p2(n),
    decreases n,
{
    if n > 0 {
        let y2 = (y * y) / (SCALE as int);
        if y2 >= 2 * (SCALE as int) {
            lemma_frac_rec_bounds(y2 / 2, (n - 1) as nat);
            lemma_p2_pos((n - 1) as nat);
        } else {
            lemma_frac_rec_bounds(y2, (n - 1) as nat);
            lemma_p2_pos((n - 1) as nat);
        }
    }
}

/// `flog2` never reaches `b` while its argument stays under `p2(b)`.
pub proof fn lemma_flog2_upper(x: int, b: nat)
    requires
        1 <= x,
        x < p2(b),
    ensures
        flog2(x) < b,
{
    lemma_flog2_bounds(x);
    if flog2(x) >= b {
        lemma_p2_monotone(b, flog2(x) as nat);
    }
}

} // verus!
