//! Color mapper: smooth value (or the bounded sentinel) to an 8-bit color.
//!
//! Bounded pixels (not escaped) are pure black. Escaped pixels are colored
//! from their smooth value: either inverted grayscale, or a hue-based
//! scheme that walks the standard six HSV sectors at full saturation and
//! value and then inverts each channel, so both schemes are dark where the
//! escape is fast.

use vstd::prelude::*;
use vstd::arithmetic::div_mod::{
    lemma_div_is_ordered, lemma_div_pos_is_pos, lemma_fundamental_div_mod,
    lemma_mod_division_less_than_divisor, lemma_mod_multiples_vanish,
};
use vstd::arithmetic::mul::{lemma_mul_strictly_positive, lemma_mul_unary_negation};
use crate::fixed::{SCALE, fx_mul, fx_mul_spec};
use crate::smooth::{MAG_BOUND, smooth_spec, smooth_value};

verus! {

/// Choice of color schemes.
#[derive(Copy, Clone, Debug, PartialEq, Eq, Structural)]
pub enum ColorOption {
    BlackWhite,
    Hsv,
}

/// An 8-bit RGB color.
#[derive(Copy, Clone, Debug, PartialEq, Eq, Structural)]
pub struct Rgb {
    pub red: u8,
    pub green: u8,
    pub blue: u8,
}

/// A full hue turn (360 degrees) in fixed point.
pub const DEG_FULL: i64 = 360 * SCALE;

/// One hue sector (60 degrees) in fixed point.
pub const DEG_SECTOR: i64 = 60 * SCALE;

/// Largest iteration cap the color stages accept (2^20): keeps the scaled
/// smooth value inside the fixed-point multiplier's domain.
pub const MAX_IT_BOUND: u32 = 0x10_0000;

/// Largest color-scale multiplier accepted (2^30, i.e. 1024.0).
pub const COLOR_SCALE_BOUND: i64 = 0x4000_0000;

/// Inverted grayscale intensity: `255 * smooth / max_it`, truncated and
/// saturated into `[0, 255]` (negative smooth values floor at zero).
pub open spec fn gray_level_spec(s: int, max_it: int) -> int {
    if s < 0 {
        0
    } else {
        let t = (255 * s) / (max_it * (SCALE as int));
        if t > 255 {
            255
        } else {
            t
        }
    }
}

/// Grayscale color: the inverted intensity on all three channels.
pub open spec fn gray_rgb_spec(s: int, max_it: int) -> Rgb {
    let t = gray_level_spec(s, max_it);
    Rgb { red: (255 - t) as u8, green: (255 - t) as u8, blue: (255 - t) as u8 }
}

/// The hue wrapped into `[0, 360)` degrees (Euclidean remainder).
pub open spec fn hue_wrap_spec(h: int) -> int {
    h % (DEG_FULL as int)
}

/// The three HSV channels (saturation and value both 1) for a hue, each in
/// `[0, SCALE]`: the standard six-sector walk with a linear ramp inside
/// each sector.
pub open spec fn hue_channels_spec(h: int) -> (int, int, int) {
    let hm = hue_wrap_spec(h);
    let sector = hm / (DEG_SECTOR as int);
    let f = (hm % (DEG_SECTOR as int)) / 60;
    if sector == 0 {
        ((SCALE as int), f, 0)
    } else if sector == 1 {
        ((SCALE as int) - f, (SCALE as int), 0)
    } else if sector == 2 {
        (0, (SCALE as int), f)
    } else if sector == 3 {
        (0, (SCALE as int) - f, (SCALE as int))
    } else if sector == 4 {
        (f, 0, (SCALE as int))
    } else {
        ((SCALE as int), 0, (SCALE as int) - f)
    }
}

/// An inverted 8-bit channel: `255 * (1 - c)` truncated, for `c` in
/// `[0, SCALE]`.
pub open spec fn invert_channel_spec(c: int) -> int {
    (255 * ((SCALE as int) - c)) / (SCALE as int)
}

/// Hue-based color: HSV at full saturation and value, channels inverted.
pub open spec fn hsv_rgb_spec(h: int) -> Rgb {
    let chans = hue_channels_spec(h);
    Rgb {
        red: invert_channel_spec(chans.0) as u8,
        green: invert_channel_spec(chans.1) as u8,
        blue: invert_channel_spec(chans.2) as u8,
    }
}

/// The color of one pixel: black for bounded points, otherwise the smooth
/// value drives the configured scheme (scaled by `color_scale` under Hsv).
pub open spec fn pixel_color_spec(
    raw: int,
    escaped: bool,
    m: int,
    max_it: int,
    scheme: ColorOption,
    color_scale: int,
) -> Rgb {
    if !escaped {
        Rgb { red: 0, green: 0, blue: 0 }
    } else {
        let s = smooth_spec(raw, m);
        match scheme {
            ColorOption::BlackWhite => gray_rgb_spec(s, max_it),
            ColorOption::Hsv => hsv_rgb_spec(fx_mul_spec(s, color_scale)),
        }
    }
}

/// Grayscale mapping, exact against `gray_rgb_spec`.
pub fn gray_color(s: i64, max_it: u32) -> (c: Rgb)
    requires
        1 <= max_it <= MAX_IT_BOUND,
    ensures
        c == gray_rgb_spec(s as int, max_it as int),
{
    if s < 0 {
        Rgb { red: 255, green: 255, blue: 255 }
    } else {
        proof {
            lemma_mul_strictly_positive(max_it as int, SCALE as int);
            lemma_div_pos_is_pos(255 * (s as int), (max_it as int) * (SCALE as int));
        }
        let den: u128 = (max_it as u128) * (SCALE as u128);
        let t128: u128 = (255u128 * (s as u128)) / den;
        let t: u8 = if t128 > 255 { 255 } else { t128 as u8 };
        Rgb { red: 255 - t, green: 255 - t, blue: 255 - t }
    }
}

/// Raising the smooth value never brightens a grayscale pixel: each channel
/// is non-increasing in the smooth value, at a fixed iteration cap.
pub proof fn lemma_gray_monotone(s1: int, s2: int, max_it: int)
    requires
        s1 <= s2,
        1 <= max_it,
    ensures
        gray_rgb_spec(s2, max_it).red <= gray_rgb_spec(s1, max_it).red,
        gray_rgb_spec(s2, max_it).green <= gray_rgb_spec(s1, max_it).green,
        gray_rgb_spec(s2, max_it).blue <= gray_rgb_spec(s1, max_it).blue,
{
    lemma_mul_strictly_positive(max_it, SCALE as int);
    let den = max_it * (SCALE as int);
    if 0 <= s1 {
        lemma_div_is_ordered(255 * s1, 255 * s2, den);
        lemma_div_pos_is_pos(255 * s1, den);
        lemma_div_pos_is_pos(255 * s2, den);
    } else if 0 <= s2 {
        lemma_div_pos_is_pos(255 * s2, den);
    }
}

/// Hue-based mapping, exact against `hsv_rgb_spec`.
pub fn hsv_color(h: i64) -> (c: Rgb)
    ensures
        c == hsv_rgb_spec(h as int),
{
    let hm: i64 = if h >= 0 {
        ((h as u64) % (DEG_FULL as u64)) as i64
    } else {
        let mag: u64 = (-(h as i128)) as u64;
        let rem: u64 = mag % (DEG_FULL as u64);
        proof {
            lemma_mod_negated(mag as int, DEG_FULL as int);
        }
        if rem == 0 {
            0
        } else {
            DEG_FULL - (rem as i64)
        }
    };
    proof {
        lemma_mod_division_less_than_divisor(h as int, DEG_FULL as int);
        lemma_div_pos_is_pos(hm as int, DEG_SECTOR as int);
        lemma_mod_division_less_than_divisor(hm as int, DEG_SECTOR as int);
        // At most five full sectors fit below a full turn.
        lemma_fundamental_div_mod(hm as int, DEG_SECTOR as int);
        if hm as int / (DEG_SECTOR as int) >= 6 {
            vstd::arithmetic::mul::lemma_mul_inequality(
                6,
                hm as int / (DEG_SECTOR as int),
                DEG_SECTOR as int,
            );
            vstd::arithmetic::mul::lemma_mul_is_commutative(
                hm as int / (DEG_SECTOR as int),
                DEG_SECTOR as int,
            );
        }
    }
    let sector: u64 = (hm as u64) / (DEG_SECTOR as u64);
    let off: u64 = (hm as u64) % (DEG_SECTOR as u64);
    let f: i64 = (off / 60) as i64;
    proof {
        lemma_div_pos_is_pos(off as int, 60);
        lemma_div_is_ordered(off as int, (DEG_SECTOR as int) - 1, 60);
        assert(((DEG_SECTOR as int) - 1) / 60 == (SCALE as int) - 1);
    }
    if sector == 0 {
        Rgb { red: invert_channel(SCALE), green: invert_channel(f), blue: invert_channel(0) }
    } else if sector == 1 {
        Rgb {
            red: invert_channel(SCALE - f),
            green: invert_channel(SCALE),
            blue: invert_channel(0),
        }
    } else if sector == 2 {
        Rgb { red: invert_channel(0), green: invert_channel(SCALE), blue: invert_channel(f) }
    } else if sector == 3 {
        Rgb {
            red: invert_channel(0),
            green: invert_channel(SCALE - f),
            blue: invert_channel(SCALE),
        }
    } else if sector == 4 {
        Rgb { red: invert_channel(f), green: invert_channel(0), blue: invert_channel(SCALE) }
    } else {
        Rgb {
            red: invert_channel(SCALE),
            green: invert_channel(0),
            blue: invert_channel(SCALE - f),
        }
    }
}

/// Inverted 8-bit channel, exact against `invert_channel_spec`.
fn invert_channel(c: i64) -> (b: u8)
    requires
        0 <= c <= SCALE,
    ensures
        b == invert_channel_spec(c as int),
{
    proof {
        lemma_div_pos_is_pos(255 * ((SCALE as int) - c as int), SCALE as int);
        lemma_div_is_ordered(255 * ((SCALE as int) - c as int), 255 * (SCALE as int), SCALE as int);
        assert((255 * (SCALE as int)) / (SCALE as int) == 255);
    }
    ((255u64 * ((SCALE - c) as u64)) / (SCALE as u64)) as u8
}

/// Euclidean remainder of a negated value, written over the remainder of
/// the value itself.
proof fn lemma_mod_negated(n: int, m: int)
    requires
        0 <= n,
        0 < m,
    ensures
        (-n) % m == if n % m == 0 { 0int } else { m - (n % m) },
{
    lemma_fundamental_div_mod(n, m);
    lemma_mod_division_less_than_divisor(n, m);
    let q = n / m;
    let r = n % m;
    lemma_mul_unary_negation(m, q);
    if r == 0 {
        assert(-n == m * (-q) + 0) by (nonlinear_arith)
            requires
                n == m * q + r,
                r == 0,
        ;
        lemma_mod_multiples_vanish(-q, 0, m);
    } else {
        assert(-n == m * (-q - 1) + (m - r)) by (nonlinear_arith)
            requires
                n == m * q + r,
        ;
        lemma_mod_multiples_vanish(-q - 1, m - r, m);
        lemma_mod_division_less_than_divisor(m - r, m);
        vstd::arithmetic::div_mod::lemma_small_mod((m - r) as nat, m as nat);
    }
}

/// Hue is cyclic: moving the hue by a full turn leaves the color unchanged.
pub proof fn lemma_hue_cyclic(h: int)
    ensures
        hsv_rgb_spec(h + DEG_FULL as int) == hsv_rgb_spec(h),
{
    lemma_mod_multiples_vanish(1, h, DEG_FULL as int);
}

/// Hue cyclicity through the color scale: two smooth values whose scaled
/// hues are a full turn apart (as happens for a difference of
/// `360 / color_scale` whenever the fixed-point products land exactly)
/// color identically.
pub proof fn lemma_hue_cyclic_scaled(s1: int, s2: int, color_scale: int)
    requires
        fx_mul_spec(s2, color_scale) == fx_mul_spec(s1, color_scale) + DEG_FULL as int,
    ensures
        hsv_rgb_spec(fx_mul_spec(s2, color_scale)) == hsv_rgb_spec(fx_mul_spec(s1, color_scale)),
{
    lemma_hue_cyclic(fx_mul_spec(s1, color_scale));
}

/// Bounded points are the sentinel: a pixel that did not escape is pure
/// black, whatever its counts, scheme, or scale.
pub proof fn lemma_bounded_sentinel(
    raw: int,
    m: int,
    max_it: int,
    scheme: ColorOption,
    color_scale: int,
)
    ensures
        pixel_color_spec(raw, false, m, max_it, scheme, color_scale)
            == (Rgb { red: 0, green: 0, blue: 0 }),
{
}

/// Color one pixel outcome, exact against `pixel_color_spec`.
pub fn color_pixel(
    raw: u32,
    escaped: bool,
    m: i64,
    max_it: u32,
    scheme: ColorOption,
    color_scale: i64,
) -> (c: Rgb)
    requires
        1 <= raw <= max_it,
        max_it <= MAX_IT_BOUND,
        m <= MAG_BOUND,
        0 < color_scale <= COLOR_SCALE_BOUND,
    ensures
        c == pixel_color_spec(
            raw as int,
            escaped,
            m as int,
            max_it as int,
            scheme,
            color_scale as int,
        ),
{
    if !escaped {
        Rgb { red: 0, green: 0, blue: 0 }
    } else {
        let s: i64 = smooth_value(raw, m);
        match scheme {
            ColorOption::BlackWhite => gray_color(s, max_it),
            ColorOption::Hsv => hsv_color(fx_mul(s, color_scale)),
        }
    }
}

} // verus!
