//! Rendering driver: the configuration type and the full-raster renderer.
//!
//! `Julia` carries the render configuration in fixed point. `calculate_set`
//! produces the whole raster as packed RGB bytes, row-major from the top
//! row, and its contract says the raster equals `raster_spec` — a pure
//! function of the configuration — so rendering is deterministic by
//! construction and every byte is pinned down.

use vstd::prelude::*;
use vstd::arithmetic::div_mod::{
    lemma_div_is_ordered, lemma_div_pos_is_pos, lemma_fundamental_div_mod,
    lemma_fundamental_div_mod_converse, lemma_mod_division_less_than_divisor,
    lemma_div_multiples_vanish, lemma_div_denominator,
};
use vstd::arithmetic::mul::{lemma_mul_is_commutative, lemma_mul_basics};
use crate::fixed::{SCALE, fx_mul, fx_mul_spec, lemma_fx_mul_spec_bound, lemma_fx_square_nonneg};
use crate::escape::{
    CENTER_BOUND, FINAL_BOUND, PixelResult, RADIUS_BOUND, escape_from, escape_time,
};
use crate::color::{
    COLOR_SCALE_BOUND, ColorOption, MAX_IT_BOUND, Rgb, color_pixel, pixel_color_spec,
};

verus! {

/// Largest pixel count (width times height) the renderer accepts (2^26).
pub const PIXEL_BOUND: u64 = 0x400_0000;

/// Julia set render configuration, in fixed point at scale 2^20.
#[derive(Clone, Copy)]
pub struct Julia {
    /// Width of the image in pixels.
    pub width: u32,
    /// Height of the image in pixels.
    pub height: u32,
    /// Real part of the set's constant.
    pub cx: i64,
    /// Imaginary part of the set's constant.
    pub cy: i64,
    /// Radius: half-extent of the sampled window and escape threshold.
    pub r: i64,
    /// Cap on the number of iterations per pixel.
    pub max_iterations: u32,
    /// Color scheme of the calculated image.
    pub color: ColorOption,
    /// Scale on the smooth value before hue mapping; raises color cycles.
    pub color_scale: i64,
}

impl Julia {
    /// A well-formed configuration: positive dimensions with a bounded
    /// pixel count, a radius of at least one (the log-based smoothing is
    /// undefined below that, so it is a documented precondition), bounded
    /// constant components, a positive bounded iteration cap, and a
    /// positive bounded color scale.
    pub open spec fn wf(self) -> bool {
        &&& 1 <= self.width
        &&& 1 <= self.height
        &&& (self.width as int) * (self.height as int) <= PIXEL_BOUND as int
        &&& SCALE as int <= self.r as int <= RADIUS_BOUND as int
        &&& -(CENTER_BOUND as int) <= self.cx as int <= CENTER_BOUND as int
        &&& -(CENTER_BOUND as int) <= self.cy as int <= CENTER_BOUND as int
        &&& 1 <= self.max_iterations <= MAX_IT_BOUND
        &&& 0 < self.color_scale <= COLOR_SCALE_BOUND
    }

    /// Runtime check of `wf`, for callers outside verified code.
    pub fn is_valid(&self) -> (ok: bool)
        ensures
            ok == self.wf(),
    {
        proof {
            vstd::arithmetic::mul::lemma_mul_upper_bound(
                self.width as int,
                0xFFFF_FFFF,
                self.height as int,
                0xFFFF_FFFF,
            );
        }
        1 <= self.width && 1 <= self.height
            && (self.width as u64) * (self.height as u64) <= PIXEL_BOUND
            && SCALE <= self.r && self.r <= RADIUS_BOUND
            && -CENTER_BOUND <= self.cx && self.cx <= CENTER_BOUND
            && -CENTER_BOUND <= self.cy && self.cy <= CENTER_BOUND
            && 1 <= self.max_iterations && self.max_iterations <= MAX_IT_BOUND
            && 0 < self.color_scale && self.color_scale <= COLOR_SCALE_BOUND
    }

    /// The coordinate map `(radius / s) * c - radius / 2`, computed exactly
    /// as `(radius * c) / s - radius / 2` in fixed point: pixel 0 lands at
    /// minus half the radius, pixel `s` at the other half.
    pub open spec fn scale_spec(self, c: int, s: int) -> int {
        ((self.r as int) * c) / s - (self.r as int) / 2
    }

    /// Scale a pixel coordinate to the radius of the current calculation;
    /// exact against `scale_spec`.
    pub fn scale_pixel(self, c: u32, s: u32) -> (v: i64)
        requires
            self.wf(),
            1 <= s,
            c <= s,
        ensures
            v == self.scale_spec(c as int, s as int),
            -((self.r as int) / 2) <= v <= self.r as int - (self.r as int) / 2,
    {
        proof {
            vstd::arithmetic::mul::lemma_mul_upper_bound(
                self.r as int,
                RADIUS_BOUND as int,
                c as int,
                0xFFFF_FFFF,
            );
            vstd::arithmetic::mul::lemma_mul_left_inequality(self.r as int, c as int, s as int);
            lemma_div_is_ordered(
                (self.r as int) * (c as int),
                (self.r as int) * (s as int),
                s as int,
            );
            lemma_mul_is_commutative(self.r as int, s as int);
            lemma_div_multiples_vanish(self.r as int, s as int);
            lemma_div_pos_is_pos((self.r as int) * (c as int), s as int);
            lemma_div_is_ordered(0, self.r as int, 2);
        }
        let num: u64 = (self.r as u64) * (c as u64);
        let q: u64 = num / (s as u64);
        let half: i64 = ((self.r as u64) / 2) as i64;
        (q as i64) - half
    }

    /// The coordinate map is linear on its axis: pixel 0 lands at minus
    /// half the radius and pixel `s` at plus half the radius (halving by
    /// truncation, the fixed-point analogue of `0.5 * radius`).
    pub proof fn lemma_scale_linear(self, s: int)
        requires
            self.wf(),
            1 <= s,
        ensures
            self.scale_spec(0, s) == -((self.r as int) / 2),
            self.scale_spec(s, s) == self.r as int - (self.r as int) / 2,
    {
        lemma_mul_basics(self.r as int);
        vstd::arithmetic::div_mod::lemma_div_of0(s);
        lemma_mul_is_commutative(self.r as int, s);
        lemma_div_multiples_vanish(self.r as int, s);
    }

    /// The coordinate map sends the midpoint of an even axis exactly to
    /// zero, the center of the sampled window.
    pub proof fn lemma_scale_midpoint(self, s: int)
        requires
            self.wf(),
            2 <= s,
            s % 2 == 0,
        ensures
            self.scale_spec(s / 2, s) == 0,
    {
        let t = s / 2;
        lemma_fundamental_div_mod(s, 2);
        lemma_div_denominator((self.r as int) * t, t, 2);
        lemma_mul_is_commutative(self.r as int, t);
        lemma_div_multiples_vanish(self.r as int, t);
        lemma_mul_is_commutative(t, 2);
    }

    /// The escape-time outcome (iterations, escaped, final re, final im)
    /// for the pixel at `(x, y)`.
    pub open spec fn pixel_escape(self, x: int, y: int) -> (int, bool, int, int) {
        escape_from(
            self.cx as int,
            self.cy as int,
            self.r as int,
            self.max_iterations as int,
            self.scale_spec(x, self.width as int),
            self.scale_spec(y, self.height as int),
            0,
        )
    }

    /// Fixed-point squared magnitude of `z` at loop termination for the
    /// pixel at `(x, y)`.
    pub open spec fn pixel_mag(self, x: int, y: int) -> int {
        let e = self.pixel_escape(x, y);
        fx_mul_spec(e.2, e.2) + fx_mul_spec(e.3, e.3)
    }

    /// The color of the pixel at `(x, y)`.
    pub open spec fn pixel_spec(self, x: int, y: int) -> Rgb {
        let e = self.pixel_escape(x, y);
        pixel_color_spec(
            e.0,
            e.1,
            self.pixel_mag(x, y),
            self.max_iterations as int,
            self.color,
            self.color_scale as int,
        )
    }

    /// The whole raster as packed RGB bytes: three bytes per pixel,
    /// row-major from the top row.
    pub open spec fn raster_spec(self) -> Seq<u8> {
        Seq::new(
            (3 * ((self.width as int) * (self.height as int))) as nat,
            |i: int|
                {
                    let y = i / (3 * (self.width as int));
                    let rem = i % (3 * (self.width as int));
                    let x = rem / 3;
                    let ch = rem % 3;
                    let c = self.pixel_spec(x, y);
                    if ch == 0 {
                        c.red
                    } else if ch == 1 {
                        c.green
                    } else {
                        c.blue
                    }
                },
        )
    }

    /// Where the bytes of pixel `(x, y)` sit inside `raster_spec`.
    pub proof fn lemma_raster_index(self, x: int, y: int)
        requires
            self.wf(),
            0 <= x < self.width as int,
            0 <= y < self.height as int,
        ensures
            0 <= 3 * ((self.width as int) * y + x)
                && 3 * ((self.width as int) * y + x) + 3
                    <= 3 * ((self.width as int) * (self.height as int)),
            self.raster_spec()[3 * ((self.width as int) * y + x)] == self.pixel_spec(x, y).red,
            self.raster_spec()[3 * ((self.width as int) * y + x) + 1]
                == self.pixel_spec(x, y).green,
            self.raster_spec()[3 * ((self.width as int) * y + x) + 2]
                == self.pixel_spec(x, y).blue,
    {
        let w = self.width as int;
        let h = self.height as int;
        assert(w * y + x >= 0 && w * y + x < w * h) by (nonlinear_arith)
            requires
                0 <= x < w,
                0 <= y < h,
        ;
        let base = 3 * (w * y + x);
        assert(3 * (w * y + x) == y * (3 * w) + 3 * x) by (nonlinear_arith);
        assert(0 <= 3 * x && 3 * x + 2 < 3 * w) by (nonlinear_arith)
            requires
                0 <= x < w,
        ;
        lemma_fundamental_div_mod_converse(base, 3 * w, y, 3 * x);
        lemma_fundamental_div_mod_converse(base + 1, 3 * w, y, 3 * x + 1);
        lemma_fundamental_div_mod_converse(base + 2, 3 * w, y, 3 * x + 2);
        lemma_fundamental_div_mod_converse(3 * x, 3, x, 0);
        lemma_fundamental_div_mod_converse(3 * x + 1, 3, x, 1);
        lemma_fundamental_div_mod_converse(3 * x + 2, 3, x, 2);
    }

    /// Color of the pixel at `(x, y)`, exact against `pixel_spec`.
    pub fn color_at(&self, x: u32, y: u32) -> (c: Rgb)
        requires
            self.wf(),
            x < self.width,
            y < self.height,
        ensures
            c == self.pixel_spec(x as int, y as int),
    {
        let zx0: i64 = self.scale_pixel(x, self.width);
        let zy0: i64 = self.scale_pixel(y, self.height);
        proof {
            let r = self.r as int;
            let half = r / 2;
            lemma_fundamental_div_mod(r, 2);
            lemma_mod_division_less_than_divisor(r, 2);
            lemma_div_is_ordered(SCALE as int, r, 2);
            assert((zx0 as int) * (zx0 as int) + (zy0 as int) * (zy0 as int) <= r * r)
                by (nonlinear_arith)
                requires
                    2 * half <= r <= 2 * half + 1,
                    half >= 4,
                    -half <= zx0 as int <= r - half,
                    -half <= zy0 as int <= r - half,
            ;
        }
        let p: PixelResult = escape_time(self.cx, self.cy, self.r, self.max_iterations, zx0, zy0);
        proof {
            lemma_fx_mul_spec_bound(p.final_re as int, p.final_re as int, FINAL_BOUND as int);
            lemma_fx_mul_spec_bound(p.final_im as int, p.final_im as int, FINAL_BOUND as int);
            lemma_fx_square_nonneg(p.final_re as int);
            lemma_fx_square_nonneg(p.final_im as int);
            assert((FINAL_BOUND as int) * (FINAL_BOUND as int) == 0x1000_0000_0000_0000_0000int);
            assert(0x1000_0000_0000_0000_0000int / (SCALE as int) == 0x100_0000_0000_0000int);
        }
        let m: i64 = fx_mul(p.final_re, p.final_re) + fx_mul(p.final_im, p.final_im);
        color_pixel(
            p.raw_iterations,
            p.escaped,
            m,
            self.max_iterations,
            self.color,
            self.color_scale,
        )
    }

    /// Calculate the escape iterations for every pixel and color them into
    /// a packed RGB raster, row-major from the top row. The raster is
    /// exactly `raster_spec`, a pure function of the configuration.
    pub fn calculate_set(self) -> (img: Vec<u8>)
        requires
            self.wf(),
        ensures
            img@ == self.raster_spec(),
    {
        let ghost w = self.width as int;
        let ghost h = self.height as int;
        let mut img: Vec<u8> = Vec::new();
        let mut y: u32 = 0;
        while y < self.height
            invariant
                self.wf(),
                w == self.width as int,
                h == self.height as int,
                y <= self.height,
                img@.len() == 3 * (w * (y as int)),
                forall|i: int| 0 <= i < img@.len() ==> img@[i] == self.raster_spec()[i],
            decreases self.height - y,
        {
            let mut x: u32 = 0;
            while x < self.width
                invariant
                    self.wf(),
                    w == self.width as int,
                    h == self.height as int,
                    y < self.height,
                    x <= self.width,
                    img@.len() == 3 * (w * (y as int) + (x as int)),
                    forall|i: int| 0 <= i < img@.len() ==> img@[i] == self.raster_spec()[i],
                decreases self.width - x,
            {
                let c: Rgb = self.color_at(x, y);
                proof {
                    self.lemma_raster_index(x as int, y as int);
                }
                img.push(c.red);
                img.push(c.green);
                img.push(c.blue);
                x = x + 1;
            }
            proof {
                assert(w * (y as int) + w == w * ((y as int) + 1)) by (nonlinear_arith);
            }
            y = y + 1;
        }
        proof {
            assert(img@ =~= self.raster_spec());
        }
        img
    }

    /// Bounded points receive the sentinel: a pixel whose loop exhausted
    /// the iteration cap without escaping is pure black, whatever the
    /// scheme or scale.
    pub proof fn lemma_pixel_sentinel(self, x: int, y: int)
        requires
            !self.pixel_escape(x, y).1,
        ensures
            self.pixel_spec(x, y) == (Rgb { red: 0, green: 0, blue: 0 }),
    {
    }

    /// Rendering is a pure function of the configuration: any two rasters
    /// that meet `calculate_set`'s contract for the same configuration are
    /// byte-identical.
    pub proof fn lemma_render_idempotent(self, a: Seq<u8>, b: Seq<u8>)
        requires
            a == self.raster_spec(),
            b == self.raster_spec(),
        ensures
            a == b,
    {
    }
}

} // verus!
