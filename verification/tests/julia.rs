use julia_set::color::{gray_color, hsv_color, ColorOption, Rgb, DEG_FULL};
use julia_set::escape::escape_time;
use julia_set::fixed::{fx_mul, log2fx, SCALE};
use julia_set::render::Julia;
use julia_set::smooth::smooth_value;

fn config(width: u32, height: u32) -> Julia {
    Julia {
        width,
        height,
        cx: -419430,         // -0.4 in fixed point
        cy: 629145,          // 0.6 in fixed point
        r: 3 * SCALE,        // 3.0
        max_iterations: 1000,
        color: ColorOption::Hsv,
        color_scale: SCALE,  // 1.0
    }
}

#[test]
fn scale_pixel_endpoints() {
    // radius 10, axis of 2 pixels: pixel 0 at -5.0, pixel 1 at 0.0,
    // pixel 2 (the far edge) at +5.0.
    let mut j = config(2, 2);
    j.r = 10 * SCALE;
    assert_eq!(j.scale_pixel(0, 2), -5 * SCALE);
    assert_eq!(j.scale_pixel(1, 2), 0);
    assert_eq!(j.scale_pixel(2, 2), 5 * SCALE);
}

#[test]
fn scale_pixel_midpoint_is_zero() {
    let j = config(800, 600);
    assert_eq!(j.scale_pixel(400, 800), 0);
    assert_eq!(j.scale_pixel(300, 600), 0);
}

#[test]
fn scale_pixel_default_size() {
    // radius 3 across 800 pixels: pixel 0 at -1.5 exactly.
    let j = config(800, 600);
    assert_eq!(j.scale_pixel(0, 800), -(3 * SCALE) / 2);
    assert_eq!(j.scale_pixel(800, 800), (3 * SCALE) - (3 * SCALE) / 2);
}

#[test]
fn escape_iterations_bounded() {
    let j = config(8, 8);
    for max_it in [1u32, 2, 7, 50] {
        for zx0 in [-SCALE, 0, SCALE / 2, SCALE] {
            for zy0 in [-SCALE / 2, 0, SCALE] {
                let p = escape_time(j.cx, j.cy, j.r, max_it, zx0, zy0);
                assert!(p.raw_iterations >= 1);
                assert!(p.raw_iterations <= max_it);
            }
        }
    }
}

#[test]
fn escape_known_point() {
    // c = 0, z0 = 2.0: one squaring gives 4.0, beyond radius 2.0.
    let p = escape_time(0, 0, 2 * SCALE, 10, 2 * SCALE, 0);
    assert!(p.escaped);
    assert_eq!(p.raw_iterations, 1);
    assert_eq!(p.final_re, 4 * SCALE);
    assert_eq!(p.final_im, 0);
}

#[test]
fn bounded_point_never_escapes() {
    // c = 0, z0 = 0: the orbit stays at zero and exhausts the cap.
    let p = escape_time(0, 0, 2 * SCALE, 25, 0, 0);
    assert!(!p.escaped);
    assert_eq!(p.raw_iterations, 25);
}

#[test]
fn bounded_point_is_black() {
    // With c = 0 the image center maps to z0 = (0, 0), which never
    // escapes: the sentinel color is pure black under either scheme.
    let mut j = config(2, 2);
    j.cx = 0;
    j.cy = 0;
    j.max_iterations = 10;
    let black = Rgb { red: 0, green: 0, blue: 0 };
    assert_eq!(j.color_at(1, 1), black);
    j.color = ColorOption::BlackWhite;
    assert_eq!(j.color_at(1, 1), black);
}

#[test]
fn grayscale_exact_value() {
    // smooth = 2.0 with a cap of 4: intensity 255 * 2 / 4 = 127 truncated,
    // inverted to 128 on every channel.
    let c = gray_color(2 * SCALE, 4);
    assert_eq!(c, Rgb { red: 128, green: 128, blue: 128 });
}

#[test]
fn grayscale_saturates() {
    assert_eq!(gray_color(-SCALE, 4), Rgb { red: 255, green: 255, blue: 255 });
    assert_eq!(gray_color(9 * SCALE, 4), Rgb { red: 0, green: 0, blue: 0 });
}

#[test]
fn grayscale_monotone() {
    // Raising the smooth value never brightens the pixel.
    let max_it = 100;
    let mut prev = gray_color(-2 * SCALE, max_it);
    let mut s = -2 * SCALE;
    while s <= 102 * SCALE {
        let c = gray_color(s, max_it);
        assert!(c.red <= prev.red);
        assert!(c.green <= prev.green);
        assert!(c.blue <= prev.blue);
        prev = c;
        s += SCALE / 4;
    }
}

#[test]
fn hue_exact_sectors() {
    // Hue 0 is red (1,0,0); inverted: (0,255,255). Hue 60 is yellow
    // (1,1,0); inverted: (0,0,255). Hue 120 is green; inverted: (255,0,255).
    assert_eq!(hsv_color(0), Rgb { red: 0, green: 255, blue: 255 });
    assert_eq!(hsv_color(60 * SCALE), Rgb { red: 0, green: 0, blue: 255 });
    assert_eq!(hsv_color(120 * SCALE), Rgb { red: 255, green: 0, blue: 255 });
    assert_eq!(hsv_color(240 * SCALE), Rgb { red: 255, green: 255, blue: 0 });
}

#[test]
fn hue_is_cyclic() {
    // A full 360-degree turn leaves the color unchanged, wherever the hue
    // starts, including negative hues.
    for h in [0i64, 17 * SCALE, 359 * SCALE, -45 * SCALE, 12345678, -987654321] {
        assert_eq!(hsv_color(h), hsv_color(h + DEG_FULL));
        assert_eq!(hsv_color(h), hsv_color(h - DEG_FULL));
    }
}

#[test]
fn hue_cycle_through_color_scale() {
    // With color_scale = 1.0 the fixed-point product is exact, so two
    // smooth values 360 apart color identically.
    let scale = SCALE;
    for s in [3 * SCALE, 40 * SCALE + 12345] {
        let a = hsv_color(fx_mul(s, scale));
        let b = hsv_color(fx_mul(s + 360 * SCALE, scale));
        assert_eq!(a, b);
    }
}

#[test]
fn log2_exact_powers() {
    assert_eq!(log2fx(SCALE as u64), 0);
    assert_eq!(log2fx(2 * SCALE as u64), SCALE);
    assert_eq!(log2fx(4 * SCALE as u64), 2 * SCALE);
    assert_eq!(log2fx((SCALE / 2) as u64), -SCALE);
}

#[test]
fn smooth_clamped_values() {
    // A magnitude of exactly 1.0 drives the nested logarithm to its clamp:
    // smooth = raw + 2 + 20.
    assert_eq!(smooth_value(5, SCALE), 27 * SCALE);
    // A non-positive magnitude clamps at the first logarithm as well.
    assert_eq!(smooth_value(1, 0), 23 * SCALE);
}

#[test]
fn render_dimensions() {
    let j = config(6, 4);
    let img = j.calculate_set();
    assert_eq!(img.len(), 3 * 6 * 4);
}

#[test]
fn render_deterministic() {
    // Same configuration, byte-identical rasters, under both schemes.
    let mut j = config(5, 4);
    j.max_iterations = 64;
    let a = j.calculate_set();
    let b = j.calculate_set();
    assert_eq!(a, b);
    j.color = ColorOption::BlackWhite;
    let c = j.calculate_set();
    let d = j.calculate_set();
    assert_eq!(c, d);
}

#[test]
fn render_center_pixel_deterministic() {
    // The Julia scenario: c = (-0.4, 0.6), radius 3, cap 1000, at the
    // point that maps to the center of the scaled plane.
    let j = config(2, 2);
    let zx0 = j.scale_pixel(1, 2);
    let zy0 = j.scale_pixel(1, 2);
    assert_eq!(zx0, 0);
    assert_eq!(zy0, 0);
    let p1 = escape_time(j.cx, j.cy, j.r, j.max_iterations, zx0, zy0);
    let p2 = escape_time(j.cx, j.cy, j.r, j.max_iterations, zx0, zy0);
    assert_eq!(p1, p2);
    assert!(p1.raw_iterations >= 1 && p1.raw_iterations <= 1000);
}

#[test]
fn render_bounded_region_black() {
    // All-bounded configuration: c = 0 and a radius of 1.4 keep the whole
    // window inside the unit disk, where squaring never escapes, so every
    // byte of the raster is zero.
    let mut j = config(3, 3);
    j.cx = 0;
    j.cy = 0;
    j.r = 1468006; // 1.4 in fixed point
    j.max_iterations = 30;
    let img = j.calculate_set();
    assert_eq!(img.len(), 27);
    assert!(img.iter().all(|&b| b == 0));
}

#[test]
fn validity_check() {
    let j = config(800, 600);
    assert!(j.is_valid());
    let mut bad = j;
    bad.width = 0;
    assert!(!bad.is_valid());
    let mut small_radius = j;
    small_radius.r = SCALE - 1;
    assert!(!small_radius.is_valid());
    let mut no_iters = j;
    no_iters.max_iterations = 0;
    assert!(!no_iters.is_valid());
}
