use pulsebar::metrics::Load;
use pulsebar::render::{bar_color, draw_fits_check, fill_width, level, premul, Level, Renderer};
use pulsebar::theme::{palette, Rgba};

fn rgba(a: u8, r: u8, g: u8, b: u8) -> Rgba {
    Rgba { a, r, g, b }
}

fn load(num: u64, den: u64) -> Load {
    Load { num, den }
}

#[test]
fn premul_opaque_keeps_channels() {
    assert_eq!(premul(rgba(255, 10, 20, 30)), 0xFF0A141E);
}

#[test]
fn premul_scales_channels_by_alpha() {
    assert_eq!(premul(rgba(2, 0, 0, 0)), 0x0200_0000);
    assert_eq!(premul(rgba(128, 255, 0, 255)), 0x8080_0080);
    // 200 * 232 / 255 = 181, 130 * 232 / 255 = 118
    assert_eq!(premul(rgba(232, 200, 130, 0)), 0xE8B5_7600);
    assert_eq!(premul(rgba(0, 255, 255, 255)), 0);
}

#[test]
fn premul_alpha_in_top_byte_and_channels_at_most_alpha() {
    for a in [0u8, 1, 2, 46, 128, 232, 255] {
        for x in [0u8, 1, 99, 200, 255] {
            let p = premul(rgba(a, x, x, x));
            assert_eq!(p >> 24, a as u32);
            assert!(((p >> 16) & 0xFF) <= a as u32);
            assert!(((p >> 8) & 0xFF) <= a as u32);
            assert!((p & 0xFF) <= a as u32);
        }
    }
}

#[test]
fn fill_width_rounds_to_nearest_pixel() {
    assert_eq!(fill_width(46, load(50, 100)), 23);
    assert_eq!(fill_width(10, load(1, 3)), 3);
    // 3 * 1/2 = 1.5 rounds up
    assert_eq!(fill_width(3, load(1, 2)), 2);
    assert_eq!(fill_width(42, load(33, 100)), 14);
}

#[test]
fn fill_width_extremes() {
    assert_eq!(fill_width(42, load(0, 0)), 0);
    assert_eq!(fill_width(42, load(0, 100)), 0);
    assert_eq!(fill_width(42, load(100, 100)), 42);
    assert_eq!(fill_width(42, load(150, 100)), 42);
    assert_eq!(fill_width(0, load(50, 100)), 0);
    assert_eq!(fill_width(i32::MAX, load(u64::MAX, u64::MAX)), i32::MAX);
}

#[test]
fn fill_width_grows_with_load() {
    let mut last = 0;
    for pct in 0..=100u64 {
        let fw = fill_width(42, load(pct, 100));
        assert!(fw >= last);
        last = fw;
    }
    assert_eq!(last, 42);
}

#[test]
fn levels_follow_the_thresholds() {
    assert_eq!(level(load(0, 0)), Level::Normal);
    assert_eq!(level(load(79, 100)), Level::Normal);
    assert_eq!(level(load(80, 100)), Level::Mid);
    assert_eq!(level(load(89, 100)), Level::Mid);
    assert_eq!(level(load(90, 100)), Level::High);
    assert_eq!(level(load(100, 100)), Level::High);
    assert_eq!(level(load(4, 5)), Level::Mid);
    assert_eq!(level(load(9, 10)), Level::High);
}

#[test]
fn bar_colors_turn_yellow_then_red() {
    let pal = palette(false);
    assert_eq!(bar_color(load(50, 100), &pal, pal.cpu), pal.cpu);
    assert_eq!(bar_color(load(85, 100), &pal, pal.cpu), pal.warn_mid);
    assert_eq!(bar_color(load(95, 100), &pal, pal.mem), pal.warn_hi);
}

#[test]
fn renderer_rejects_empty_and_oversized_surfaces() {
    assert!(Renderer::new(0, 5).is_none());
    assert!(Renderer::new(5, 0).is_none());
    assert!(Renderer::new(-1, 5).is_none());
    assert!(Renderer::new(65536, 65536).is_none());
}

#[test]
fn renderer_starts_transparent() {
    let r = Renderer::new(3, 2).unwrap();
    assert_eq!(r.width(), 3);
    assert_eq!(r.height(), 2);
    assert_eq!(r.pixels(), &[0u32; 6][..]);
}

fn px(r: &Renderer, x: i32, y: i32) -> u32 {
    r.pixels()[(y * r.width() + x) as usize]
}

#[test]
fn draw_lays_out_both_bars_at_96_dpi() {
    // 46 x 28 at 96 dpi: pad 2, bars 6 high, gap 4, top 6, tracks 42 wide.
    let pal = palette(false);
    let mut r = Renderer::new(46, 28).unwrap();
    r.draw(load(50, 100), load(95, 100), &pal, 96);
    let hit = premul(pal.hit);
    let track = premul(pal.track);
    let cpu = premul(pal.cpu);
    let hi = premul(pal.warn_hi);
    assert_eq!(px(&r, 0, 0), hit);
    assert_eq!(px(&r, 1, 6), hit);
    assert_eq!(px(&r, 2, 5), hit);
    // CPU bar: rows 6..12, 21 of 42 pixels filled.
    assert_eq!(px(&r, 2, 6), cpu);
    assert_eq!(px(&r, 22, 11), cpu);
    assert_eq!(px(&r, 23, 6), track);
    assert_eq!(px(&r, 43, 11), track);
    assert_eq!(px(&r, 44, 6), hit);
    assert_eq!(px(&r, 10, 12), hit);
    assert_eq!(px(&r, 10, 15), hit);
    // Memory bar: rows 16..22, 95 % of 42 = 39.9 -> 40 pixels, in red.
    assert_eq!(px(&r, 2, 16), hi);
    assert_eq!(px(&r, 41, 21), hi);
    assert_eq!(px(&r, 42, 21), track);
    assert_eq!(px(&r, 43, 16), track);
    assert_eq!(px(&r, 10, 22), hit);
    assert_eq!(px(&r, 45, 27), hit);
}

#[test]
fn draw_leaves_no_transparent_pixel() {
    for light in [true, false] {
        let pal = palette(light);
        for (w, h, dpi) in [(46, 28, 96u32), (69, 54, 144), (3, 2, 96), (1, 1, 300), (120, 10, 192)] {
            let mut r = Renderer::new(w, h).unwrap();
            r.draw(load(30, 100), load(85, 100), &pal, dpi);
            assert!(r.pixels().iter().all(|&p| (p >> 24) > 0));
        }
    }
}

#[test]
fn draw_clips_to_tiny_surfaces() {
    let pal = palette(true);
    let mut r = Renderer::new(1, 1).unwrap();
    assert!(draw_fits_check(1, 1, 357913933));
    r.draw(load(100, 100), load(100, 100), &pal, 357913933);
    assert_eq!(r.pixels().len(), 1);
    assert!((r.pixels()[0] >> 24) > 0);
}

#[test]
fn draw_fits_check_finds_overflowing_dpis() {
    assert!(draw_fits_check(46, 28, 96));
    // 6 * dpi + 48 no longer fits in an i32
    assert!(!draw_fits_check(46, 28, 357913934));
    // a DPI above i32::MAX wraps to a small negative value, which fits
    assert!(draw_fits_check(46, 28, u32::MAX));
    // the surface's own size matters too
    assert!(!draw_fits_check(i32::MAX, 28, u32::MAX - 1_000_000));
}

#[test]
fn draw_with_wrapped_dpi_matches_a_tiny_dpi() {
    let pal = palette(true);
    let mut a = Renderer::new(46, 28).unwrap();
    a.draw(load(1, 2), load(1, 4), &pal, u32::MAX);
    let mut b = Renderer::new(46, 28).unwrap();
    b.draw(load(1, 2), load(1, 4), &pal, 0);
    assert_eq!(a.pixels(), b.pixels());
}
