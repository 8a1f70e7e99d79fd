use pulsebar::theme::{light_theme_from_registry, palette, Palette, Rgba};
use pulsebar::util::{scale, wide};

fn std_wide(s: &str) -> Vec<u16> {
    let mut v: Vec<u16> = s.encode_utf16().collect();
    v.push(0);
    v
}

#[test]
fn wide_ascii_is_nul_terminated() {
    assert_eq!(wide("CPU"), vec![67u16, 80, 85, 0]);
}

#[test]
fn wide_empty_is_just_the_terminator() {
    assert_eq!(wide(""), vec![0u16]);
}

#[test]
fn wide_encodes_surrogate_pairs() {
    assert_eq!(wide("\u{1F600}"), vec![0xD83Du16, 0xDE00, 0]);
}

#[test]
fn wide_matches_std_utf16() {
    for s in ["Shell_TrayWnd", "Local\\pulsebar-singleton", "\u{30BF}\u{30B9}\u{30AF}\u{30D0}\u{30FC}", "a\u{10FFFF}b\u{E000}"] {
        assert_eq!(wide(s), std_wide(s));
    }
}

#[test]
fn wide_has_no_interior_nul() {
    let w = wide("TrayNotifyWnd");
    assert_eq!(*w.last().unwrap(), 0);
    assert!(w[..w.len() - 1].iter().all(|&u| u != 0));
}

#[test]
fn scale_is_identity_at_96_dpi() {
    for v in [0, 1, 2, 6, 46, 100, 1000] {
        assert_eq!(scale(v, 96), v);
    }
}

#[test]
fn scale_rounds_to_nearest() {
    assert_eq!(scale(46, 144), 69);
    assert_eq!(scale(6, 120), 8);
    assert_eq!(scale(2, 168), 4);
    // 1 * 144 / 96 = 1.5 rounds up
    assert_eq!(scale(1, 144), 2);
    // 1 * 120 / 96 = 1.25 rounds down
    assert_eq!(scale(1, 120), 1);
    assert_eq!(scale(100, 192), 200);
}

#[test]
fn scale_rounds_negative_values_to_nearest() {
    assert_eq!(scale(-1, 96), -1);
    assert_eq!(scale(-2, 96), -2);
    assert_eq!(scale(-46, 144), -69);
    // -1 * 144 / 96 = -1.5: halves round up
    assert_eq!(scale(-1, 144), -1);
    // -1 * 120 / 96 = -1.25 rounds to -1; -1 * 168 / 96 = -1.75 to -2
    assert_eq!(scale(-1, 120), -1);
    assert_eq!(scale(-1, 168), -2);
}

#[test]
fn scale_is_identity_at_96_dpi_for_negatives() {
    for v in [-1, -2, -6, -46, -1000] {
        assert_eq!(scale(v, 96), v);
    }
}

#[test]
fn light_theme_needs_a_successful_nonzero_read() {
    assert!(light_theme_from_registry(0, 1));
    assert!(!light_theme_from_registry(0, 0));
    assert!(!light_theme_from_registry(2, 1));
}

#[test]
fn wide_decodes_back_to_the_text() {
    for s in ["", "CPU / Memory", "\u{1F600}x\u{10000}", "\u{FFFF}\u{E000}\u{D7FF}", "\u{30BF}\u{30B9}\u{30AF}"] {
        let w = wide(s);
        assert_eq!(String::from_utf16(&w[..w.len() - 1]).unwrap(), s);
        assert_eq!(w.iter().position(|&u| u == 0), Some(w.len() - 1));
    }
}

#[test]
fn scale_is_monotonic() {
    let mut last = scale(46, 96);
    for dpi in (97u32..400).step_by(7) {
        let s = scale(46, dpi);
        assert!(s >= last);
        last = s;
    }
}

fn rgba(a: u8, r: u8, g: u8, b: u8) -> Rgba {
    Rgba { a, r, g, b }
}

#[test]
fn light_palette_colors() {
    let p: Palette = palette(true);
    assert_eq!(p.hit, rgba(2, 0, 0, 0));
    assert_eq!(p.track, rgba(46, 0, 0, 0));
    assert_eq!(p.cpu, rgba(232, 0, 103, 192));
    assert_eq!(p.mem, rgba(232, 122, 68, 200));
    assert_eq!(p.warn_mid, rgba(240, 200, 130, 0));
    assert_eq!(p.warn_hi, rgba(240, 216, 43, 43));
}

#[test]
fn dark_palette_colors() {
    let p: Palette = palette(false);
    assert_eq!(p.hit, rgba(2, 0, 0, 0));
    assert_eq!(p.track, rgba(42, 255, 255, 255));
    assert_eq!(p.cpu, rgba(232, 96, 205, 255));
    assert_eq!(p.mem, rgba(232, 187, 154, 255));
    assert_eq!(p.warn_mid, rgba(240, 255, 200, 80));
    assert_eq!(p.warn_hi, rgba(240, 255, 99, 99));
}

#[test]
fn every_palette_color_is_hit_testable() {
    for light in [true, false] {
        let p = palette(light);
        for c in [p.hit, p.track, p.cpu, p.mem, p.warn_mid, p.warn_hi] {
            assert!(c.a > 0);
        }
    }
}
