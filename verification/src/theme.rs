//! Colours of the meter for the light and the dark system theme.

use vstd::prelude::*;

verus! {

/// A straight-alpha colour; premultiplication happens at draw time.
#[derive(Clone, Copy, Debug, PartialEq, Eq, Structural)]
pub struct Rgba {
    pub a: u8,
    pub r: u8,
    pub g: u8,
    pub b: u8,
}

/// The colours the meter is drawn with.
#[derive(Clone, Copy, Debug, PartialEq, Eq, Structural)]
pub struct Palette {
    /// Nearly invisible layer covering the whole widget for hit-testing
    /// (alpha-0 pixels would let clicks fall through to the taskbar).
    pub hit: Rgba,
    pub track: Rgba,
    pub cpu: Rgba,
    pub mem: Rgba,
    /// Bar colour from 80 % load on.
    pub warn_mid: Rgba,
    /// Bar colour from 90 % load on.
    pub warn_hi: Rgba,
}

pub open spec fn rgba(a: u8, r: u8, g: u8, b: u8) -> Rgba {
    Rgba { a, r, g, b }
}

/// The palette used while the system theme is light.
pub open spec fn light_palette() -> Palette {
    Palette {
        hit: rgba(2, 0, 0, 0),
        track: rgba(46, 0, 0, 0),
        cpu: rgba(232, 0, 103, 192),
        mem: rgba(232, 122, 68, 200),
        warn_mid: rgba(240, 200, 130, 0),
        warn_hi: rgba(240, 216, 43, 43),
    }
}

/// The palette used while the system theme is dark.
pub open spec fn dark_palette() -> Palette {
    Palette {
        hit: rgba(2, 0, 0, 0),
        track: rgba(42, 255, 255, 255),
        cpu: rgba(232, 96, 205, 255),
        mem: rgba(232, 187, 154, 255),
        warn_mid: rgba(240, 255, 200, 80),
        warn_hi: rgba(240, 255, 99, 99),
    }
}

pub open spec fn palette_spec(light: bool) -> Palette {
    if light {
        light_palette()
    } else {
        dark_palette()
    }
}

/// Every colour of the palette has a non-zero alpha.
pub open spec fn all_visible(p: Palette) -> bool {
    &&& p.hit.a > 0
    &&& p.track.a > 0
    &&& p.cpu.a > 0
    &&& p.mem.a > 0
    &&& p.warn_mid.a > 0
    &&& p.warn_hi.a > 0
}

/// The palette for the light (`true`) or dark (`false`) system theme.
pub fn palette(light: bool) -> (p: Palette)
    ensures
        p == palette_spec(light),
{
    if light {
        Palette {
            hit: Rgba { a: 2, r: 0, g: 0, b: 0 },
            track: Rgba { a: 46, r: 0, g: 0, b: 0 },
            cpu: Rgba { a: 232, r: 0, g: 103, b: 192 },
            mem: Rgba { a: 232, r: 122, g: 68, b: 200 },
            warn_mid: Rgba { a: 240, r: 200, g: 130, b: 0 },
            warn_hi: Rgba { a: 240, r: 216, g: 43, b: 43 },
        }
    } else {
        Palette {
            hit: Rgba { a: 2, r: 0, g: 0, b: 0 },
            track: Rgba { a: 42, r: 255, g: 255, b: 255 },
            cpu: Rgba { a: 232, r: 96, g: 205, b: 255 },
            mem: Rgba { a: 232, r: 187, g: 154, b: 255 },
            warn_mid: Rgba { a: 240, r: 255, g: 200, b: 80 },
            warn_hi: Rgba { a: 240, r: 255, g: 99, b: 99 },
        }
    }
}

/// Both themes cover the widget with the same nearly invisible hit-test
/// layer (alpha 2), and every colour of either palette has a non-zero
/// alpha, so no drawn pixel lets clicks fall through to the taskbar.
pub proof fn lemma_palettes_hit_testable(light: bool)
    ensures
        palette_spec(light).hit == rgba(2, 0, 0, 0),
        all_visible(palette_spec(light)),
{
}

/// Whether the system theme is light, from reading the registry value
/// `SystemUsesLightTheme`: the read's status (0 for success) and the value
/// read. A failed read counts as dark (the Windows 11 default).
pub fn light_theme_from_registry(status: u32, value: u32) -> (light: bool)
    ensures
        light == (status == 0 && value != 0),
{
    status == 0 && value != 0
}

} // verus!
