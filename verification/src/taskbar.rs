//! Where the widget goes: just left of the notification area on the primary
//! taskbar, left of the clock on a secondary taskbar, or the bottom-right
//! corner of the work area in compatibility mode. The host measures the
//! taskbar windows; the geometry is computed here.

use vstd::prelude::*;
use crate::util::{fits_i32, in_i32, scale, scale_checked, scale_fits, scale_spec};

verus! {

/// Base widget width at 96 dpi.
pub const BASE_W: i32 = 46;

/// Width reserved for the secondary-taskbar clock at 96 dpi when the clock
/// has no window of its own to measure.
pub const SECONDARY_CLOCK_W: i32 = 100;

/// A window rectangle in screen coordinates.
#[derive(Clone, Copy, Debug, PartialEq, Eq, Structural)]
pub struct Rect {
    pub left: i32,
    pub top: i32,
    pub right: i32,
    pub bottom: i32,
}

/// Position and size of the widget, and the DPI it is drawn at.
#[derive(Clone, Copy, Debug, PartialEq, Eq, Structural)]
pub struct Placement {
    pub x: i32,
    pub y: i32,
    pub w: i32,
    pub h: i32,
    pub dpi: u32,
}

/// Height the widget takes in a bar `tray_h` pixels high: 12 logical pixels
/// less than the bar, at least 16, at most the bar itself.
pub open spec fn widget_height_spec(tray_h: int, dpi: u32) -> int {
    let a = tray_h - scale_spec(12, dpi);
    let b = if a > scale_spec(16, dpi) { a } else { scale_spec(16, dpi) };
    if b < tray_h { b } else { tray_h }
}

/// `placement_left_of`'s intermediate values all fit in an `i32`.
pub open spec fn left_of_fits(tr: Rect, anchor_x: i32, dpi: u32) -> bool {
    let tray_h = tr.bottom - tr.top;
    &&& in_i32(tray_h)
    &&& tray_h > 0 ==> {
        &&& scale_fits(BASE_W as int, dpi)
        &&& scale_fits(6, dpi)
        &&& scale_fits(12, dpi)
        &&& scale_fits(16, dpi)
        &&& in_i32(tray_h - scale_spec(12, dpi))
        &&& in_i32(anchor_x - tr.left)
        &&& in_i32(anchor_x - tr.left - scale_spec(6, dpi))
        &&& in_i32(anchor_x - tr.left - scale_spec(6, dpi) - scale_spec(BASE_W as int, dpi))
        &&& in_i32(tray_h - widget_height_spec(tray_h, dpi))
    }
}

/// A `BASE_W`-wide widget vertically centred in the bar, placed just left
/// of `anchor_x` (a screen coordinate) with a 6-pixel margin, in the bar's
/// client coordinates. `None` when the bar has no height or the widget would
/// stick out on the left.
pub open spec fn left_of_spec(tr: Rect, anchor_x: i32, dpi: u32) -> Option<Placement> {
    let tray_h = tr.bottom - tr.top;
    let w = scale_spec(BASE_W as int, dpi);
    let margin = scale_spec(6, dpi);
    let h = widget_height_spec(tray_h, dpi);
    let x = (anchor_x - tr.left) - margin - w;
    let y = (tray_h - h) / 2;
    if tray_h <= 0 || x < 0 {
        None
    } else {
        Some(Placement { x: x as i32, y: y as i32, w: w as i32, h: h as i32, dpi })
    }
}

/// Shared geometry of the primary and secondary taskbar placements. The
/// taskbar windows are borderless, so their window-rect origin is their
/// client origin.
pub fn placement_left_of(tr: &Rect, anchor_x: i32, dpi: u32) -> (r: Option<Placement>)
    requires
        left_of_fits(*tr, anchor_x, dpi),
    ensures
        r == left_of_spec(*tr, anchor_x, dpi),
{
    let tray_h: i32 = tr.bottom - tr.top;
    if tray_h <= 0 {
        return None;
    }
    let w = scale(BASE_W, dpi);
    let margin = scale(6, dpi);
    let s12 = scale(12, dpi);
    let s16 = scale(16, dpi);
    let a: i32 = tray_h - s12;
    let b: i32 = if a > s16 { a } else { s16 };
    let h: i32 = if b < tray_h { b } else { tray_h };
    let x: i32 = (anchor_x - tr.left) - margin - w;
    let y: i32 = (tray_h - h) / 2;
    if x < 0 {
        return None;
    }
    Some(Placement { x, y, w, h, dpi })
}

/// The widget placed by `placement_left_of` sits inside the bar: it starts
/// at or right of the bar's left edge, ends exactly the 6-pixel margin left
/// of the anchor (so it never covers the notification area or the clock),
/// and is vertically centred (to within one pixel) within the bar's height.
pub proof fn lemma_left_of_geometry(tr: Rect, anchor_x: i32, dpi: u32)
    requires
        dpi <= i32::MAX,
        left_of_fits(tr, anchor_x, dpi),
        left_of_spec(tr, anchor_x, dpi) is Some,
    ensures
        ({
            let p = left_of_spec(tr, anchor_x, dpi)->0;
            let tray_h = tr.bottom - tr.top;
            &&& p.x >= 0
            &&& tr.left + p.x + p.w + scale_spec(6, dpi) == anchor_x
            &&& p.w == scale_spec(BASE_W as int, dpi)
            &&& 0 <= p.h <= tray_h
            &&& p.y >= 0
            &&& p.y + p.h <= tray_h
            &&& p.y <= tray_h - (p.y + p.h) <= p.y + 1
            &&& p.dpi == dpi
        }),
{
    crate::util::lemma_scale_monotonic_in_value(0, 16, dpi);
    assert(scale_spec(0, dpi) == 0);
}

/// The x coordinate a secondary-taskbar widget is anchored to: the clock
/// window's left edge when the clock has a window right of the bar's left
/// edge (classic-style taskbars), otherwise the bar's right edge less a
/// fixed clock width (the Windows 11 clock is drawn without a window).
pub open spec fn secondary_anchor_spec(tr: Rect, clock: Option<Rect>, dpi: u32) -> int {
    match clock {
        Some(cr) if cr.left > tr.left => cr.left as int,
        _ => tr.right - scale_spec(SECONDARY_CLOCK_W as int, dpi),
    }
}

/// `secondary_placement`'s intermediate values fit in an `i32`.
pub open spec fn secondary_fits(tr: Rect, clock: Option<Rect>, dpi: u32) -> bool {
    &&& scale_fits(SECONDARY_CLOCK_W as int, dpi)
    &&& in_i32(tr.right - scale_spec(SECONDARY_CLOCK_W as int, dpi))
    &&& left_of_fits(tr, secondary_anchor_spec(tr, clock, dpi) as i32, dpi)
}

/// Placement in a secondary taskbar's client coordinates. Secondary
/// taskbars have no notification area: the widget goes left of the clock.
/// `clock` is the clock window's rectangle when the bar has one.
pub fn secondary_placement(tr: &Rect, clock: Option<Rect>, dpi: u32) -> (r: Option<Placement>)
    requires
        secondary_fits(*tr, clock, dpi),
    ensures
        r == left_of_spec(*tr, secondary_anchor_spec(*tr, clock, dpi) as i32, dpi),
{
    let mut anchor: i32 = tr.right - scale(SECONDARY_CLOCK_W, dpi);
    if let Some(cr) = clock {
        if cr.left > tr.left {
            anchor = cr.left;
        }
    }
    placement_left_of(tr, anchor, dpi)
}

/// `fallback_placement`'s intermediate values fit in an `i32`.
pub open spec fn fallback_fits(wa: Rect, dpi: u32) -> bool {
    &&& scale_fits(BASE_W as int, dpi)
    &&& scale_fits(28, dpi)
    &&& scale_fits(8, dpi)
    &&& in_i32(wa.right - scale_spec(BASE_W as int, dpi))
    &&& in_i32(wa.right - scale_spec(BASE_W as int, dpi) - scale_spec(8, dpi))
    &&& in_i32(wa.bottom - scale_spec(28, dpi))
    &&& in_i32(wa.bottom - scale_spec(28, dpi) - scale_spec(8, dpi))
}

/// The compatibility-mode placement: a `BASE_W` by 28 (logical pixels)
/// widget in the bottom-right corner of the work area `wa`, 8 logical
/// pixels in from both edges, in screen coordinates.
pub open spec fn fallback_spec(wa: Rect, dpi: u32) -> Placement {
    let w = scale_spec(BASE_W as int, dpi);
    let h = scale_spec(28, dpi);
    let m = scale_spec(8, dpi);
    Placement { x: (wa.right - w - m) as i32, y: (wa.bottom - h - m) as i32, w: w as i32, h: h as i32, dpi }
}

/// Compatibility mode: the bottom-right corner of the work area.
pub fn fallback_placement(wa: &Rect, dpi: u32) -> (p: Placement)
    requires
        fallback_fits(*wa, dpi),
    ensures
        p == fallback_spec(*wa, dpi),
{
    let w = scale(BASE_W, dpi);
    let h = scale(28, dpi);
    let m = scale(8, dpi);
    Placement { x: wa.right - w - m, y: wa.bottom - h - m, w, h, dpi }
}

/// The work area assumed when the system does not report one.
pub fn default_work_area() -> (r: Rect)
    ensures
        r == (Rect { left: 0, top: 0, right: 1280, bottom: 720 }),
{
    Rect { left: 0, top: 0, right: 1280, bottom: 720 }
}

/// The compatibility widget ends exactly the margin inside the work area's
/// right and bottom edges.
pub proof fn lemma_fallback_in_corner(wa: Rect, dpi: u32)
    requires
        fallback_fits(wa, dpi),
    ensures
        fallback_spec(wa, dpi).x + fallback_spec(wa, dpi).w + scale_spec(8, dpi) == wa.right,
        fallback_spec(wa, dpi).y + fallback_spec(wa, dpi).h + scale_spec(8, dpi) == wa.bottom,
{
}

/// The DPI of a window, or the system DPI when the window reports none (0).
pub fn effective_dpi(window_dpi: u32, system_dpi: u32) -> (d: u32)
    ensures
        d == if window_dpi == 0 { system_dpi } else { window_dpi },
{
    match window_dpi {
        0 => system_dpi,
        d => d,
    }
}

/// Whether `placement_left_of` can be called: its intermediate values fit
/// in an `i32` (where they do not, the computation would overflow).
pub fn left_of_fits_check(tr: &Rect, anchor_x: i32, dpi: u32) -> (r: bool)
    ensures
        r == left_of_fits(*tr, anchor_x, dpi),
{
    let tray_h: i64 = tr.bottom as i64 - tr.top as i64;
    if !fits_i32(tray_h) {
        return false;
    }
    if tray_h <= 0 {
        return true;
    }
    let w = match scale_checked(BASE_W, dpi) {
        Some(x) => x,
        None => return false,
    };
    let margin = match scale_checked(6, dpi) {
        Some(x) => x,
        None => return false,
    };
    let s12 = match scale_checked(12, dpi) {
        Some(x) => x,
        None => return false,
    };
    let s16 = match scale_checked(16, dpi) {
        Some(x) => x,
        None => return false,
    };
    let a: i64 = tray_h - s12 as i64;
    if !fits_i32(a) {
        return false;
    }
    let b: i64 = if a > s16 as i64 { a } else { s16 as i64 };
    let h: i64 = if b < tray_h { b } else { tray_h };
    let dx: i64 = anchor_x as i64 - tr.left as i64;
    if !fits_i32(dx) || !fits_i32(dx - margin as i64) || !fits_i32(dx - margin as i64 - w as i64) {
        return false;
    }
    fits_i32(tray_h - h)
}

/// Whether `secondary_placement` can be called (no `i32` overflow).
pub fn secondary_fits_check(tr: &Rect, clock: Option<Rect>, dpi: u32) -> (r: bool)
    ensures
        r == secondary_fits(*tr, clock, dpi),
{
    let c = match scale_checked(SECONDARY_CLOCK_W, dpi) {
        Some(x) => x,
        None => return false,
    };
    let anchor: i64 = tr.right as i64 - c as i64;
    if !fits_i32(anchor) {
        return false;
    }
    let mut a: i32 = anchor as i32;
    if let Some(cr) = clock {
        if cr.left > tr.left {
            a = cr.left;
        }
    }
    left_of_fits_check(tr, a, dpi)
}

/// Whether `fallback_placement` can be called (no `i32` overflow).
pub fn fallback_fits_check(wa: &Rect, dpi: u32) -> (r: bool)
    ensures
        r == fallback_fits(*wa, dpi),
{
    let w = match scale_checked(BASE_W, dpi) {
        Some(x) => x,
        None => return false,
    };
    let h = match scale_checked(28, dpi) {
        Some(x) => x,
        None => return false,
    };
    let m = match scale_checked(8, dpi) {
        Some(x) => x,
        None => return false,
    };
    fits_i32(wa.right as i64 - w as i64) && fits_i32(wa.right as i64 - w as i64 - m as i64)
        && fits_i32(wa.bottom as i64 - h as i64) && fits_i32(wa.bottom as i64 - h as i64 - m as i64)
}

/// A secondary-taskbar widget ends, with the 6-logical-pixel margin, at
/// the left edge of the clock window when the bar has one right of its left
/// edge, and otherwise at the bar's right edge less the DPI-scaled clock
/// reserve (`SECONDARY_CLOCK_W` logical pixels); it is `BASE_W` logical
/// pixels wide and drawn at the bar's DPI.
pub proof fn lemma_secondary_left_of_clock(tr: Rect, clock: Option<Rect>, dpi: u32)
    requires
        secondary_fits(tr, clock, dpi),
    ensures
        ({
            let r = left_of_spec(tr, secondary_anchor_spec(tr, clock, dpi) as i32, dpi);
            let end = match clock {
                Some(cr) if cr.left > tr.left => cr.left as int,
                _ => tr.right - scale_spec(SECONDARY_CLOCK_W as int, dpi),
            };
            r matches Some(p) ==> {
                &&& tr.left + p.x + p.w + scale_spec(6, dpi) == end
                &&& p.w == scale_spec(BASE_W as int, dpi)
                &&& p.x >= 0
                &&& p.dpi == dpi
            }
        }),
{
    let anchor = secondary_anchor_spec(tr, clock, dpi) as i32;
    let r = left_of_spec(tr, anchor, dpi);
    if r is Some {
        lemma_scale_in_i32(BASE_W as int, dpi);
    }
}

proof fn lemma_scale_in_i32(v: int, dpi: u32)
    requires
        scale_fits(v, dpi),
    ensures
        in_i32(scale_spec(v, dpi)),
{
    let p = v * crate::util::dpi_as_i32(dpi) + 48;
    vstd::arithmetic::div_mod::lemma_div_is_ordered(p, 0x7fff_ffff, 96);
    vstd::arithmetic::div_mod::lemma_div_is_ordered(-0x8000_0000, p, 96);
}

/// When `placement_left_of` places the widget and when it does not: it
/// needs a bar of positive height and room left of the anchor for the
/// widget and its margin. The widget is `BASE_W` logical pixels wide;
/// it is 12 logical pixels shorter than the bar but at least 16, and never
/// taller than the bar; it is centred (rounding down) in the bar's height.
pub proof fn lemma_left_of_result(tr: Rect, anchor_x: i32, dpi: u32)
    requires
        left_of_fits(tr, anchor_x, dpi),
    ensures
        ({
            let tray_h = tr.bottom - tr.top;
            let w = scale_spec(BASE_W as int, dpi);
            let x = anchor_x - tr.left - scale_spec(6, dpi) - w;
            let h0 = tray_h - scale_spec(12, dpi);
            let h1 = if h0 > scale_spec(16, dpi) { h0 } else { scale_spec(16, dpi) };
            let h = if h1 < tray_h { h1 } else { tray_h };
            &&& left_of_spec(tr, anchor_x, dpi) is Some <==> (tray_h > 0 && x >= 0)
            &&& left_of_spec(tr, anchor_x, dpi) matches Some(p) ==> {
                &&& p.x == x
                &&& p.w == w
                &&& p.h == h
                &&& p.y == (tray_h - h) / 2
                &&& p.dpi == dpi
            }
        }),
{
    let tray_h = tr.bottom - tr.top;
    if tray_h > 0 {
        lemma_scale_in_i32(BASE_W as int, dpi);
        lemma_scale_in_i32(12, dpi);
        lemma_scale_in_i32(16, dpi);
        let h = widget_height_spec(tray_h, dpi);
        if h >= 0 {
            assert(0 <= (tray_h - h) / 2 <= tray_h - h);
        }
    }
}

/// The compatibility widget is `BASE_W` by 28 logical pixels, drawn at the
/// system DPI, and ends 8 logical pixels inside the work area's right and
/// bottom edges.
pub proof fn lemma_fallback_size(wa: Rect, dpi: u32)
    requires
        fallback_fits(wa, dpi),
    ensures
        fallback_spec(wa, dpi).w == scale_spec(BASE_W as int, dpi),
        fallback_spec(wa, dpi).h == scale_spec(28, dpi),
        fallback_spec(wa, dpi).dpi == dpi,
        fallback_spec(wa, dpi).x == wa.right - scale_spec(BASE_W as int, dpi) - scale_spec(8, dpi),
        fallback_spec(wa, dpi).y == wa.bottom - scale_spec(28, dpi) - scale_spec(8, dpi),
{
    lemma_scale_in_i32(BASE_W as int, dpi);
    lemma_scale_in_i32(28, dpi);
}

} // verus!
