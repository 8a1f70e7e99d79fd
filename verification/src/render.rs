//! Drawing the two bars into a 32-bit premultiplied-alpha pixel buffer.
//! Only two bars are drawn, so every pixel is written directly (GDI drawing
//! calls would destroy the alpha channel anyway); the host copies the buffer
//! into its layered window.

use vstd::prelude::*;
use crate::metrics::Load;
use crate::theme::{Palette, Rgba};
use crate::util::{fits_i32, div_toward_zero, in_i32, scale, scale_checked, scale_fits, scale_spec};

verus! {

/// One colour channel scaled by alpha.
pub open spec fn premul_channel(x: u8, a: u8) -> int {
    (x as int) * (a as int) / 255
}

/// The premultiplied `0xAARRGGBB` pixel value of a colour.
pub open spec fn premul_spec(c: Rgba) -> u32 {
    ((c.a as int) * 0x100_0000 + premul_channel(c.r, c.a) * 0x1_0000 + premul_channel(c.g, c.a)
        * 0x100 + premul_channel(c.b, c.a)) as u32
}

proof fn lemma_premul_channel_bound(x: u8, a: u8)
    ensures
        0 <= premul_channel(x, a) <= a,
{
    assert(0 <= (x as int) * (a as int) <= 255 * (a as int)) by (nonlinear_arith)
        requires
            0 <= x <= 255,
            0 <= a,
    ;
    vstd::arithmetic::div_mod::lemma_div_is_ordered(
        (x as int) * (a as int),
        255 * (a as int),
        255,
    );
    vstd::arithmetic::div_mod::lemma_div_pos_is_pos((x as int) * (a as int), 255);
    vstd::arithmetic::div_mod::lemma_div_multiples_vanish(a as int, 255);
}

/// The layered window API requires premultiplied alpha.
pub fn premul(c: Rgba) -> (p: u32)
    ensures
        p == premul_spec(c),
{
    let a: u32 = c.a as u32;
    proof {
        lemma_premul_channel_bound(c.r, c.a);
        lemma_premul_channel_bound(c.g, c.a);
        lemma_premul_channel_bound(c.b, c.a);
    }
    assert((c.r as u32) * a <= 255 * 255) by (nonlinear_arith)
        requires
            c.r <= 255,
            a <= 255,
    ;
    assert((c.g as u32) * a <= 255 * 255) by (nonlinear_arith)
        requires
            c.g <= 255,
            a <= 255,
    ;
    assert((c.b as u32) * a <= 255 * 255) by (nonlinear_arith)
        requires
            c.b <= 255,
            a <= 255,
    ;
    let r: u32 = c.r as u32 * a / 255;
    let g: u32 = c.g as u32 * a / 255;
    let b: u32 = c.b as u32 * a / 255;
    assert(r <= a && g <= a && b <= a && a <= 255);
    let p: u32 = (a << 24) | (r << 16) | (g << 8) | b;
    assert(p == a * 0x100_0000 + r * 0x1_0000 + g * 0x100 + b) by (bit_vector)
        requires
            p == (a << 24) | (r << 16) | (g << 8) | b,
            a <= 255,
            r <= 255,
            g <= 255,
            b <= 255,
    ;
    p
}

/// Premultiplying keeps the alpha in the top byte and never lets a colour
/// channel exceed the alpha; an opaque colour keeps its channels.
pub proof fn lemma_premul_properties(c: Rgba)
    ensures
        premul_spec(c) / 0x100_0000 == c.a,
        premul_channel(c.r, c.a) <= c.a,
        premul_channel(c.g, c.a) <= c.a,
        premul_channel(c.b, c.a) <= c.a,
        c.a == 255 ==> premul_channel(c.r, c.a) == c.r && premul_channel(c.g, c.a) == c.g
            && premul_channel(c.b, c.a) == c.b,
{
    lemma_premul_channel_bound(c.r, c.a);
    lemma_premul_channel_bound(c.g, c.a);
    lemma_premul_channel_bound(c.b, c.a);
    let low = premul_channel(c.r, c.a) * 0x1_0000 + premul_channel(c.g, c.a) * 0x100
        + premul_channel(c.b, c.a);
    assert(0 <= low < 0x100_0000);
    vstd::arithmetic::div_mod::lemma_fundamental_div_mod_converse(
        (c.a as int) * 0x100_0000 + low,
        0x100_0000,
        c.a as int,
        low,
    );
    if c.a == 255 {
        vstd::arithmetic::div_mod::lemma_div_multiples_vanish(c.r as int, 255);
        vstd::arithmetic::div_mod::lemma_div_multiples_vanish(c.g as int, 255);
        vstd::arithmetic::div_mod::lemma_div_multiples_vanish(c.b as int, 255);
        assert((c.r as int) * 255 == 255 * (c.r as int));
        assert((c.g as int) * 255 == 255 * (c.g as int));
        assert((c.b as int) * 255 == 255 * (c.b as int));
    }
}

} // verus!

verus! {

/// The part of a load that counts: `num` clamped to `den`.
pub open spec fn clamped_num(load: Load) -> int {
    if load.num <= load.den {
        load.num as int
    } else {
        load.den as int
    }
}

/// Pixels of a `w`-pixel track that a load fills: `w * load` clamped to
/// `[0, w]` and rounded to the nearest pixel, halves rounding up.
pub open spec fn fill_width_spec(w: int, load: Load) -> int {
    if load.den == 0 {
        0
    } else {
        (2 * w * clamped_num(load) + load.den) / (2 * (load.den as int))
    }
}

/// How loaded a meter is, which picks its bar colour.
#[derive(Clone, Copy, Debug, PartialEq, Eq, Structural)]
pub enum Level {
    /// Below 80 %.
    Normal,
    /// From 80 % to below 90 %.
    Mid,
    /// 90 % and above.
    High,
}

/// The level of a load: 90 % and above is high, 80 % and above is mid.
pub open spec fn level_spec(load: Load) -> Level {
    if load.den > 0 && 10 * load.num >= 9 * load.den {
        Level::High
    } else if load.den > 0 && 5 * load.num >= 4 * load.den {
        Level::Mid
    } else {
        Level::Normal
    }
}

/// The bar colour for a level: the warning colours win over the base colour.
pub open spec fn bar_color_spec(level: Level, pal: Palette, base: Rgba) -> Rgba {
    match level {
        Level::High => pal.warn_hi,
        Level::Mid => pal.warn_mid,
        Level::Normal => base,
    }
}

proof fn lemma_fill_width_bounds(w: int, load: Load)
    requires
        w >= 0,
    ensures
        0 <= fill_width_spec(w, load) <= w,
{
    if load.den > 0 {
        let n = clamped_num(load);
        let d = load.den as int;
        assert(0 <= 2 * w * n + d < 2 * d * (w + 1)) by (nonlinear_arith)
            requires
                0 <= n <= d,
                d > 0,
                w >= 0,
        ;
        let x = 2 * w * n + d;
        let q = x / (2 * d);
        vstd::arithmetic::div_mod::lemma_div_pos_is_pos(x, 2 * d);
        vstd::arithmetic::div_mod::lemma_fundamental_div_mod(x, 2 * d);
        assert(q <= w) by (nonlinear_arith)
            requires
                x == (2 * d) * q + x % (2 * d),
                0 <= x % (2 * d),
                x < 2 * d * (w + 1),
                d > 0,
        ;
    }
}

/// Pixels of a `w`-pixel track that `load` fills.
pub fn fill_width(w: i32, load: Load) -> (fw: i32)
    requires
        w >= 0,
    ensures
        fw == fill_width_spec(w as int, load),
        0 <= fw <= w,
{
    proof {
        lemma_fill_width_bounds(w as int, load);
    }
    if load.den == 0 {
        return 0;
    }
    let n: u64 = if load.num <= load.den {
        load.num
    } else {
        load.den
    };
    let w128: u128 = w as u128;
    let n128: u128 = n as u128;
    let d128: u128 = load.den as u128;
    assert(w128 * n128 <= 0x8000_0000 * 0x1_0000_0000_0000_0000) by (nonlinear_arith)
        requires
            w128 < 0x8000_0000,
            n128 < 0x1_0000_0000_0000_0000,
    ;
    let num: u128 = 2 * (w128 * n128) + d128;
    let den: u128 = 2 * d128;
    assert(2 * (w128 * n128) == 2 * w * clamped_num(load)) by (nonlinear_arith)
        requires
            w128 == w,
            n128 == clamped_num(load),
    ;
    let q: u128 = num / den;
    q as i32
}

/// The level of a load (thresholds 80 % and 90 %).
pub fn level(load: Load) -> (lv: Level)
    ensures
        lv == level_spec(load),
{
    let num: u128 = load.num as u128;
    let den: u128 = load.den as u128;
    if den > 0 && 10 * num >= 9 * den {
        Level::High
    } else if den > 0 && 5 * num >= 4 * den {
        Level::Mid
    } else {
        Level::Normal
    }
}

/// The colour a bar is drawn in.
pub fn bar_color(load: Load, pal: &Palette, base: Rgba) -> (c: Rgba)
    ensures
        c == bar_color_spec(level_spec(load), *pal, base),
{
    match level(load) {
        Level::High => pal.warn_hi,
        Level::Mid => pal.warn_mid,
        Level::Normal => base,
    }
}

} // verus!

verus! {

/// Whether the pixel at flat index `i` of a `width`-wide row-major buffer
/// lies in the rectangle `x..x+w` by `y..y+h`.
pub open spec fn in_rect(i: int, width: int, x: int, y: int, w: int, h: int) -> bool {
    &&& x <= i % width < x + w
    &&& y <= i / width < y + h
}

/// A buffer after filling a rectangle (clipped to the buffer) with `c`.
pub open spec fn fill_spec(px: Seq<u32>, width: int, x: int, y: int, w: int, h: int, c: u32) -> Seq<u32> {
    Seq::new(px.len(), |i: int| if in_rect(i, width, x, y, w, h) { c } else { px[i] })
}

/// A row-major pixel buffer, `0xAARRGGBB` premultiplied, top row first.
pub struct Renderer {
    pixels: Vec<u32>,
    w: i32,
    h: i32,
}

impl View for Renderer {
    type V = Seq<u32>;

    closed spec fn view(&self) -> Seq<u32> {
        self.pixels@
    }
}

impl Renderer {
    /// Width of the surface in pixels.
    pub closed spec fn spec_width(&self) -> int {
        self.w as int
    }

    /// Height of the surface in pixels.
    pub closed spec fn spec_height(&self) -> int {
        self.h as int
    }

    /// The shape every surface keeps: positive sides, a pixel count that
    /// fits in an `i32`, one buffer entry per pixel.
    pub open spec fn shape_ok(&self) -> bool {
        &&& self.spec_width() > 0
        &&& self.spec_height() > 0
        &&& self.spec_width() * self.spec_height() <= i32::MAX
        &&& self@.len() == self.spec_width() * self.spec_height()
    }

    /// A `w` by `h` surface, all pixels 0 (transparent). `None` when a side
    /// is not positive, or when the pixel count exceeds `i32::MAX`, beyond
    /// which the drawing arithmetic (which indexes pixels with `i32`s) would
    /// overflow.
    pub fn new(w: i32, h: i32) -> (r: Option<Renderer>)
        ensures
            r is Some <==> (w > 0 && h > 0 && w * h <= i32::MAX),
            r matches Some(rr) ==> rr.shape_ok() && rr.spec_width() == w && rr.spec_height() == h && rr@ == Seq::new(
                (w * h) as nat,
                |i: int| 0u32,
            ),
    {
        if w <= 0 || h <= 0 {
            return None;
        }
        assert((w as i64) * (h as i64) <= 0x7fff_ffff * 0x7fff_ffff) by (nonlinear_arith)
            requires
                0 < w <= 0x7fff_ffff,
                0 < h <= 0x7fff_ffff,
        ;
        let wide_n: i64 = w as i64 * h as i64;
        if wide_n > i32::MAX as i64 {
            return None;
        }
        let n: usize = wide_n as usize;
        let mut pixels: Vec<u32> = Vec::new();
        let mut k: usize = 0;
        while k < n
            invariant
                k <= n,
                pixels@ == Seq::new(k as nat, |i: int| 0u32),
            decreases n - k,
        {
            pixels.push(0);
            k = k + 1;
        }
        Some(Renderer { pixels, w, h })
    }

    /// Width of the surface in pixels.
    pub fn width(&self) -> (r: i32)
        ensures
            r == self.spec_width(),
    {
        self.w
    }

    /// Height of the surface in pixels.
    pub fn height(&self) -> (r: i32)
        ensures
            r == self.spec_height(),
    {
        self.h
    }

    /// The pixels, row-major, top row first.
    pub fn pixels(&self) -> (r: &[u32])
        ensures
            r@ == self@,
    {
        self.pixels.as_slice()
    }
}

proof fn lemma_flat_index(yy: int, xx: int, width: int, height: int)
    requires
        0 <= yy < height,
        0 <= xx < width,
    ensures
        0 <= yy * width + xx < width * height,
        (yy * width + xx) % width == xx,
        (yy * width + xx) / width == yy,
{
    assert(0 <= yy * width + xx < width * height) by (nonlinear_arith)
        requires
            0 <= yy < height,
            0 <= xx < width,
    ;
    vstd::arithmetic::div_mod::lemma_fundamental_div_mod_converse(yy * width + xx, width, yy, xx);
}

proof fn lemma_index_in_bounds(i: int, width: int, height: int)
    requires
        0 <= i < width * height,
        width > 0,
    ensures
        0 <= i % width < width,
        0 <= i / width < height,
{
    vstd::arithmetic::div_mod::lemma_fundamental_div_mod(i, width);
    vstd::arithmetic::div_mod::lemma_div_pos_is_pos(i, width);
    assert(i / width < height) by (nonlinear_arith)
        requires
            i == width * (i / width) + i % width,
            0 <= i % width,
            i < width * height,
            width > 0,
    ;
}

impl Renderer {
    /// Fill the rectangle `x..x+w` by `y..y+h`, clipped to the surface.
    fn fill(&mut self, x: i32, y: i32, w: i32, h: i32, c: u32)
        requires
            old(self).shape_ok(),
            i32::MIN <= x + w <= i32::MAX,
            i32::MIN <= y + h <= i32::MAX,
        ensures
            final(self).shape_ok(),
            final(self).spec_width() == old(self).spec_width(),
            final(self).spec_height() == old(self).spec_height(),
            final(self)@ == fill_spec(old(self)@, old(self).spec_width(), x as int, y as int, w as int, h as int, c),
    {
        let ghost old_px = self.pixels@;
        let width = self.w;
        let height = self.h;
        let x0: i32 = if x > 0 { x } else { 0 };
        let y0: i32 = if y > 0 { y } else { 0 };
        let x1: i32 = if x + w < width { x + w } else { width };
        let y1: i32 = if y + h < height { y + h } else { height };
        let mut yy: i32 = y0;
        while yy < y1
            invariant
                width == self.w,
                height == self.h,
                width > 0,
                height > 0,
                width * height <= i32::MAX,
                old_px.len() == width * height,
                self.pixels@.len() == width * height,
                x0 == if x > 0 { x } else { 0 },
                y0 == if y > 0 { y } else { 0 },
                x1 == if x + w < width { x + w } else { width as int },
                y1 == if y + h < height { y + h } else { height as int },
                y0 <= yy,
                yy <= y1 || yy == y0,
                forall|i: int|
                    0 <= i < width * height ==> #[trigger] self.pixels@[i] == if x <= i % (width as int) < x + w && y <= i / (width as int) < yy {
                        c
                    } else {
                        old_px[i]
                    },
            decreases y1 - yy,
        {
            assert(0 <= yy < height);
            proof {
                assert(yy * width <= (height - 1) * width) by (nonlinear_arith)
                    requires
                        yy <= height - 1,
                        width > 0,
                ;
                assert((height - 1) * width <= width * height) by (nonlinear_arith)
                    requires
                        width > 0,
                ;
                assert(yy * width >= 0) by (nonlinear_arith)
                    requires
                        yy >= 0,
                        width > 0,
                ;
            }
            let row: i32 = yy * width;
            let mut xx: i32 = x0;
            while xx < x1
                invariant
                    width == self.w,
                    height == self.h,
                    width > 0,
                    height > 0,
                    width * height <= i32::MAX,
                    old_px.len() == width * height,
                    self.pixels@.len() == width * height,
                    x0 == if x > 0 { x } else { 0 },
                    x1 == if x + w < width { x + w } else { width as int },
                    0 <= yy < height,
                    y0 <= yy < y1,
                    y0 == if y > 0 { y } else { 0 },
                    row == yy * width,
                    x0 <= xx,
                    xx <= x1 || xx == x0,
                    forall|i: int|
                        0 <= i < width * height ==> #[trigger] self.pixels@[i] == if (x <= i % (width as int) < x + w && y <= i / (width as int) < yy) || (i / (width as int) == yy && x <= i % (width as int) < xx) {
                            c
                        } else {
                            old_px[i]
                        },
                decreases x1 - xx,
            {
                proof {
                    lemma_flat_index(yy as int, xx as int, width as int, height as int);
                }
                let idx: usize = (row + xx) as usize;
                let ghost before = self.pixels@;
                self.pixels.set(idx, c);
                proof {
                    assert forall|i: int| 0 <= i < width * height implies #[trigger] self.pixels@[i]
                        == if (x <= i % (width as int) < x + w && y <= i / (width as int) < yy) || (i / (width as int) == yy && x <= i % (width as int) < xx + 1) {
                            c
                        } else {
                            old_px[i]
                        } by {
                        if i == idx as int {
                            assert(i % (width as int) == xx);
                            assert(i / (width as int) == yy);
                            assert(x <= x0);
                            assert(self.pixels@[i] == c);
                        } else {
                            assert(self.pixels@[i] == before[i]);
                            assert(before[i] == if (x <= i % (width as int) < x + w && y <= i / (width as int) < yy) || (i / (width as int) == yy && x <= i % (width as int) < xx) {
                                c
                            } else {
                                old_px[i]
                            });
                            if i / (width as int) == yy && i % (width as int) == xx {
                                vstd::arithmetic::div_mod::lemma_fundamental_div_mod(i, width as int);
                                vstd::arithmetic::mul::lemma_mul_is_commutative(width as int, yy as int);
                                assert(i == yy * width + xx);
                                assert(false);
                            }
                        }
                    }
                }
                xx = xx + 1;
            }
            proof {
                assert forall|i: int| 0 <= i < width * height implies #[trigger] self.pixels@[i]
                    == if x <= i % (width as int) < x + w && y <= i / (width as int) < yy + 1 {
                        c
                    } else {
                        old_px[i]
                    } by {
                    lemma_index_in_bounds(i, width as int, height as int);
                }
            }
            yy = yy + 1;
        }
        proof {
            assert forall|i: int| 0 <= i < width * height implies #[trigger] self.pixels@[i]
                == fill_spec(old_px, width as int, x as int, y as int, w as int, h as int, c)[i] by {
                lemma_index_in_bounds(i, width as int, height as int);
            }
            assert(self.pixels@ =~= fill_spec(old_px, width as int, x as int, y as int, w as int, h as int, c));
        }
    }
}

/// A buffer after drawing one bar: the whole track in `track`, then the
/// left part that the load fills in `fill`.
pub open spec fn bar_spec(px: Seq<u32>, width: int, x: int, y: int, w: int, h: int, load: Load, track: u32, fill: u32) -> Seq<u32> {
    let t = fill_spec(px, width, x, y, w, h, track);
    let fw = fill_width_spec(w, load);
    if fw > 0 {
        fill_spec(t, width, x, y, fw, h, fill)
    } else {
        t
    }
}

/// Left and right padding of the tracks.
pub open spec fn pad_spec(dpi: u32) -> int {
    scale_spec(2, dpi)
}

/// Height of each bar (at least 3 pixels).
pub open spec fn bar_height_spec(dpi: u32) -> int {
    if scale_spec(6, dpi) > 3 { scale_spec(6, dpi) } else { 3 }
}

/// Gap between the two bars (at least 2 pixels).
pub open spec fn gap_spec(dpi: u32) -> int {
    if scale_spec(4, dpi) > 2 { scale_spec(4, dpi) } else { 2 }
}

/// Top of the CPU bar: the pair of bars is centred vertically, but never
/// starts above the top edge.
pub open spec fn top_spec(height: int, dpi: u32) -> int {
    let t = div_toward_zero(height - (2 * bar_height_spec(dpi) + gap_spec(dpi)), 2);
    if t > 0 { t } else { 0 }
}

/// Width of both tracks (at least 1 pixel).
pub open spec fn track_width_spec(width: int, dpi: u32) -> int {
    if width - 2 * pad_spec(dpi) > 1 { width - 2 * pad_spec(dpi) } else { 1 }
}

/// The whole picture: the hit-test layer everywhere, the CPU bar on top and
/// the memory bar below it, each in its warning colour when loaded enough.
pub open spec fn draw_spec(width: int, height: int, cpu: Load, mem: Load, pal: Palette, dpi: u32) -> Seq<u32> {
    let pad = pad_spec(dpi);
    let bar_h = bar_height_spec(dpi);
    let gap = gap_spec(dpi);
    let y0 = top_spec(height, dpi);
    let tw = track_width_spec(width, dpi);
    let track = premul_spec(pal.track);
    let s0 = Seq::new((width * height) as nat, |i: int| premul_spec(pal.hit));
    let s1 = bar_spec(s0, width, pad, y0, tw, bar_h, cpu, track, premul_spec(bar_color_spec(level_spec(cpu), pal, pal.cpu)));
    bar_spec(s1, width, pad, y0 + bar_h + gap, tw, bar_h, mem, track, premul_spec(bar_color_spec(level_spec(mem), pal, pal.mem)))
}

/// All intermediate values of `draw` on a `width` by `height` surface at
/// `dpi` fit in an `i32` (where they do not, the computation overflows).
pub open spec fn draw_fits(width: int, height: int, dpi: u32) -> bool {
    let pad = pad_spec(dpi);
    let bar_h = bar_height_spec(dpi);
    let gap = gap_spec(dpi);
    let total = 2 * bar_h + gap;
    &&& scale_fits(2, dpi)
    &&& scale_fits(4, dpi)
    &&& scale_fits(6, dpi)
    &&& in_i32(total)
    &&& in_i32(height - total)
    &&& in_i32(2 * pad)
    &&& in_i32(width - 2 * pad)
    &&& in_i32(pad + track_width_spec(width, dpi))
    &&& in_i32(top_spec(height, dpi) + total)
}

/// Whether `draw` can run on a `width` by `height` surface at `dpi`
/// without overflowing.
pub fn draw_fits_check(width: i32, height: i32, dpi: u32) -> (r: bool)
    ensures
        r == draw_fits(width as int, height as int, dpi),
{
    let pad = match scale_checked(2, dpi) {
        Some(x) => x,
        None => return false,
    };
    let s4 = match scale_checked(4, dpi) {
        Some(x) => x,
        None => return false,
    };
    let s6 = match scale_checked(6, dpi) {
        Some(x) => x,
        None => return false,
    };
    let bar_h: i64 = if s6 > 3 { s6 as i64 } else { 3 };
    let gap: i64 = if s4 > 2 { s4 as i64 } else { 2 };
    let total: i64 = 2 * bar_h + gap;
    if !fits_i32(total) || !fits_i32(height as i64 - total) {
        return false;
    }
    let d: i64 = height as i64 - total;
    let t: i64 = if d >= 0 { d / 2 } else { -((-d) / 2) };
    let y0: i64 = if t > 0 { t } else { 0 };
    let tw0: i64 = width as i64 - 2 * pad as i64;
    let track_w: i64 = if tw0 > 1 { tw0 } else { 1 };
    fits_i32(2 * pad as i64) && fits_i32(tw0) && fits_i32(pad as i64 + track_w)
        && fits_i32(y0 + total)
}

impl Renderer {
    /// Draw one bar: the track, then the part of it that `load` fills.
    fn bar(&mut self, x: i32, y: i32, w: i32, h: i32, load: Load, track: u32, fill: u32)
        requires
            old(self).shape_ok(),
            w >= 0,
            i32::MIN <= x + w <= i32::MAX,
            i32::MIN <= y + h <= i32::MAX,
        ensures
            final(self).shape_ok(),
            final(self).spec_width() == old(self).spec_width(),
            final(self).spec_height() == old(self).spec_height(),
            final(self)@ == bar_spec(old(self)@, old(self).spec_width(), x as int, y as int, w as int, h as int, load, track, fill),
    {
        self.fill(x, y, w, h, track);
        let fw = fill_width(w, load);
        if fw > 0 {
            self.fill(x, y, fw, h, fill);
        }
    }

    /// Draw the CPU bar (top) and the memory bar (bottom) over a nearly
    /// invisible hit-test layer that covers the whole surface.
    pub fn draw(&mut self, cpu: Load, mem: Load, pal: &Palette, dpi: u32)
        requires
            old(self).shape_ok(),
            draw_fits(old(self).spec_width(), old(self).spec_height(), dpi),
        ensures
            final(self).shape_ok(),
            final(self).spec_width() == old(self).spec_width(),
            final(self).spec_height() == old(self).spec_height(),
            final(self)@ == draw_spec(old(self).spec_width(), old(self).spec_height(), cpu, mem, *pal, dpi),
    {
        // Fill the whole surface with a nearly invisible colour (alpha 2):
        // alpha-0 pixels would let clicks fall through to the taskbar, and
        // the entire widget has to be hit-testable.
        let hit = premul(pal.hit);
        let width = self.w;
        let height = self.h;
        let n: usize = (width * height) as usize;
        let mut i: usize = 0;
        while i < n
            invariant
                width == self.w,
                height == self.h,
                n == width * height,
                n == self.pixels@.len(),
                i <= n,
                forall|j: int| 0 <= j < i ==> #[trigger] self.pixels@[j] == hit,
            decreases n - i,
        {
            self.pixels.set(i, hit);
            i = i + 1;
        }
        assert(self.pixels@ =~= Seq::new((self.w * self.h) as nat, |j: int| premul_spec(pal.hit)));
        let pad = scale(2, dpi);
        let s6 = scale(6, dpi);
        let bar_h: i32 = if s6 > 3 { s6 } else { 3 };
        let s4 = scale(4, dpi);
        let gap: i32 = if s4 > 2 { s4 } else { 2 };
        let total: i32 = bar_h * 2 + gap;
        let t: i32 = (self.h - total) / 2;
        let y0: i32 = if t > 0 { t } else { 0 };
        let tw0: i32 = self.w - pad * 2;
        let track_w: i32 = if tw0 > 1 { tw0 } else { 1 };
        let track = premul(pal.track);
        let cpu_fill = premul(bar_color(cpu, pal, pal.cpu));
        let mem_fill = premul(bar_color(mem, pal, pal.mem));
        self.bar(pad, y0, track_w, bar_h, cpu, track, cpu_fill);
        self.bar(pad, y0 + bar_h + gap, track_w, bar_h, mem, track, mem_fill);
    }
}

/// The alpha byte of a `0xAARRGGBB` pixel.
pub open spec fn alpha_of(px: u32) -> int {
    px as int / 0x100_0000
}

proof fn lemma_fill_keeps_visible(px: Seq<u32>, width: int, x: int, y: int, w: int, h: int, c: u32)
    requires
        forall|i: int| 0 <= i < px.len() ==> alpha_of(#[trigger] px[i]) > 0,
        alpha_of(c) > 0,
    ensures
        forall|i: int|
            0 <= i < px.len() ==> alpha_of(#[trigger] fill_spec(px, width, x, y, w, h, c)[i]) > 0,
{
}

proof fn lemma_bar_keeps_visible(px: Seq<u32>, width: int, x: int, y: int, w: int, h: int, load: Load, track: u32, fill: u32)
    requires
        forall|i: int| 0 <= i < px.len() ==> alpha_of(#[trigger] px[i]) > 0,
        alpha_of(track) > 0,
        alpha_of(fill) > 0,
    ensures
        bar_spec(px, width, x, y, w, h, load, track, fill).len() == px.len(),
        forall|i: int|
            0 <= i < px.len() ==> alpha_of(#[trigger] bar_spec(px, width, x, y, w, h, load, track, fill)[i]) > 0,
{
    lemma_fill_keeps_visible(px, width, x, y, w, h, track);
    let t = fill_spec(px, width, x, y, w, h, track);
    lemma_fill_keeps_visible(t, width, x, y, fill_width_spec(w, load), h, fill);
}

/// With a palette whose colours all have a non-zero alpha (both built-in
/// palettes qualify), every pixel `draw` leaves has a non-zero alpha: the
/// whole widget stays hit-testable and no click falls through to the
/// taskbar.
pub proof fn lemma_draw_hit_testable(width: int, height: int, cpu: Load, mem: Load, pal: Palette, dpi: u32)
    requires
        width > 0,
        height > 0,
        crate::theme::all_visible(pal),
    ensures
        draw_spec(width, height, cpu, mem, pal, dpi).len() == width * height,
        forall|i: int|
            0 <= i < width * height ==> alpha_of(#[trigger] draw_spec(width, height, cpu, mem, pal, dpi)[i]) > 0,
{
    assert(width * height > 0) by (nonlinear_arith)
        requires
            width > 0,
            height > 0,
    ;
    lemma_premul_properties(pal.hit);
    lemma_premul_properties(pal.track);
    let cpu_c = bar_color_spec(level_spec(cpu), pal, pal.cpu);
    let mem_c = bar_color_spec(level_spec(mem), pal, pal.mem);
    lemma_premul_properties(cpu_c);
    lemma_premul_properties(mem_c);
    let pad = pad_spec(dpi);
    let bar_h = bar_height_spec(dpi);
    let gap = gap_spec(dpi);
    let y0 = top_spec(height, dpi);
    let tw = track_width_spec(width, dpi);
    let track = premul_spec(pal.track);
    let s0 = Seq::new((width * height) as nat, |i: int| premul_spec(pal.hit));
    lemma_bar_keeps_visible(s0, width, pad, y0, tw, bar_h, cpu, track, premul_spec(cpu_c));
    let s1 = bar_spec(s0, width, pad, y0, tw, bar_h, cpu, track, premul_spec(cpu_c));
    lemma_bar_keeps_visible(s1, width, pad, y0 + bar_h + gap, tw, bar_h, mem, track, premul_spec(mem_c));
}

/// An unmeasured or idle load fills nothing; a full (or over-full) load
/// fills the whole track; the filled part never leaves the track.
pub proof fn lemma_fill_width_extremes(w: int, load: Load)
    requires
        w >= 0,
    ensures
        0 <= fill_width_spec(w, load) <= w,
        load.num == 0 ==> fill_width_spec(w, load) == 0,
        load.den > 0 && load.num >= load.den ==> fill_width_spec(w, load) == w,
{
    lemma_fill_width_bounds(w, load);
    if load.den > 0 {
        let d = load.den as int;
        if load.num == 0 {
            assert(clamped_num(load) == 0);
            assert(2 * w * 0 == 0) by (nonlinear_arith);
            vstd::arithmetic::div_mod::lemma_basic_div(d, 2 * d);
        }
        if load.num >= load.den {
            assert(2 * w * d + d == (2 * d) * w + d) by (nonlinear_arith);
            vstd::arithmetic::div_mod::lemma_fundamental_div_mod_converse(2 * w * d + d, 2 * d, w, d);
        }
    }
}

proof fn lemma_floor_div_monotonic(p1: int, q1: int, p2: int, q2: int)
    requires
        p1 >= 0,
        q1 > 0,
        q2 > 0,
        p1 * q2 <= p2 * q1,
    ensures
        p1 / q1 <= p2 / q2,
{
    let k = p1 / q1;
    vstd::arithmetic::div_mod::lemma_fundamental_div_mod(p1, q1);
    vstd::arithmetic::div_mod::lemma_div_pos_is_pos(p1, q1);
    assert(k * q2 <= p2) by (nonlinear_arith)
        requires
            p1 == q1 * k + p1 % q1,
            p1 % q1 >= 0,
            k >= 0,
            q2 > 0,
            q1 > 0,
            p1 * q2 <= p2 * q1,
    ;
    vstd::arithmetic::div_mod::lemma_div_is_ordered(k * q2, p2, q2);
    vstd::arithmetic::div_mod::lemma_div_multiples_vanish(k, q2);
    assert(k * q2 == q2 * k) by (nonlinear_arith);
}

/// The bar grows with the load: a load that is at least as large a
/// fraction fills at least as many pixels.
pub proof fn lemma_fill_width_monotonic(w: int, a: Load, b: Load)
    requires
        w >= 0,
        a.den > 0,
        b.den > 0,
        (a.num as int) * (b.den as int) <= (b.num as int) * (a.den as int),
    ensures
        fill_width_spec(w, a) <= fill_width_spec(w, b),
{
    let na = clamped_num(a);
    let nb = clamped_num(b);
    let da = a.den as int;
    let db = b.den as int;
    if b.num > b.den {
        assert(na <= da);
        assert(na * db <= db * da) by (nonlinear_arith)
            requires
                na <= da,
                db > 0,
        ;
    } else if a.num > a.den {
        assert(da * db < (a.num as int) * db) by (nonlinear_arith)
            requires
                da < a.num,
                db > 0,
        ;
        assert(db * da <= (b.num as int) * da) by (nonlinear_arith)
            requires
                da * db < (a.num as int) * db,
                (a.num as int) * db <= (b.num as int) * da,
        ;
        assert(db <= b.num) by (nonlinear_arith)
            requires
                db * da <= (b.num as int) * da,
                da > 0,
        ;
        assert(na * db <= nb * da) by (nonlinear_arith)
            requires
                na == da,
                nb == db,
        ;
    }
    assert(na * db <= nb * da);
    assert((2 * w * na + da) * (2 * db) <= (2 * w * nb + db) * (2 * da)) by (nonlinear_arith)
        requires
            na * db <= nb * da,
            w >= 0,
    ;
    assert(2 * w * na + da >= 0) by (nonlinear_arith)
        requires
            w >= 0,
            na >= 0,
            da > 0,
    ;
    lemma_floor_div_monotonic(2 * w * na + da, 2 * da, 2 * w * nb + db, 2 * db);
}

/// The bars turn to the warning colours at the documented thresholds: a
/// load of at least 90 % is drawn in `warn_hi`, one of at least 80 % (and
/// below 90 %) in `warn_mid`, any lower load in the bar's own colour.
pub proof fn lemma_warning_thresholds(load: Load, pal: Palette, base: Rgba)
    requires
        load.den > 0,
    ensures
        100 * (load.num as int) >= 90 * (load.den as int) ==> bar_color_spec(level_spec(load), pal, base) == pal.warn_hi,
        80 * (load.den as int) <= 100 * (load.num as int) < 90 * (load.den as int) ==> bar_color_spec(level_spec(load), pal, base) == pal.warn_mid,
        100 * (load.num as int) < 80 * (load.den as int) ==> bar_color_spec(level_spec(load), pal, base) == base,
{
}

/// The two bars never overlap (the memory bar starts at least two pixels
/// below the CPU bar), and when the surface is tall enough for both bars
/// and the gap they sit fully inside it, centred to within one pixel.
pub proof fn lemma_bars_layout(width: int, height: int, dpi: u32)
    ensures
        top_spec(height, dpi) + bar_height_spec(dpi) + 2 <= top_spec(height, dpi) + bar_height_spec(dpi) + gap_spec(dpi),
        height >= 2 * bar_height_spec(dpi) + gap_spec(dpi) ==> ({
            let y0 = top_spec(height, dpi);
            let bottom = y0 + 2 * bar_height_spec(dpi) + gap_spec(dpi);
            &&& 0 <= y0
            &&& bottom <= height
            &&& y0 <= height - bottom <= y0 + 1
        }),
{
}

/// Every pixel `draw` leaves, by where it lies. The layout (in logical
/// pixels scaled to the DPI): a padding of 2 on both sides, bars 6 high (at
/// least 3 pixels) with a gap of 4 (at least 2) between them, the pair
/// centred vertically (never above the top edge), tracks spanning the
/// width between the paddings (at least 1 pixel). Each bar fills the left
/// part of its track, the track width times the load (clamped to 100 %)
/// rounded to the nearest pixel, in the warning red `warn_hi` from 90 %
/// load, the warning yellow `warn_mid` from 80 %, and otherwise in its own
/// colour (`cpu` for the top bar, `mem` for the bottom one); the rest of
/// each track is in the track colour and every other pixel in the hit-test
/// colour. All colours are premultiplied.
pub proof fn lemma_draw_pixels(width: int, height: int, cpu: Load, mem: Load, pal: Palette, dpi: u32)
    requires
        width > 0,
        height > 0,
    ensures
        draw_spec(width, height, cpu, mem, pal, dpi).len() == width * height,
        forall|i: int|
            0 <= i < width * height ==> {
                let col = i % width;
                let row = i / width;
                let pad = scale_spec(2, dpi);
                let bar_h = if scale_spec(6, dpi) > 3 { scale_spec(6, dpi) } else { 3 };
                let gap = if scale_spec(4, dpi) > 2 { scale_spec(4, dpi) } else { 2 };
                let free = height - (2 * bar_h + gap);
                let top = if free > 0 { free / 2 } else { 0 };
                let mtop = top + bar_h + gap;
                let tw = if width - 2 * pad > 1 { width - 2 * pad } else { 1 };
                let cpu_n: int = if cpu.num <= cpu.den { cpu.num as int } else { cpu.den as int };
                let mem_n: int = if mem.num <= mem.den { mem.num as int } else { mem.den as int };
                let cpu_fw = if cpu.den == 0 { 0 } else { (2 * tw * cpu_n + cpu.den) / (2 * (cpu.den as int)) };
                let mem_fw = if mem.den == 0 { 0 } else { (2 * tw * mem_n + mem.den) / (2 * (mem.den as int)) };
                let cpu_c = if cpu.den > 0 && 100 * (cpu.num as int) >= 90 * (cpu.den as int) {
                    pal.warn_hi
                } else if cpu.den > 0 && 100 * (cpu.num as int) >= 80 * (cpu.den as int) {
                    pal.warn_mid
                } else {
                    pal.cpu
                };
                let mem_c = if mem.den > 0 && 100 * (mem.num as int) >= 90 * (mem.den as int) {
                    pal.warn_hi
                } else if mem.den > 0 && 100 * (mem.num as int) >= 80 * (mem.den as int) {
                    pal.warn_mid
                } else {
                    pal.mem
                };
                #[trigger] draw_spec(width, height, cpu, mem, pal, dpi)[i] == if top <= row < top + bar_h && pad <= col < pad + cpu_fw {
                    premul_spec(cpu_c)
                } else if top <= row < top + bar_h && pad <= col < pad + tw {
                    premul_spec(pal.track)
                } else if mtop <= row < mtop + bar_h && pad <= col < pad + mem_fw {
                    premul_spec(mem_c)
                } else if mtop <= row < mtop + bar_h && pad <= col < pad + tw {
                    premul_spec(pal.track)
                } else {
                    premul_spec(pal.hit)
                }
            },
{
    assert(width * height > 0) by (nonlinear_arith)
        requires
            width > 0,
            height > 0,
    ;
    let free = height - (2 * bar_height_spec(dpi) + gap_spec(dpi));
    if free > 0 {
        assert(top_spec(height, dpi) == free / 2);
    } else {
        assert((-free) / 2 >= 0);
        assert(top_spec(height, dpi) == 0);
    }
}

} // verus!
