//! Geometry of the watermark: the preview size of an image, the five-row
//! band of logos, dashes and labels, and the diagonal label pattern used when
//! no logo is available. Every placement lies wholly inside the canvas.
use vstd::prelude::*;

verus! {

/// The longest side, in pixels, that a preview may have.
pub const MAX_PREVIEW_SIDE: u32 = 800;

/// Size of a preview of a `w` by `h` image whose longest side may be at most
/// `max`: unchanged when it fits, otherwise scaled so that its longer side is
/// `max` (the other side rounded down, and at least one pixel).
pub open spec fn preview_dimensions_of(w: int, h: int, max: int) -> (int, int) {
    if w <= max && h <= max {
        (w, h)
    } else if w > h {
        (max, at_least_one(h * max / w))
    } else {
        (at_least_one(w * max / h), max)
    }
}

pub open spec fn at_least_one(v: int) -> int {
    if v >= 1 {
        v
    } else {
        1
    }
}

/// Preview size of a `w` by `h` image (see `preview_dimensions_of`).
pub fn preview_dimensions(w: u32, h: u32, max: u32) -> (r: (u32, u32))
    requires
        max >= 1,
    ensures
        (r.0 as int, r.1 as int) == preview_dimensions_of(w as int, h as int, max as int),
        w <= max && h <= max ==> r == (w, h),
        w > max || h > max ==> if w >= h {
            r.0 == max
        } else {
            r.1 == max
        },
        w > max || h > max ==> r.0 <= max && r.1 <= max && r.0 >= 1 && r.1 >= 1,
        (w > max || h > max) && w > h && h >= 1 ==> -(w as int) < r.1 * w - h * max < w,
        (w > max || h > max) && h >= w && w >= 1 ==> -(h as int) < r.0 * h - w * max < h,
{
    if w <= max && h <= max {
        (w, h)
    } else if w > h {
        assert(0 <= h * max <= 0xffff_ffff * 0xffff_ffff) by (nonlinear_arith)
            requires
                h <= 0xffff_ffff,
                max <= 0xffff_ffff,
        ;
        let v: u64 = (h as u64) * (max as u64) / (w as u64);
        proof {
            lemma_scaled_side(h as int, w as int, max as int, v as int);
        }
        (max, if v >= 1 { v as u32 } else { 1 })
    } else {
        assert(0 <= w * max <= 0xffff_ffff * 0xffff_ffff) by (nonlinear_arith)
            requires
                w <= 0xffff_ffff,
                max <= 0xffff_ffff,
        ;
        let v: u64 = (w as u64) * (max as u64) / (h as u64);
        proof {
            lemma_scaled_side(w as int, h as int, max as int, v as int);
        }
        (if v >= 1 { v as u32 } else { 1 }, max)
    }
}

/// A preview is never empty and never larger than the limit.
pub proof fn lemma_preview_dimensions_bounds(w: int, h: int, max: int)
    requires
        1 <= w,
        1 <= h,
        1 <= max,
    ensures
        1 <= preview_dimensions_of(w, h, max).0 <= max,
        1 <= preview_dimensions_of(w, h, max).1 <= max,
{
    if !(w <= max && h <= max) {
        if w > h {
            lemma_scaled_side(h, w, max, h * max / w);
        } else {
            lemma_scaled_side(w, h, max, w * max / h);
        }
    }
}

/// The short side `s`, scaled by `max / l` and rounded down, stays within one
/// pixel of the exact value and within `max`.
proof fn lemma_scaled_side(s: int, l: int, max: int, v: int)
    requires
        0 <= s <= l,
        l >= 1,
        max >= 1,
        v == s * max / l,
    ensures
        v <= max,
        v * l <= s * max < v * l + l,
        s == l ==> v == max,
        s >= 1 ==> -l < at_least_one(v) * l - s * max < l,
{
    assert(s * max <= l * max) by (nonlinear_arith)
        requires
            0 <= s <= l,
            max >= 1,
    ;
    assert(v * l <= s * max < v * l + l) by (nonlinear_arith)
        requires
            l >= 1,
            v == s * max / l,
            s * max >= 0,
    ;
    if s == l {
        assert(v == max) by (nonlinear_arith)
            requires
                v * l <= l * max < v * l + l,
                l >= 1,
        ;
    }
    assert(v <= max) by (nonlinear_arith)
        requires
            v * l <= l * max,
            l >= 1,
    ;
    if s >= 1 {
        assert(s * max >= 1) by (nonlinear_arith)
            requires
                s >= 1,
                max >= 1,
        ;
        if v < 1 {
            assert(v == 0);
            assert(v * l == 0) by (nonlinear_arith)
                requires
                    v == 0,
            ;
            assert(at_least_one(v) * l == l);
        } else {
            assert(at_least_one(v) == v);
            assert(at_least_one(v) * l == v * l);
        }
    }
}

/// What a placement draws.
#[derive(Clone, Copy, Debug, PartialEq, Eq, Structural)]
pub enum Mark {
    /// The logo raster.
    Logo,
    /// A dash glyph.
    Dash,
    /// The site label.
    Label,
}

/// An element of the watermark with its bounding box in canvas pixels.
#[derive(Clone, Copy, Debug, PartialEq, Eq, Structural)]
pub struct Placement {
    pub mark: Mark,
    pub x: u32,
    pub y: u32,
    pub width: u32,
    pub height: u32,
}

/// A candidate element: mark, left, top, width, height.
pub type Region = (Mark, int, int, int, int);

impl View for Placement {
    type V = Region;

    open spec fn view(&self) -> Region {
        (self.mark, self.x as int, self.y as int, self.width as int, self.height as int)
    }
}

/// Whether a box lies wholly inside a `w` by `h` canvas.
pub open spec fn inside(b: Region, w: int, h: int) -> bool {
    0 <= b.1 && b.1 + b.3 <= w && 0 <= b.2 && b.2 + b.4 <= h
}

/// Division rounding toward zero.
pub open spec fn trunc_div(a: int, b: int) -> int {
    if a >= 0 {
        a / b
    } else {
        -((-a) / b)
    }
}

fn trunc_div_exec(a: i128, b: i128) -> (r: i128)
    requires
        b >= 1,
        -0x100_0000_0000_0000_0000_0000_0000_0000 < a < 0x100_0000_0000_0000_0000_0000_0000_0000,
    ensures
        r == trunc_div(a as int, b as int),
{
    if a >= 0 {
        a / b
    } else {
        -((-a) / b)
    }
}

// ---- the band of logos, dashes and labels ----

/// Logo width: 4% of the canvas width, at least 25 pixels.
pub open spec fn band_logo_width(w: int) -> int {
    if w / 25 > 25 {
        w / 25
    } else {
        25
    }
}

/// Logo height: the logo's aspect ratio kept, at least one pixel.
pub open spec fn band_logo_height(lw: int, logo_w: int, logo_h: int) -> int {
    at_least_one(lw * logo_h / logo_w)
}

/// Font size of dashes and labels, in tenths of a pixel: 60% of the logo
/// width, at least 10 pixels.
pub open spec fn band_font_tenths(lw: int) -> int {
    if 6 * lw > 100 {
        6 * lw
    } else {
        100
    }
}

/// The font size in whole pixels (rounded down): the height of a line of text.
pub open spec fn font_height(font_tenths: int) -> int {
    font_tenths / 10
}

/// Estimated width of a label of `n` characters: 0.6 of the font size per
/// character, rounded down.
pub open spec fn label_width(font_tenths: int, n: int) -> int {
    n * font_tenths * 6 / 100
}

/// Width of a dash glyph: 0.3 of the font size, rounded down.
pub open spec fn dash_width(font_tenths: int) -> int {
    font_tenths * 3 / 100
}

/// Gap between elements: the room that the elements leave in half the
/// canvas width, shared out; none when they fill it.
pub open spec fn band_gap(w: int, lw: int, tw: int, dw: int) -> int {
    let room = w / 2 - 2 * lw - tw - 2 * dw;
    if room > 0 {
        room / 6
    } else {
        0
    }
}

/// Left end of the centred half of the canvas width.
pub open spec fn half_left(w: int) -> int {
    w / 2 - (w / 2) / 2
}

/// Right end of the centred half of the canvas width.
pub open spec fn half_right(w: int) -> int {
    half_left(w) + w / 2
}

/// Whether a box lies within the centred half of the canvas width.
pub open spec fn within_half(b: Region, w: int) -> bool {
    half_left(w) <= b.1 && b.1 + b.3 <= half_right(w)
}

/// Distance between the centre lines of two rows: 12% of the canvas height.
pub open spec fn row_spacing(h: int) -> int {
    h * 3 / 25
}

/// Element `e` (left logo, left dash, label, right dash, right logo) of row
/// `r` of the band, on a `w` by `h` canvas, for a `logo_w` by `logo_h` logo
/// and a label of `n` characters. The five rows are centred vertically, and
/// the row is centred horizontally as a whole.
pub open spec fn band_candidate(w: int, h: int, logo_w: int, logo_h: int, n: int, r: int, e: int) -> Region {
    let lw = band_logo_width(w);
    let lh = band_logo_height(lw, logo_w, logo_h);
    let ft = band_font_tenths(lw);
    let fs = font_height(ft);
    let tw = label_width(ft, n);
    let dw = dash_width(ft);
    let gap = band_gap(w, lw, tw, dw);
    let pattern = 2 * lw + 2 * dw + tw + 4 * gap;
    let left = w / 2 - pattern / 2;
    let line = h / 2 - 2 * row_spacing(h) + r * row_spacing(h);
    if e == 0 {
        (Mark::Logo, left, line - lh / 2, lw, lh)
    } else if e == 1 {
        (Mark::Dash, left + lw + gap, line - fs / 2, dw, fs)
    } else if e == 2 {
        (Mark::Label, left + lw + 2 * gap + dw, line - fs / 2, tw, fs)
    } else if e == 3 {
        (Mark::Dash, left + lw + 3 * gap + dw + tw, line - fs / 2, dw, fs)
    } else {
        (Mark::Logo, left + lw + 4 * gap + 2 * dw + tw, line - lh / 2, lw, lh)
    }
}

/// The band candidates from index `t` on (row `t / 5`, element `t % 5`),
/// those that lie wholly inside the canvas and within its centred half, in
/// order.
pub open spec fn band_from(w: int, h: int, logo_w: int, logo_h: int, n: int, t: int) -> Seq<Region>
    decreases 25 - t,
{
    if t >= 25 || t < 0 {
        Seq::empty()
    } else {
        let c = band_candidate(w, h, logo_w, logo_h, n, t / 5, t % 5);
        let rest = band_from(w, h, logo_w, logo_h, n, t + 1);
        if inside(c, w, h) && within_half(c, w) {
            seq![c] + rest
        } else {
            rest
        }
    }
}

/// The placements of a watermark pattern and the font size, in tenths of a
/// pixel, of its dashes and labels.
pub struct Layout {
    pub font_tenths: u32,
    pub placements: Vec<Placement>,
}

pub open spec fn placement_views(v: Seq<Placement>) -> Seq<Region> {
    v.map_values(|p: Placement| p@)
}

proof fn lemma_product_bounds(a: int, b: int, bound_a: int, bound_b: int)
    requires
        0 <= a <= bound_a,
        0 <= b <= bound_b,
    ensures
        0 <= a * b <= bound_a * bound_b,
{
    assert(0 <= a * b <= bound_a * bound_b) by (nonlinear_arith)
        requires
            0 <= a <= bound_a,
            0 <= b <= bound_b,
    ;
}

#[verifier::rlimit(60)]
fn band_candidate_exec(w: u32, h: u32, logo_w: u32, logo_h: u32, n: u64, r: i128, e: i128) -> (res: (
    Mark,
    i128,
    i128,
    i128,
    i128,
))
    requires
        logo_w >= 1,
        0 <= r < 5,
        0 <= e < 5,
    ensures
        -0x1_0000_0000_0000_0000_0000_0000_0000 < res.1 < 0x1_0000_0000_0000_0000_0000_0000_0000,
        -0x1_0000_0000_0000_0000_0000_0000_0000 < res.2 < 0x1_0000_0000_0000_0000_0000_0000_0000,
        -0x1_0000_0000_0000_0000_0000_0000_0000 < res.3 < 0x1_0000_0000_0000_0000_0000_0000_0000,
        -0x1_0000_0000_0000_0000_0000_0000_0000 < res.4 < 0x1_0000_0000_0000_0000_0000_0000_0000,
        (res.0, res.1 as int, res.2 as int, res.3 as int, res.4 as int) == band_candidate(
            w as int,
            h as int,
            logo_w as int,
            logo_h as int,
            n as int,
            r as int,
            e as int,
        ),
{
    let w = w as i128;
    let h = h as i128;
    let lw: i128 = if w / 25 > 25 {
        w / 25
    } else {
        25
    };
    proof {
        lemma_product_bounds(lw as int, logo_h as int, 0xffff_ffff, 0xffff_ffff);
    }
    let scaled: i128 = lw * (logo_h as i128) / (logo_w as i128);
    assert(scaled <= lw * logo_h) by (nonlinear_arith)
        requires
            scaled == (lw as int) * (logo_h as int) / (logo_w as int),
            logo_w >= 1,
            lw * logo_h >= 0,
    ;
    let lh: i128 = if scaled >= 1 {
        scaled
    } else {
        1
    };
    assert(lw == band_logo_width(w as int));
    assert(lh == band_logo_height(lw as int, logo_w as int, logo_h as int));
    let ft: i128 = if 6 * lw > 100 {
        6 * lw
    } else {
        100
    };
    proof {
        lemma_product_bounds(n as int, ft as int, 0xffff_ffff_ffff_ffff, 0x6_0000_0000);
    }
    let fs: i128 = ft / 10;
    let tw: i128 = (n as i128) * ft * 6 / 100;
    let dw: i128 = ft * 3 / 100;
    assert(0 <= tw <= 0x10_0000_0000_0000_0000_0000_0000);
    assert(0 <= dw <= 0x1_0000_0000);
    assert(ft == band_font_tenths(lw as int));
    assert(tw == label_width(ft as int, n as int));
    assert(dw == dash_width(ft as int));
    let room: i128 = w / 2 - 2 * lw - tw - 2 * dw;
    let gap: i128 = if room > 0 {
        room / 6
    } else {
        0
    };
    let pattern: i128 = 2 * lw + 2 * dw + tw + 4 * gap;
    let left: i128 = w / 2 - pattern / 2;
    let spacing: i128 = h * 3 / 25;
    proof {
        lemma_product_bounds(r as int, spacing as int, 4, 0xffff_ffff);
    }
    let line: i128 = h / 2 - 2 * spacing + r * spacing;
    if e == 0 {
        (Mark::Logo, left, line - lh / 2, lw, lh)
    } else if e == 1 {
        (Mark::Dash, left + lw + gap, line - fs / 2, dw, fs)
    } else if e == 2 {
        (Mark::Label, left + lw + 2 * gap + dw, line - fs / 2, tw, fs)
    } else if e == 3 {
        (Mark::Dash, left + lw + 3 * gap + dw + tw, line - fs / 2, dw, fs)
    } else {
        (Mark::Logo, left + lw + 4 * gap + 2 * dw + tw, line - lh / 2, lw, lh)
    }
}

/// Size of the band's logo on a `w`-wide canvas for a `logo_w` by `logo_h` logo.
pub fn band_logo_size(w: u32, logo_w: u32, logo_h: u32) -> (r: (u32, u64))
    requires
        logo_w >= 1,
    ensures
        r.0 == band_logo_width(w as int),
        r.1 == band_logo_height(band_logo_width(w as int), logo_w as int, logo_h as int),
{
    let lw: u32 = if w / 25 > 25 {
        w / 25
    } else {
        25
    };
    proof {
        lemma_product_bounds(lw as int, logo_h as int, 0xffff_ffff, 0xffff_ffff);
    }
    let scaled: u64 = (lw as u64) * (logo_h as u64) / (logo_w as u64);
    (lw, if scaled >= 1 {
        scaled
    } else {
        1
    })
}

/// Lays out the band on a `w` by `h` canvas for a `logo_w` by `logo_h` logo
/// and a label of `label_len` characters: five rows of left logo, dash,
/// label, dash and right logo, left to right without overlap. An element
/// whose box would leave the canvas, or the centred half of its width, is
/// left out of its row.
pub fn band_layout(w: u32, h: u32, logo_w: u32, logo_h: u32, label_len: u64) -> (r: Layout)
    requires
        logo_w >= 1,
    ensures
        placement_views(r.placements@) == band_from(
            w as int,
            h as int,
            logo_w as int,
            logo_h as int,
            label_len as int,
            0,
        ),
        r.font_tenths == band_font_tenths(band_logo_width(w as int)),
        forall|i: int|
            0 <= i < r.placements@.len() ==> inside(#[trigger] r.placements@[i]@, w as int, h as int)
                && within_half(r.placements@[i]@, w as int),
        forall|row: int, e1: int, e2: int|
            0 <= row < 5 && 0 <= e1 < e2 < 5 ==> #[trigger] band_candidate(
                w as int,
                h as int,
                logo_w as int,
                logo_h as int,
                label_len as int,
                row,
                e1,
            ).1 + band_candidate(w as int, h as int, logo_w as int, logo_h as int, label_len as int, row, e1).3
                <= #[trigger] band_candidate(
                w as int,
                h as int,
                logo_w as int,
                logo_h as int,
                label_len as int,
                row,
                e2,
            ).1,
{
    proof {
        lemma_band_rows_ordered(w as int, h as int, logo_w as int, logo_h as int, label_len as int);
    }
    let mut out: Vec<Placement> = Vec::new();
    let mut t: i128 = 0;
    while t < 25
        invariant
            logo_w >= 1,
            0 <= t <= 25,
            placement_views(out@) + band_from(w as int, h as int, logo_w as int, logo_h as int, label_len as int, t as int)
                == band_from(w as int, h as int, logo_w as int, logo_h as int, label_len as int, 0),
            forall|i: int|
                0 <= i < out@.len() ==> inside(#[trigger] out@[i]@, w as int, h as int) && within_half(
                    out@[i]@,
                    w as int,
                ),
        decreases 25 - t,
    {
        let c = band_candidate_exec(w, h, logo_w, logo_h, label_len, t / 5, t % 5);
        let ghost rest = band_from(w as int, h as int, logo_w as int, logo_h as int, label_len as int, t + 1);
        let ghost before = placement_views(out@);
        let hl: i128 = (w as i128) / 2 - (w as i128) / 2 / 2;
        let hr: i128 = hl + (w as i128) / 2;
        if c.1 >= 0 && c.3 >= 0 && c.1 + c.3 <= w as i128 && c.2 >= 0 && c.4 >= 0 && c.2 + c.4 <= h as i128
            && hl <= c.1 && c.1 + c.3 <= hr {
            let p = Placement { mark: c.0, x: c.1 as u32, y: c.2 as u32, width: c.3 as u32, height: c.4 as u32 };
            out.push(p);
            proof {
                assert(placement_views(out@) =~= before.push(p@));
                assert(before.push(p@) + rest =~= before + (seq![p@] + rest));
            }
        } else {
            proof {
                lemma_band_sizes_nonneg(w as int, h as int, logo_w as int, logo_h as int, label_len as int, (t / 5) as int, (t % 5) as int);
            }
        }
        t = t + 1;
    }
    assert(placement_views(out@) =~= placement_views(out@) + Seq::<Region>::empty());
    let lw: u32 = if w / 25 > 25 {
        w / 25
    } else {
        25
    };
    let font_tenths: u32 = if 6 * lw > 100 {
        6 * lw
    } else {
        100
    };
    Layout { font_tenths, placements: out }
}

/// Within a row, each element ends before the next one begins.
pub proof fn lemma_band_rows_ordered(w: int, h: int, logo_w: int, logo_h: int, n: int)
    requires
        0 <= w,
        1 <= logo_w,
        0 <= logo_h,
        0 <= n,
    ensures
        forall|row: int, e1: int, e2: int|
            0 <= row < 5 && 0 <= e1 < e2 < 5 ==> #[trigger] band_candidate(w, h, logo_w, logo_h, n, row, e1).1
                + band_candidate(w, h, logo_w, logo_h, n, row, e1).3 <= #[trigger] band_candidate(
                w,
                h,
                logo_w,
                logo_h,
                n,
                row,
                e2,
            ).1,
{
    let lw = band_logo_width(w);
    let ft = band_font_tenths(lw);
    let tw = label_width(ft, n);
    let dw = dash_width(ft);
    assert(n * ft >= 0) by (nonlinear_arith)
        requires
            n >= 0,
            ft >= 0,
    ;
    assert(tw >= 0 && dw >= 0);
    assert(band_gap(w, lw, tw, dw) >= 0);
}

proof fn lemma_band_sizes_nonneg(w: int, h: int, logo_w: int, logo_h: int, n: int, r: int, e: int)
    requires
        0 <= w,
        1 <= logo_w,
        0 <= logo_h,
        0 <= n,
    ensures
        band_candidate(w, h, logo_w, logo_h, n, r, e).3 >= 0,
        band_candidate(w, h, logo_w, logo_h, n, r, e).4 >= 0,
{
    let lw = band_logo_width(w);
    let ft = band_font_tenths(lw);
    assert(n * ft >= 0) by (nonlinear_arith)
        requires
            n >= 0,
            ft >= 0,
    ;
}

// ---- the diagonal label pattern ----

/// Font size of the diagonal labels, in tenths of a pixel: 5% of the shorter
/// side, at least 16 pixels.
pub open spec fn diagonal_font_tenths(w: int, h: int) -> int {
    let m = if w < h {
        w
    } else {
        h
    };
    if m / 2 > 160 {
        m / 2
    } else {
        160
    }
}

/// Horizontal step of the grid: the width divided by 2.5, rounded down.
pub open spec fn diagonal_x_step(w: int) -> int {
    w * 2 / 5
}

/// Vertical step of the grid: a third of the height, rounded down.
pub open spec fn diagonal_y_step(h: int) -> int {
    h / 3
}

/// The grid point `(x, y)` turned by -30 degrees (cosine 0.866, sine -0.5,
/// each product rounded toward zero) about the origin, then moved to the
/// canvas centre; the label's box, `bw` by `bh`, starts there.
pub open spec fn diagonal_candidate(w: int, h: int, x: int, y: int, bw: int, bh: int) -> Region {
    (
        Mark::Label,
        trunc_div(866 * x + 500 * y, 1000) + w / 2,
        trunc_div(-500 * x + 866 * y, 1000) + h / 2,
        bw,
        bh,
    )
}

/// Whether a diagonal label's anchor lies strictly inside the canvas and
/// leaves room there for the label's whole box.
pub open spec fn anchored(b: Region, w: int, h: int) -> bool {
    0 < b.1 && b.1 + b.3 < w && 0 < b.2 && b.2 + b.4 < h
}

/// The anchored labels of grid row `y`, for grid columns from `x` up to `2w`.
pub open spec fn diagonal_row_from(w: int, h: int, y: int, x: int, bw: int, bh: int) -> Seq<Region>
    decreases 2 * w - x + diagonal_x_step(w),
{
    if x >= 2 * w || diagonal_x_step(w) < 1 {
        Seq::empty()
    } else {
        let c = diagonal_candidate(w, h, x, y, bw, bh);
        let rest = diagonal_row_from(w, h, y, x + diagonal_x_step(w), bw, bh);
        if anchored(c, w, h) {
            seq![c] + rest
        } else {
            rest
        }
    }
}

/// The anchored labels of grid rows from `y` up to `2h`, the columns of
/// each row starting at `-w`.
pub open spec fn diagonal_rows_from(w: int, h: int, y: int, bw: int, bh: int) -> Seq<Region>
    decreases 2 * h - y + diagonal_y_step(h),
{
    if y >= 2 * h || diagonal_y_step(h) < 1 || diagonal_x_step(w) < 1 {
        Seq::empty()
    } else {
        diagonal_row_from(w, h, y, -w, bw, bh) + diagonal_rows_from(w, h, y + diagonal_y_step(h), bw, bh)
    }
}

/// The diagonal pattern of a `w` by `h` canvas for a label of `n`
/// characters: the grid spans `-h..2h` by `-w..2w`, and each label's box is
/// its estimated width by the font height.
pub open spec fn diagonal_layout_of(w: int, h: int, n: int) -> Seq<Region> {
    let ft = diagonal_font_tenths(w, h);
    diagonal_rows_from(w, h, -h, label_width(ft, n), font_height(ft))
}

fn diagonal_candidate_exec(w: u32, h: u32, x: i64, y: i64) -> (r: (i64, i64))
    requires
        -0x4_0000_0000 <= x <= 0x4_0000_0000,
        -0x4_0000_0000 <= y <= 0x4_0000_0000,
    ensures
        diagonal_candidate(w as int, h as int, x as int, y as int, 0, 0).1 == r.0,
        diagonal_candidate(w as int, h as int, x as int, y as int, 0, 0).2 == r.1,
        -0x1_0000_0000_0000 < r.0 < 0x1_0000_0000_0000,
        -0x1_0000_0000_0000 < r.1 < 0x1_0000_0000_0000,
{
    let a: i64 = 866 * x + 500 * y;
    let b: i64 = 866 * y - 500 * x;
    let ta = trunc_div_exec(a as i128, 1000) as i64;
    let tb = trunc_div_exec(b as i128, 1000) as i64;
    (ta + (w / 2) as i64, tb + (h / 2) as i64)
}

/// Lays out the fallback pattern on a `w` by `h` canvas for a label of
/// `label_len` characters: the label repeated over a grid three times the
/// canvas in each direction, each grid point turned by -30 degrees about the
/// centre, and kept only where the label's whole box fits inside the canvas.
pub fn diagonal_layout(w: u32, h: u32, label_len: u64) -> (r: Layout)
    ensures
        placement_views(r.placements@) == diagonal_layout_of(w as int, h as int, label_len as int),
        r.font_tenths == diagonal_font_tenths(w as int, h as int),
        forall|i: int|
            0 <= i < r.placements@.len() ==> inside(#[trigger] r.placements@[i]@, w as int, h as int),
{
    let m = if w < h {
        w
    } else {
        h
    };
    let font_tenths: u32 = if m / 2 > 160 {
        m / 2
    } else {
        160
    };
    proof {
        lemma_product_bounds(label_len as int, font_tenths as int, 0xffff_ffff_ffff_ffff, 0xffff_ffff);
    }
    let bw: i128 = (label_len as i128) * (font_tenths as i128) * 6 / 100;
    let bh: i128 = (font_tenths / 10) as i128;
    let ghost gbw = label_width(font_tenths as int, label_len as int);
    let ghost gbh = font_height(font_tenths as int);
    assert(bw == gbw && bh == gbh);
    assert(0 <= bw <= 0x10_0000_0000_0000_0000_0000_0000);
    let mut out: Vec<Placement> = Vec::new();
    let xs: i64 = (w as i64) * 2 / 5;
    let ys: i64 = (h as i64) / 3;
    let wi = w as i64;
    let hi = h as i64;
    if xs < 1 || ys < 1 {
        assert(diagonal_layout_of(w as int, h as int, label_len as int) =~= Seq::<Region>::empty());
        assert(placement_views(out@) =~= Seq::<Region>::empty());
        return Layout { font_tenths, placements: out };
    }
    let mut y: i64 = -hi;
    while y < 2 * hi
        invariant
            xs == diagonal_x_step(w as int),
            ys == diagonal_y_step(h as int),
            xs >= 1,
            ys >= 1,
            wi == w,
            hi == h,
            bw == gbw,
            bh == gbh,
            0 <= bw <= 0x10_0000_0000_0000_0000_0000_0000,
            0 <= bh <= 0x1_0000_0000,
            gbw == label_width(diagonal_font_tenths(w as int, h as int), label_len as int),
            gbh == font_height(diagonal_font_tenths(w as int, h as int)),
            -hi <= y <= 2 * hi + ys,
            placement_views(out@) + diagonal_rows_from(w as int, h as int, y as int, gbw, gbh)
                == diagonal_layout_of(w as int, h as int, label_len as int),
            forall|i: int| 0 <= i < out@.len() ==> inside(#[trigger] out@[i]@, w as int, h as int),
        decreases 2 * hi + ys - y,
    {
        let ghost later = diagonal_rows_from(w as int, h as int, y + ys, gbw, gbh);
        let ghost row = diagonal_row_from(w as int, h as int, y as int, -wi as int, gbw, gbh);
        assert(diagonal_rows_from(w as int, h as int, y as int, gbw, gbh) == row + later);
        assert(placement_views(out@) + (row + later) =~= placement_views(out@) + row + later);
        let mut x: i64 = -wi;
        while x < 2 * wi
            invariant
                xs == diagonal_x_step(w as int),
                ys == diagonal_y_step(h as int),
                xs >= 1,
                ys >= 1,
                wi == w,
                hi == h,
                bw == gbw,
                bh == gbh,
                0 <= bw <= 0x10_0000_0000_0000_0000_0000_0000,
                0 <= bh <= 0x1_0000_0000,
                gbw == label_width(diagonal_font_tenths(w as int, h as int), label_len as int),
                gbh == font_height(diagonal_font_tenths(w as int, h as int)),
                -hi <= y < 2 * hi,
                -wi <= x <= 2 * wi + xs,
                later == diagonal_rows_from(w as int, h as int, y + ys, gbw, gbh),
                placement_views(out@) + diagonal_row_from(w as int, h as int, y as int, x as int, gbw, gbh)
                    + later == diagonal_layout_of(w as int, h as int, label_len as int),
                forall|i: int| 0 <= i < out@.len() ==> inside(#[trigger] out@[i]@, w as int, h as int),
            decreases 2 * wi + xs - x,
        {
            let ghost before = placement_views(out@);
            let ghost rest = diagonal_row_from(w as int, h as int, y as int, x + xs, gbw, gbh);
            let ghost c = diagonal_candidate(w as int, h as int, x as int, y as int, gbw, gbh);
            assert(diagonal_row_from(w as int, h as int, y as int, x as int, gbw, gbh) == if anchored(
                c,
                w as int,
                h as int,
            ) {
                seq![c] + rest
            } else {
                rest
            });
            let (rx, ry) = diagonal_candidate_exec(w, h, x, y);
            if rx > 0 && (rx as i128) + bw < wi as i128 && ry > 0 && (ry as i128) + bh < hi as i128 {
                let p = Placement {
                    mark: Mark::Label,
                    x: rx as u32,
                    y: ry as u32,
                    width: bw as u32,
                    height: bh as u32,
                };
                out.push(p);
                proof {
                    assert(p@ == c);
                    assert(placement_views(out@) =~= before.push(p@));
                    assert(before.push(p@) + rest + later =~= before + (seq![p@] + rest) + later);
                }
            }
            x = x + xs;
        }
        assert(placement_views(out@) + later =~= placement_views(out@) + Seq::<Region>::empty() + later);
        y = y + ys;
    }
    assert(placement_views(out@) =~= placement_views(out@) + Seq::<Region>::empty());
    Layout { font_tenths, placements: out }
}

} // verus!
