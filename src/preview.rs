//! The image preview: decode, shrink to the preview size, lay out the
//! watermark and composite its logos; then encode the finished canvas as a
//! low-quality JPEG.
use crate::layout::{
    band_font_tenths, band_from, band_layout, band_logo_height, band_logo_size, band_logo_width,
    diagonal_font_tenths, diagonal_layout, diagonal_layout_of, inside, lemma_preview_dimensions_bounds,
    placement_views,
    preview_dimensions, preview_dimensions_of, Layout, Mark, Placement, Region, MAX_PREVIEW_SIDE,
};
use crate::raster::{
    composite_image, composite_logo, decode_rgba, encode_jpeg, jpeg_encoded,
    lemma_composite_keeps_outside, pixel_index, resample, triangle_resampled, Raster, Resampling,
};
use vstd::prelude::*;

verus! {

/// JPEG quality of previews, deliberately far below a normal preview's.
pub const PREVIEW_JPEG_QUALITY: u8 = 25;

/// Opacity, in percent, applied on top of the logo's own alpha.
pub const LOGO_OPACITY_PCT: u32 = 70;

/// Alpha of the band's dashes and labels.
pub const BAND_TEXT_ALPHA: u8 = 150;

/// Alpha of the diagonal labels.
pub const DIAGONAL_TEXT_ALPHA: u8 = 80;

/// Whether the image crate's resampler can hold the buffers of a resize of a
/// `w`-wide raster to `nw` by `nh`.
pub open spec fn resample_fits(w: int, nw: int, nh: int) -> bool {
    16 * nw * nh <= usize::MAX && 16 * w * nh <= usize::MAX
}

fn resample_fits_exec(w: u32, nw: u32, nh: u32) -> (r: bool)
    ensures
        r == resample_fits(w as int, nw as int, nh as int),
{
    assert(0 <= nw * nh <= 0xffff_ffff * 0xffff_ffff) by (nonlinear_arith)
        requires
            nw <= 0xffff_ffff,
            nh <= 0xffff_ffff,
    ;
    assert(0 <= w * nh <= 0xffff_ffff * 0xffff_ffff) by (nonlinear_arith)
        requires
            w <= 0xffff_ffff,
            nh <= 0xffff_ffff,
    ;
    assert(16 * nw * nh == 16 * (nw * nh) && 16 * w * nh == 16 * (w * nh)) by (nonlinear_arith);
    let a: u128 = 16 * ((nw as u128) * (nh as u128));
    let b: u128 = 16 * ((w as u128) * (nh as u128));
    a <= usize::MAX as u128 && b <= usize::MAX as u128
}

/// A raster shrunk to the preview size: unchanged when it already fits,
/// otherwise resampled with the triangle filter. `None` where the resampler
/// could not hold the buffers.
pub open spec fn downscaled_of(w: u32, h: u32, px: Seq<u8>) -> Option<(u32, u32, Seq<u8>)> {
    let (nw, nh) = preview_dimensions_of(w as int, h as int, MAX_PREVIEW_SIDE as int);
    if w <= MAX_PREVIEW_SIDE && h <= MAX_PREVIEW_SIDE {
        Some((w, h, px))
    } else if resample_fits(w as int, nw, nh) {
        Some((nw as u32, nh as u32, triangle_resampled(w, h, px, nw as u32, nh as u32)))
    } else {
        None
    }
}

/// Shrinks `img` to the preview size (see `downscaled_of`).
pub fn downscale(img: Raster) -> (r: Option<Raster>)
    requires
        img.wf(),
        img.width >= 1,
        img.height >= 1,
    ensures
        r is Some <==> downscaled_of(img.width, img.height, img.pixels@) is Some,
        r matches Some(s) ==> s.wf() && downscaled_of(img.width, img.height, img.pixels@) == Some(
            (s.width, s.height, s.pixels@),
        ),
{
    if img.width <= MAX_PREVIEW_SIDE && img.height <= MAX_PREVIEW_SIDE {
        return Some(img);
    }
    let (nw, nh) = preview_dimensions(img.width, img.height, MAX_PREVIEW_SIDE);
    if !resample_fits_exec(img.width, nw, nh) {
        return None;
    }
    Some(resample(&img, nw, nh, Resampling::Triangle))
}

/// Whether any of the placements is a logo.
pub open spec fn has_logo(ps: Seq<Region>) -> bool {
    exists|i: int| 0 <= i < ps.len() && (#[trigger] ps[i]).0 == Mark::Logo
}

/// The canvas after the logo (a `lw` by `lh` raster) is composited at every
/// logo placement of `ps`, in order.
pub open spec fn logos_composited(base: Seq<u8>, w: int, logo: Seq<u8>, lw: int, lh: int, ps: Seq<Region>) -> Seq<u8>
    decreases ps.len(),
{
    if ps.len() == 0 {
        base
    } else {
        let prev = logos_composited(base, w, logo, lw, lh, ps.drop_last());
        let p = ps.last();
        if p.0 == Mark::Logo {
            composite_image(prev, w, logo, lw, lh, p.1, p.2, LOGO_OPACITY_PCT as int)
        } else {
            prev
        }
    }
}

/// Whether pixel `(px, py)` lies under none of the logo placements of `ps`
/// (each `lw` by `lh`).
pub open spec fn outside_logos(ps: Seq<Region>, lw: int, lh: int, px: int, py: int) -> bool {
    forall|j: int|
        0 <= j < ps.len() && (#[trigger] ps[j]).0 == Mark::Logo ==> !(ps[j].1 <= px < ps[j].1 + lw
            && ps[j].2 <= py < ps[j].2 + lh)
}

/// Compositing logos changes nothing but the colour channels of the pixels
/// under the logo placements: the alpha channel, and every pixel outside all
/// the logos' boxes, keep their values.
pub proof fn lemma_logos_keep_outside(
    base: Seq<u8>,
    w: int,
    h: int,
    logo: Seq<u8>,
    lw: int,
    lh: int,
    ps: Seq<Region>,
    px: int,
    py: int,
    c: int,
)
    requires
        base.len() == 4 * w * h,
        0 <= px < w,
        0 <= py < h,
        0 <= c < 4,
        c == 3 || outside_logos(ps, lw, lh, px, py),
    ensures
        logos_composited(base, w, logo, lw, lh, ps).len() == base.len(),
        logos_composited(base, w, logo, lw, lh, ps)[pixel_index(w, px, py, c)] == base[pixel_index(
            w,
            px,
            py,
            c,
        )],
    decreases ps.len(),
{
    if ps.len() > 0 {
        let rest = ps.drop_last();
        assert forall|j: int|
            0 <= j < rest.len() && (#[trigger] rest[j]).0 == Mark::Logo implies !(rest[j].1 <= px
                < rest[j].1 + lw && rest[j].2 <= py < rest[j].2 + lh) || c == 3 by {
            if c != 3 {
                assert(ps[j] == rest[j]);
            }
        }
        lemma_logos_keep_outside(base, w, h, logo, lw, lh, rest, px, py, c);
        let prev = logos_composited(base, w, logo, lw, lh, rest);
        let p = ps.last();
        if p.0 == Mark::Logo {
            if c != 3 {
                assert(ps[ps.len() - 1] == p);
            }
            lemma_composite_keeps_outside(prev, w, h, logo, lw, lh, p.1, p.2, LOGO_OPACITY_PCT as int, px, py, c);
        }
    }
}

/// A logo can serve the band when it is well formed and not empty.
pub open spec fn usable_logo(logo: Option<&Raster>) -> bool {
    logo matches Some(l) && l.wf() && l.width >= 1 && l.height >= 1
}

/// The plan of a preview: canvas size, the pixels before any logo is
/// composited, the placements, the font size in tenths of a pixel, whether
/// the band was used, and the logo size where logos are to be composited.
pub struct PreviewPlan {
    pub width: u32,
    pub height: u32,
    pub base: Seq<u8>,
    pub placements: Seq<Region>,
    pub font_tenths: int,
    pub banded: bool,
    pub logo_size: Option<(int, int)>,
}

/// The plan of the preview of a `w` by `h` raster, given the size of a
/// usable logo if there is one and a label of `n` characters. `None` where a
/// resampler's buffers do not fit.
pub open spec fn preview_plan_of(w: u32, h: u32, px: Seq<u8>, logo: Option<(u32, u32)>, n: int) -> Option<
    PreviewPlan,
> {
    match downscaled_of(w, h, px) {
        None => None,
        Some((cw, ch, cpx)) => match logo {
            None => Some(
                PreviewPlan {
                    width: cw,
                    height: ch,
                    base: cpx,
                    placements: diagonal_layout_of(cw as int, ch as int, n),
                    font_tenths: diagonal_font_tenths(cw as int, ch as int),
                    banded: false,
                    logo_size: None,
                },
            ),
            Some((logo_w, logo_h)) => {
                let ps = band_from(cw as int, ch as int, logo_w as int, logo_h as int, n, 0);
                let lw = band_logo_width(cw as int);
                let lh = band_logo_height(lw, logo_w as int, logo_h as int);
                let plan = PreviewPlan {
                    width: cw,
                    height: ch,
                    base: cpx,
                    placements: ps,
                    font_tenths: band_font_tenths(lw),
                    banded: true,
                    logo_size: None,
                };
                if !has_logo(ps) {
                    Some(plan)
                } else if resample_fits(logo_w as int, lw, lh) {
                    Some(PreviewPlan { logo_size: Some((lw, lh)), ..plan })
                } else {
                    None
                }
            },
        },
    }
}

pub open spec fn logo_dims(logo: Option<&Raster>) -> Option<(u32, u32)> {
    if usable_logo(logo) {
        Some((logo->0.width, logo->0.height))
    } else {
        None
    }
}

/// A preview canvas with its logos composited, and the layout whose dashes
/// and labels are still to be drawn on it.
pub struct Preview {
    pub canvas: Raster,
    pub layout: Layout,
    /// Whether the band was used (otherwise the diagonal labels were).
    pub banded: bool,
}

/// Whether a preview follows its plan. Where logos are composited, the
/// canvas is the base with the resized logo (of the plan's logo size) at
/// every logo placement.
pub open spec fn follows_plan(p: Preview, plan: PreviewPlan) -> bool {
    &&& p.canvas.wf()
    &&& p.canvas.width == plan.width
    &&& p.canvas.height == plan.height
    &&& placement_views(p.layout.placements@) == plan.placements
    &&& p.layout.font_tenths == plan.font_tenths
    &&& p.banded == plan.banded
    &&& match plan.logo_size {
        None => p.canvas.pixels@ == plan.base,
        Some((lw, lh)) => exists|small: Seq<u8>|
            small.len() == 4 * lw * lh && p.canvas.pixels@ == logos_composited(
                plan.base,
                plan.width as int,
                small,
                lw,
                lh,
                plan.placements,
            ),
    }
}

/// Composites `logo` at every logo placement of `ps`, in order.
pub fn composite_logos(canvas: &mut Raster, logo: &Raster, ps: &Vec<Placement>)
    requires
        old(canvas).wf(),
        logo.wf(),
    ensures
        final(canvas).wf(),
        final(canvas).width == old(canvas).width,
        final(canvas).height == old(canvas).height,
        final(canvas).pixels@ == logos_composited(
            old(canvas).pixels@,
            old(canvas).width as int,
            logo.pixels@,
            logo.width as int,
            logo.height as int,
            placement_views(ps@),
        ),
{
    let ghost base = canvas.pixels@;
    let mut i: usize = 0;
    while i < ps.len()
        invariant
            canvas.wf(),
            logo.wf(),
            canvas.width == old(canvas).width,
            canvas.height == old(canvas).height,
            base == old(canvas).pixels@,
            i <= ps@.len(),
            canvas.pixels@ == logos_composited(
                base,
                canvas.width as int,
                logo.pixels@,
                logo.width as int,
                logo.height as int,
                placement_views(ps@.subrange(0, i as int)),
            ),
        decreases ps@.len() - i,
    {
        let p = ps[i];
        proof {
            let pre = placement_views(ps@.subrange(0, i + 1));
            assert(pre.drop_last() =~= placement_views(ps@.subrange(0, i as int)));
            assert(pre.last() == p@);
        }
        if p.mark == Mark::Logo {
            composite_logo(canvas, logo, p.x, p.y, LOGO_OPACITY_PCT);
        }
        i = i + 1;
    }
    assert(ps@.subrange(0, ps@.len() as int) =~= ps@);
}

/// Shrinks a decoded image to the preview size and lays out the watermark:
/// the band when a usable logo is given (the logo resized with the Lanczos
/// filter and composited at the configured opacity), the diagonal label
/// pattern otherwise; the layout depends on the length of `label`. `None`
/// for an empty image, or where a resampler's buffers do not fit.
pub fn prepare_preview(img: Raster, logo: Option<&Raster>, label: &str) -> (r: Option<Preview>)
    requires
        img.wf(),
    ensures
        img.width == 0 || img.height == 0 ==> r is None,
        img.width >= 1 && img.height >= 1 ==> match preview_plan_of(
            img.width,
            img.height,
            img.pixels@,
            logo_dims(logo),
            label@.len() as int,
        ) {
            None => r is None,
            Some(plan) => r matches Some(p) && follows_plan(p, plan),
        },
        r matches Some(p) ==> 1 <= p.canvas.width <= MAX_PREVIEW_SIDE && 1 <= p.canvas.height
            <= MAX_PREVIEW_SIDE && forall|i: int|
            0 <= i < p.layout.placements@.len() ==> inside(
                #[trigger] p.layout.placements@[i]@,
                p.canvas.width as int,
                p.canvas.height as int,
            ),
{
    let label_len = label.unicode_len() as u64;
    if img.width == 0 || img.height == 0 {
        return None;
    }
    proof {
        lemma_preview_dimensions_bounds(img.width as int, img.height as int, MAX_PREVIEW_SIDE as int);
    }
    let mut canvas = match downscale(img) {
        Some(c) => c,
        None => return None,
    };
    let usable = match logo {
        Some(l) => {
            assert(0 <= l.width * l.height <= 0xffff_ffff * 0xffff_ffff) by (nonlinear_arith)
                requires
                    l.width <= 0xffff_ffff,
                    l.height <= 0xffff_ffff,
            ;
            assert(4 * l.width * l.height == 4 * (l.width * l.height)) by (nonlinear_arith);
            l.pixels.len() as u128 == 4 * ((l.width as u128) * (l.height as u128)) && l.width >= 1
                && l.height >= 1
        },
        None => false,
    };
    if !usable {
        let layout = diagonal_layout(canvas.width, canvas.height, label_len);
        return Some(Preview { canvas, layout, banded: false });
    }
    let l = logo.unwrap();
    let layout = band_layout(canvas.width, canvas.height, l.width, l.height, label_len);
    let mut found = false;
    let mut i: usize = 0;
    while i < layout.placements.len()
        invariant
            i <= layout.placements@.len(),
            found <==> exists|j: int| 0 <= j < i && (#[trigger] layout.placements@[j]).mark == Mark::Logo,
        decreases layout.placements@.len() - i,
    {
        if layout.placements[i].mark == Mark::Logo {
            found = true;
        }
        i = i + 1;
    }
    proof {
        let ps = placement_views(layout.placements@);
        if found {
            let j = choose|j: int| 0 <= j < i && (#[trigger] layout.placements@[j]).mark == Mark::Logo;
            assert(ps[j].0 == Mark::Logo);
        }
        if has_logo(ps) {
            let j = choose|j: int| 0 <= j < ps.len() && (#[trigger] ps[j]).0 == Mark::Logo;
            assert(layout.placements@[j].mark == Mark::Logo);
        }
    }
    if !found {
        return Some(Preview { canvas, layout, banded: true });
    }
    let (lw, lh) = band_logo_size(canvas.width, l.width, l.height);
    proof {
        // A logo placement lies inside the canvas, so the logo's height fits it.
        let ps = placement_views(layout.placements@);
        let j = choose|j: int| 0 <= j < ps.len() && (#[trigger] ps[j]).0 == Mark::Logo;
        lemma_logo_placement_size(canvas.width as int, canvas.height as int, l.width as int, l.height as int, label_len as int, ps, j);
    }
    let lh = lh as u32;
    if !resample_fits_exec(l.width, lw, lh) {
        return None;
    }
    let small = resample(l, lw, lh, Resampling::Lanczos3);
    composite_logos(&mut canvas, &small, &layout.placements);
    let r = Preview { canvas, layout, banded: true };
    proof {
        let plan = preview_plan_of(img.width, img.height, img.pixels@, logo_dims(logo), label@.len() as int)->0;
        let size = plan.logo_size->0;
        assert(size == (lw as int, lh as int));
        assert(small.pixels@.len() == 4 * (lw as int) * (lh as int));
        assert(r.canvas.pixels@ == logos_composited(plan.base, plan.width as int, small.pixels@, lw as int, lh as int, plan.placements));
    }
    Some(r)
}

/// Every logo placement of the band has the logo's size, and lies inside
/// the canvas.
proof fn lemma_logo_placement_size(w: int, h: int, logo_w: int, logo_h: int, n: int, ps: Seq<Region>, j: int)
    requires
        ps == band_from(w, h, logo_w, logo_h, n, 0),
        0 <= j < ps.len(),
        ps[j].0 == Mark::Logo,
        0 <= h,
    ensures
        ps[j].3 == band_logo_width(w),
        ps[j].4 == band_logo_height(band_logo_width(w), logo_w, logo_h),
        ps[j].4 <= h,
{
    lemma_band_from_logos(w, h, logo_w, logo_h, n, 0);
}

proof fn lemma_band_from_logos(w: int, h: int, logo_w: int, logo_h: int, n: int, t: int)
    requires
        0 <= h,
    ensures
        forall|j: int|
            0 <= j < band_from(w, h, logo_w, logo_h, n, t).len() && (#[trigger] band_from(w, h, logo_w, logo_h, n, t)[j]).0 == Mark::Logo
                ==> band_from(w, h, logo_w, logo_h, n, t)[j].3 == band_logo_width(w)
                && band_from(w, h, logo_w, logo_h, n, t)[j].4 == band_logo_height(band_logo_width(w), logo_w, logo_h)
                && band_from(w, h, logo_w, logo_h, n, t)[j].4 <= h,
    decreases 25 - t,
{
    if t < 25 && t >= 0 {
        lemma_band_from_logos(w, h, logo_w, logo_h, n, t + 1);
    }
}

/// Decodes an image and prepares its preview (see `prepare_preview`).
/// What the decoder yields depends on the machine, so what is promised here
/// holds of every decoded image: a preview, where there is one, fits the
/// preview size and has its placements inside its canvas.
pub fn render_preview(bytes: &[u8], logo: Option<&Raster>, label: &str) -> (r: Option<Preview>)
    ensures
        r matches Some(p) ==> p.canvas.wf() && 1 <= p.canvas.width <= MAX_PREVIEW_SIDE && 1
            <= p.canvas.height <= MAX_PREVIEW_SIDE && forall|i: int|
            0 <= i < p.layout.placements@.len() ==> inside(
                #[trigger] p.layout.placements@[i]@,
                p.canvas.width as int,
                p.canvas.height as int,
            ),
{
    let img = match decode_rgba(bytes) {
        Some(img) => img,
        None => return None,
    };
    prepare_preview(img, logo, label)
}

/// Encodes a finished preview canvas as a JPEG at the preview quality. It
/// succeeds for every canvas whose sides are between 1 and 65535 pixels.
pub fn encode_preview(canvas: &Raster) -> (r: Option<Vec<u8>>)
    requires
        canvas.wf(),
    ensures
        1 <= canvas.width <= 65535 && 1 <= canvas.height <= 65535 ==> r is Some,
        r is Some <==> jpeg_encoded(canvas.width, canvas.height, canvas.pixels@, PREVIEW_JPEG_QUALITY) is Some,
        r matches Some(b) ==> jpeg_encoded(canvas.width, canvas.height, canvas.pixels@, PREVIEW_JPEG_QUALITY)
            == Some(b@),
{
    encode_jpeg(canvas, PREVIEW_JPEG_QUALITY)
}

/// Encodes a canvas as a JPEG at the given quality (clamped into 1..=100).
pub fn encode_at_quality(canvas: &Raster, quality: u8) -> (r: Option<Vec<u8>>)
    requires
        canvas.wf(),
    ensures
        1 <= canvas.width <= 65535 && 1 <= canvas.height <= 65535 ==> r is Some,
        r is Some <==> jpeg_encoded(canvas.width, canvas.height, canvas.pixels@, quality) is Some,
        r matches Some(b) ==> jpeg_encoded(canvas.width, canvas.height, canvas.pixels@, quality) == Some(b@),
{
    encode_jpeg(canvas, quality)
}

} // verus!
