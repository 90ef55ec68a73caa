//! RGBA rasters and alpha compositing of a logo onto a canvas.
use image::imageops::FilterType;
use image::{DynamicImage, ImageBuffer, ImageOutputFormat, RgbaImage};
use vstd::arithmetic::div_mod::{lemma_fundamental_div_mod, lemma_mod_pos_bound};
use vstd::prelude::*;

verus! {

/// Resampling filter used when a raster is resized.
#[derive(Clone, Copy, Debug, PartialEq, Eq, Structural)]
pub enum Resampling {
    /// Linear (tent) filter: smooth and fast.
    Triangle,
    /// Lanczos window of size 3: sharper, slower.
    Lanczos3,
}

/// The pixels that the image crate's resampler produces for a raster with
/// the triangle filter (whose arithmetic is exact IEEE operations only).
pub uninterp spec fn triangle_resampled(
    width: u32,
    height: u32,
    pixels: Seq<u8>,
    new_width: u32,
    new_height: u32,
) -> Seq<u8>;

/// The JPEG stream that the image crate's encoder writes for a raster at a
/// quality level, or `None` where encoding fails.
pub uninterp spec fn jpeg_encoded(width: u32, height: u32, pixels: Seq<u8>, quality: u8) -> Option<
    Seq<u8>,
>;

/// Relies on `image::load_from_memory` (format guessed from the bytes), then
/// `DynamicImage::to_rgba8`, which allocates exactly `width * height` RGBA
/// pixels. The decoded pixels may differ between machines (the JPEG decoder
/// picks a SIMD path at run time), so nothing more is stated of them.
#[verifier::external_body]
pub(crate) fn decode_rgba(bytes: &[u8]) -> (r: Option<Raster>)
    ensures
        r matches Some(img) ==> img.wf(),
{
    match image::load_from_memory(bytes) {
        Ok(img) => {
            let rgba = img.to_rgba8();
            Some(Raster { width: rgba.width(), height: rgba.height(), pixels: rgba.into_raw() })
        },
        Err(_) => None,
    }
}

/// Relies on `image::imageops::resize`, which returns a buffer of exactly the
/// requested dimensions. Its buffers (the result, and an intermediate one of
/// the source width and new height) must fit in memory. The Lanczos kernel
/// calls the platform's `sin`, so only the triangle filter's pixels are named.
#[verifier::external_body]
pub(crate) fn resample(img: &Raster, new_width: u32, new_height: u32, filter: Resampling) -> (r:
    Raster)
    requires
        img.wf(),
        img.width >= 1,
        img.height >= 1,
        new_width >= 1,
        new_height >= 1,
        16 * (new_width as int) * (new_height as int) <= usize::MAX,
        16 * (img.width as int) * (new_height as int) <= usize::MAX,
    ensures
        r.width == new_width,
        r.height == new_height,
        r.wf(),
        filter == Resampling::Triangle ==> r.pixels@ == triangle_resampled(
            img.width,
            img.height,
            img.pixels@,
            new_width,
            new_height,
        ),
{
    let src: RgbaImage = ImageBuffer::from_raw(img.width, img.height, img.pixels.clone()).unwrap();
    let kind = match filter {
        Resampling::Triangle => FilterType::Triangle,
        Resampling::Lanczos3 => FilterType::Lanczos3,
    };
    let out = image::imageops::resize(&src, new_width, new_height, kind);
    Raster { width: out.width(), height: out.height(), pixels: out.into_raw() }
}

/// Relies on `DynamicImage::write_to` with `ImageOutputFormat::Jpeg(quality)`;
/// the encoder clamps the quality into 1..=100, fails only on a side longer
/// than 65535 pixels, and writes into memory, which cannot fail.
#[verifier::external_body]
pub(crate) fn encode_jpeg(img: &Raster, quality: u8) -> (r: Option<Vec<u8>>)
    requires
        img.wf(),
    ensures
        1 <= img.width <= 65535 && 1 <= img.height <= 65535 ==> r is Some,
        r is Some <==> jpeg_encoded(img.width, img.height, img.pixels@, quality) is Some,
        r matches Some(b) ==> jpeg_encoded(img.width, img.height, img.pixels@, quality) == Some(
            b@,
        ),
{
    let buf: RgbaImage = ImageBuffer::from_raw(img.width, img.height, img.pixels.clone()).unwrap();
    let mut out = std::io::Cursor::new(Vec::new());
    match DynamicImage::ImageRgba8(buf).write_to(&mut out, ImageOutputFormat::Jpeg(quality)) {
        Ok(()) => Some(out.into_inner()),
        Err(_) => None,
    }
}

/// An 8-bit RGBA image, row-major, four bytes per pixel.
pub struct Raster {
    pub width: u32,
    pub height: u32,
    pub pixels: Vec<u8>,
}

impl Raster {
    /// The buffer holds exactly `width * height` pixels.
    pub open spec fn wf(&self) -> bool {
        self.pixels@.len() == 4 * (self.width as int) * (self.height as int)
    }
}

/// Position of channel `ch` of pixel `(x, y)` in a buffer of the given width.
pub open spec fn pixel_index(width: int, x: int, y: int, ch: int) -> int {
    4 * (y * width + x) + ch
}

/// One channel blended as `canvas * (1 - α) + logo * α`, where
/// `α = (alpha / 255) * (opacity_pct / 100)`, rounded down.
pub open spec fn blend_channel(canvas: int, logo: int, alpha: int, opacity_pct: int) -> int {
    (canvas * (25500 - alpha * opacity_pct) + logo * alpha * opacity_pct) / 25500
}

/// Channel `ch` of canvas pixel `(px, py)` once `logo` is composited with its
/// top-left corner at `(x, y)`: colour channels under the logo are blended
/// with the logo's own alpha times the opacity; alpha and everything outside
/// the logo stay as they were.
pub open spec fn composited(
    canvas: Seq<u8>,
    cw: int,
    logo: Seq<u8>,
    lw: int,
    lh: int,
    x: int,
    y: int,
    opacity_pct: int,
    px: int,
    py: int,
    ch: int,
) -> int {
    let lx = px - x;
    let ly = py - y;
    if 0 <= lx < lw && 0 <= ly < lh && ch < 3 {
        blend_channel(
            canvas[pixel_index(cw, px, py, ch)] as int,
            logo[pixel_index(lw, lx, ly, ch)] as int,
            logo[pixel_index(lw, lx, ly, 3)] as int,
            opacity_pct,
        )
    } else {
        canvas[pixel_index(cw, px, py, ch)] as int
    }
}

/// The whole buffer of a `cw`-wide canvas after `composited`.
pub open spec fn composite_image(
    canvas: Seq<u8>,
    cw: int,
    logo: Seq<u8>,
    lw: int,
    lh: int,
    x: int,
    y: int,
    opacity_pct: int,
) -> Seq<u8> {
    Seq::new(
        canvas.len(),
        |i: int|
            composited(canvas, cw, logo, lw, lh, x, y, opacity_pct, (i / 4) % cw, (i / 4) / cw, i % 4) as u8,
    )
}

/// Every position of a `w` by `h` buffer is the index of exactly the pixel
/// and channel that division by four and by the width give back.
pub(crate) proof fn lemma_index_decompose(w: int, h: int, i: int)
    requires
        w >= 1,
        0 <= i < 4 * w * h,
    ensures
        0 <= (i / 4) % w < w,
        0 <= (i / 4) / w < h,
        0 <= i % 4 < 4,
        pixel_index(w, (i / 4) % w, (i / 4) / w, i % 4) == i,
{
    lemma_fundamental_div_mod(i, 4);
    lemma_mod_pos_bound(i, 4);
    let p = i / 4;
    assert(0 <= p < w * h) by (nonlinear_arith)
        requires
            i == 4 * p + i % 4,
            0 <= i % 4 < 4,
            0 <= i < 4 * w * h,
    ;
    lemma_fundamental_div_mod(p, w);
    lemma_mod_pos_bound(p, w);
    let q = p / w;
    assert(0 <= q < h) by (nonlinear_arith)
        requires
            p == w * q + p % w,
            0 <= p % w < w,
            0 <= p < w * h,
            w >= 1,
    ;
    assert(pixel_index(w, p % w, q, i % 4) == i) by (nonlinear_arith)
        requires
            p == w * q + p % w,
            i == 4 * p + i % 4,
    ;
}

/// Compositing keeps the alpha channel, and every pixel outside the logo's
/// box, as it was.
pub proof fn lemma_composite_keeps_outside(
    canvas: Seq<u8>,
    cw: int,
    chh: int,
    logo: Seq<u8>,
    lw: int,
    lh: int,
    x: int,
    y: int,
    opacity_pct: int,
    px: int,
    py: int,
    c: int,
)
    requires
        canvas.len() == 4 * cw * chh,
        0 <= px < cw,
        0 <= py < chh,
        0 <= c < 4,
        c == 3 || !(x <= px < x + lw && y <= py < y + lh),
    ensures
        composite_image(canvas, cw, logo, lw, lh, x, y, opacity_pct).len() == canvas.len(),
        composite_image(canvas, cw, logo, lw, lh, x, y, opacity_pct)[pixel_index(cw, px, py, c)]
            == canvas[pixel_index(cw, px, py, c)],
{
    let i = pixel_index(cw, px, py, c);
    lemma_index_in_bounds(cw, chh, px, py, c);
    lemma_index_decompose(cw, chh, i);
    lemma_index_injective(cw, (i / 4) % cw, (i / 4) / cw, i % 4, px, py, c);
}

proof fn lemma_index_in_bounds(w: int, h: int, px: int, py: int, ch: int)
    requires
        0 <= px < w,
        0 <= py < h,
        0 <= ch < 4,
    ensures
        0 <= py * w,
        0 <= py * w + px < w * h,
        4 * w * h == 4 * (w * h),
        0 <= pixel_index(w, px, py, ch) < 4 * w * h,
        pixel_index(w, px, py, ch) + 3 - ch < 4 * w * h,
{
    assert(4 * w * h == 4 * (w * h)) by (nonlinear_arith);
    assert(py * w + px < w * h) by (nonlinear_arith)
        requires
            0 <= px < w,
            0 <= py < h,
    ;
    assert(0 <= py * w) by (nonlinear_arith)
        requires
            0 <= px < w,
            0 <= py < h,
    ;
}

pub(crate) proof fn lemma_index_injective(w: int, px: int, py: int, ch: int, qx: int, qy: int, k: int)
    requires
        0 <= px < w,
        0 <= qx < w,
        0 <= py,
        0 <= qy,
        0 <= ch < 4,
        0 <= k < 4,
        pixel_index(w, px, py, ch) == pixel_index(w, qx, qy, k),
    ensures
        px == qx,
        py == qy,
        ch == k,
{
    assert(py * w + px == qy * w + qx && ch == k);
    if py < qy {
        assert(py * w + w <= qy * w) by (nonlinear_arith)
            requires
                py < qy,
                0 <= w,
        ;
    } else if qy < py {
        assert(qy * w + w <= py * w) by (nonlinear_arith)
            requires
                qy < py,
                0 <= w,
        ;
    }
}

proof fn lemma_blend_bounds(c: int, l: int, a: int, p: int, ap: int)
    requires
        0 <= c < 256,
        0 <= l < 256,
        0 <= a < 256,
        0 <= p <= 100,
        ap == a * p,
    ensures
        0 <= ap <= 25500,
        0 <= c * (25500 - ap) <= 255 * (25500 - ap),
        0 <= l * ap <= 255 * ap,
        l * ap == l * a * p,
        0 <= blend_channel(c, l, a, p) < 256,
{
    assert(0 <= a * p <= 25500) by (nonlinear_arith)
        requires
            0 <= a < 256,
            0 <= p <= 100,
    ;
    assert(0 <= c * (25500 - ap) <= 255 * (25500 - ap)) by (nonlinear_arith)
        requires
            0 <= c < 256,
            0 <= ap <= 25500,
    ;
    assert(0 <= l * ap <= 255 * ap) by (nonlinear_arith)
        requires
            0 <= l < 256,
            0 <= ap,
    ;
    assert(l * ap == l * a * p) by (nonlinear_arith)
        requires
            ap == a * p,
    ;
}

fn blend(c: u8, l: u8, a: u8, opacity_pct: u32) -> (r: u8)
    requires
        opacity_pct <= 100,
    ensures
        r as int == blend_channel(c as int, l as int, a as int, opacity_pct as int),
{
    assert(0 <= a * opacity_pct <= 25500) by (nonlinear_arith)
        requires
            a < 256,
            opacity_pct <= 100,
    ;
    let ap: u32 = (a as u32) * opacity_pct;
    proof {
        lemma_blend_bounds(c as int, l as int, a as int, opacity_pct as int, ap as int);
    }
    let v: u32 = (c as u32) * (25500 - ap) + (l as u32) * ap;
    (v / 25500) as u8
}

/// Composites `logo` onto `canvas` with its top-left corner at `(x, y)`.
/// Only logo pixels that fall inside the canvas are drawn.
pub fn composite_logo(canvas: &mut Raster, logo: &Raster, x: u32, y: u32, opacity_pct: u32)
    requires
        old(canvas).wf(),
        logo.wf(),
        opacity_pct <= 100,
    ensures
        final(canvas).width == old(canvas).width,
        final(canvas).height == old(canvas).height,
        final(canvas).wf(),
        forall|px: int, py: int, ch: int|
            0 <= px < old(canvas).width && 0 <= py < old(canvas).height && 0 <= ch < 4
                ==> final(canvas).pixels@[#[trigger] pixel_index(old(canvas).width as int, px, py, ch)]
                == composited(
                old(canvas).pixels@,
                old(canvas).width as int,
                logo.pixels@,
                logo.width as int,
                logo.height as int,
                x as int,
                y as int,
                opacity_pct as int,
                px,
                py,
                ch,
            ),
        final(canvas).pixels@ == composite_image(
            old(canvas).pixels@,
            old(canvas).width as int,
            logo.pixels@,
            logo.width as int,
            logo.height as int,
            x as int,
            y as int,
            opacity_pct as int,
        ),
{
    let ghost old_px = canvas.pixels@;
    let w = canvas.width;
    let h = canvas.height;
    let x_end: u64 = if (x as u64) + (logo.width as u64) < (w as u64) {
        (x as u64) + (logo.width as u64)
    } else {
        w as u64
    };
    let y_end: u64 = if (y as u64) + (logo.height as u64) < (h as u64) {
        (y as u64) + (logo.height as u64)
    } else {
        h as u64
    };
    let mut cy: u64 = y as u64;
    while cy < y_end
        invariant
            canvas.width == w,
            canvas.height == h,
            canvas.wf(),
            logo.wf(),
            opacity_pct <= 100,
            old_px.len() == canvas.pixels@.len(),
            y <= cy,
            y_end <= h,
            y_end <= y + logo.height,
            x_end <= w,
            x_end <= x + logo.width,
            x_end == w || x_end == x + logo.width,
            y_end == h || y_end == y + logo.height,
            forall|px: int, py: int, ch: int|
                0 <= px < w && 0 <= py < h && 0 <= ch < 4
                    ==> canvas.pixels@[#[trigger] pixel_index(w as int, px, py, ch)]
                    == if py < cy {
                    composited(old_px, w as int, logo.pixels@, logo.width as int, logo.height as int, x as int, y as int, opacity_pct as int, px, py, ch)
                } else {
                    old_px[pixel_index(w as int, px, py, ch)] as int
                },
        decreases y_end - cy,
    {
        let mut cx: u64 = x as u64;
        while cx < x_end
            invariant
                canvas.width == w,
                canvas.height == h,
                canvas.wf(),
                logo.wf(),
                opacity_pct <= 100,
                old_px.len() == canvas.pixels@.len(),
                y <= cy < y_end,
                x <= cx,
                y_end <= h,
                y_end <= y + logo.height,
                x_end <= w,
                x_end <= x + logo.width,
                x_end == w || x_end == x + logo.width,
                forall|px: int, py: int, ch: int|
                    0 <= px < w && 0 <= py < h && 0 <= ch < 4
                        ==> canvas.pixels@[#[trigger] pixel_index(w as int, px, py, ch)]
                        == if py < cy || (py == cy && px < cx) {
                        composited(old_px, w as int, logo.pixels@, logo.width as int, logo.height as int, x as int, y as int, opacity_pct as int, px, py, ch)
                    } else {
                        old_px[pixel_index(w as int, px, py, ch)] as int
                    },
            decreases x_end - cx,
        {
            let lx: u64 = cx - (x as u64);
            let ly: u64 = cy - (y as u64);
            proof {
                lemma_index_in_bounds(w as int, h as int, cx as int, cy as int, 0);
                lemma_index_in_bounds(logo.width as int, logo.height as int, lx as int, ly as int, 0);
            }
            // The buffer lengths fit in usize, hence so do the indices below.
            let _canvas_len = canvas.pixels.len();
            let _logo_len = logo.pixels.len();
            let cyu = cy as usize;
            let cxu = cx as usize;
            let lyu = ly as usize;
            let lxu = lx as usize;
            assert(cyu * w <= cyu * w + cxu < w * h);
            assert(lyu * logo.width <= lyu * logo.width + lxu < logo.width * logo.height);
            let ci: usize = 4 * (cyu * (w as usize) + cxu);
            let li: usize = 4 * (lyu * (logo.width as usize) + lxu);
            let alpha = logo.pixels[li + 3];
            let ghost before = canvas.pixels@;
            let b0 = blend(canvas.pixels[ci], logo.pixels[li], alpha, opacity_pct);
            canvas.pixels.set(ci, b0);
            let b1 = blend(canvas.pixels[ci + 1], logo.pixels[li + 1], alpha, opacity_pct);
            canvas.pixels.set(ci + 1, b1);
            let b2 = blend(canvas.pixels[ci + 2], logo.pixels[li + 2], alpha, opacity_pct);
            canvas.pixels.set(ci + 2, b2);
            proof {
                assert forall|px: int, py: int, ch: int|
                    0 <= px < w && 0 <= py < h && 0 <= ch < 4 implies canvas.pixels@[
                        #[trigger] pixel_index(w as int, px, py, ch)
                    ] == if py < cy || (py == cy && px < cx + 1) {
                        composited(old_px, w as int, logo.pixels@, logo.width as int, logo.height as int, x as int, y as int, opacity_pct as int, px, py, ch)
                    } else {
                        old_px[pixel_index(w as int, px, py, ch)] as int
                    } by {
                    let i = pixel_index(w as int, px, py, ch);
                    lemma_index_in_bounds(w as int, h as int, px, py, ch);
                    if px == cx && py == cy {
                        assert(i == ci + ch);
                        assert(before[i] == old_px[i]);
                    } else {
                        if i == ci || i == ci + 1 || i == ci + 2 {
                            let k = i - ci;
                            lemma_index_injective(w as int, px, py, ch, cx as int, cy as int, k);
                        }
                        assert(canvas.pixels@[i] == before[i]);
                    }
                }
            }
            cx = cx + 1;
        }
        proof {
            assert forall|px: int, py: int, ch: int|
                0 <= px < w && 0 <= py < h && 0 <= ch < 4 implies canvas.pixels@[
                    #[trigger] pixel_index(w as int, px, py, ch)
                ] == if py < cy + 1 {
                    composited(old_px, w as int, logo.pixels@, logo.width as int, logo.height as int, x as int, y as int, opacity_pct as int, px, py, ch)
                } else {
                    old_px[pixel_index(w as int, px, py, ch)] as int
                } by {
                if py == cy && px >= cx {
                    lemma_index_in_bounds(w as int, h as int, px, py, ch);
                }
            }
        }
        cy = cy + 1;
    }
    proof {
        assert forall|px: int, py: int, ch: int|
            0 <= px < w && 0 <= py < h && 0 <= ch < 4 implies canvas.pixels@[
                #[trigger] pixel_index(w as int, px, py, ch)
            ] == composited(old_px, w as int, logo.pixels@, logo.width as int, logo.height as int, x as int, y as int, opacity_pct as int, px, py, ch) by {
            lemma_index_in_bounds(w as int, h as int, px, py, ch);
        }
        let target = composite_image(old_px, w as int, logo.pixels@, logo.width as int, logo.height as int, x as int, y as int, opacity_pct as int);
        if w >= 1 {
            assert forall|i: int| 0 <= i < old_px.len() implies canvas.pixels@[i] == target[i] by {
                lemma_index_decompose(w as int, h as int, i);
                let px = (i / 4) % (w as int);
                let py = (i / 4) / (w as int);
                let ch = i % 4;
                assert(canvas.pixels@[pixel_index(w as int, px, py, ch)] == composited(old_px, w as int, logo.pixels@, logo.width as int, logo.height as int, x as int, y as int, opacity_pct as int, px, py, ch));
            }
        } else {
            assert(old_px.len() == 0) by (nonlinear_arith)
                requires
                    w == 0,
                    old_px.len() == 4 * (w as int) * (h as int),
            ;
        }
        assert(canvas.pixels@ =~= target);
    }
}

} // verus!
