use image::{ImageBuffer, ImageOutputFormat, Rgba, RgbaImage};
use watermarker::layout::Mark;
use watermarker::layout::Placement;
use watermarker::preview::{composite_logos, encode_at_quality, encode_preview, prepare_preview, render_preview, PREVIEW_JPEG_QUALITY};
use watermarker::raster::Raster;

fn jpeg_of(w: u32, h: u32) -> Vec<u8> {
    let img: RgbaImage = ImageBuffer::from_fn(w, h, |x, y| Rgba([(x % 256) as u8, (y % 256) as u8, 128, 255]));
    let mut out = std::io::Cursor::new(Vec::new());
    image::DynamicImage::ImageRgba8(img).write_to(&mut out, ImageOutputFormat::Jpeg(90)).unwrap();
    out.into_inner()
}

fn logo() -> Raster {
    let mut pixels = Vec::new();
    for _ in 0..(100 * 50) {
        pixels.extend_from_slice(&[255, 0, 0, 255]);
    }
    Raster { width: 100, height: 50, pixels }
}

#[test]
fn photo_becomes_banded_preview() {
    let bytes = jpeg_of(1600, 1200);
    let logo = logo();
    let p = render_preview(&bytes, Some(&logo), "www.reflexu.com").expect("preview");
    assert_eq!((p.canvas.width, p.canvas.height), (800, 600));
    assert_eq!(p.canvas.pixels.len(), 800 * 600 * 4);
    assert!(p.banded);
    assert_eq!(p.layout.placements.len(), 25);
    assert_eq!(p.layout.placements.iter().filter(|q| q.mark == Mark::Logo).count(), 10);
    // The left logo of the middle row covers (227.., 292..) and is red-tinted.
    let i = 4 * (300 * 800 + 240) as usize;
    assert!(p.canvas.pixels[i] > p.canvas.pixels[i + 1]);
    let jpeg = encode_preview(&p.canvas).expect("jpeg");
    assert_eq!(&jpeg[0..3], &[0xff, 0xd8, 0xff]);
    let back = image::load_from_memory(&jpeg).unwrap();
    assert_eq!((back.width(), back.height()), (800, 600));
}

#[test]
fn photo_without_logo_gets_diagonal_pattern() {
    let bytes = jpeg_of(1600, 1200);
    let p = render_preview(&bytes, None, "www.reflexu.com").expect("preview");
    assert!(!p.banded);
    assert_eq!((p.canvas.width, p.canvas.height), (800, 600));
    assert_eq!(p.layout.font_tenths, 300);
    assert!(!p.layout.placements.is_empty());
    assert!(p.layout.placements.iter().all(|q| q.mark == Mark::Label));
}

#[test]
fn small_image_keeps_its_size() {
    let bytes = jpeg_of(300, 200);
    let p = render_preview(&bytes, None, "www.reflexu.com").expect("preview");
    assert_eq!((p.canvas.width, p.canvas.height), (300, 200));
}

#[test]
fn malformed_logo_falls_back_to_diagonal() {
    let bytes = jpeg_of(400, 400);
    let bad = Raster { width: 10, height: 10, pixels: vec![0; 7] };
    let p = render_preview(&bytes, Some(&bad), "www.reflexu.com").expect("preview");
    assert!(!p.banded);
}

#[test]
fn undecodable_bytes_fail() {
    assert!(render_preview(&[1, 2, 3, 4], None, "www.reflexu.com").is_none());
    assert!(render_preview(&[], None, "www.reflexu.com").is_none());
}

#[test]
fn preview_quality_is_low() {
    assert_eq!(PREVIEW_JPEG_QUALITY, 25);
    let canvas = Raster { width: 16, height: 16, pixels: vec![200; 16 * 16 * 4] };
    let low = encode_preview(&canvas).unwrap();
    assert_eq!(&low[0..2], &[0xff, 0xd8]);
    let back = image::load_from_memory(&low).unwrap();
    assert_eq!((back.width(), back.height()), (16, 16));
}

fn solid(w: u32, h: u32, px: [u8; 4]) -> Raster {
    let mut pixels = Vec::new();
    for _ in 0..(w * h) {
        pixels.extend_from_slice(&px);
    }
    Raster { width: w, height: h, pixels }
}

#[test]
fn prepared_preview_keeps_pixels_outside_logos() {
    let img = solid(800, 600, [10, 20, 30, 255]);
    let p = prepare_preview(img, Some(&logo()), "www.reflexu.com").expect("preview");
    assert!(p.banded);
    assert_eq!(p.layout.font_tenths, 192);
    assert_eq!(&p.canvas.pixels[0..4], &[10, 20, 30, 255]);
    let i = 4 * (300 * 800 + 240) as usize;
    assert_eq!(p.canvas.pixels[i + 3], 255);
    assert!(p.canvas.pixels[i] > 10);
}

#[test]
fn prepared_preview_without_logo_is_unchanged() {
    let img = solid(40, 30, [1, 2, 3, 4]);
    let p = prepare_preview(img, None, "abc").expect("preview");
    assert_eq!(p.canvas.pixels, solid(40, 30, [1, 2, 3, 4]).pixels);
    assert!(!p.banded);
    assert!(prepare_preview(solid(0, 5, [0; 4]), None, "abc").is_none());
}

#[test]
fn composites_logo_at_logo_placements_only() {
    let mut canvas = solid(6, 2, [0, 0, 0, 255]);
    let small = solid(1, 1, [255, 255, 255, 255]);
    let ps = vec![
        Placement { mark: Mark::Logo, x: 1, y: 0, width: 1, height: 1 },
        Placement { mark: Mark::Label, x: 3, y: 0, width: 1, height: 1 },
        Placement { mark: Mark::Logo, x: 5, y: 1, width: 1, height: 1 },
    ];
    composite_logos(&mut canvas, &small, &ps);
    assert_eq!(&canvas.pixels[4..8], &[178, 178, 178, 255]);
    assert_eq!(&canvas.pixels[12..16], &[0, 0, 0, 255]);
    assert_eq!(&canvas.pixels[44..48], &[178, 178, 178, 255]);
    assert_eq!(&canvas.pixels[0..4], &[0, 0, 0, 255]);
}

#[test]
fn encodes_at_a_chosen_quality() {
    let canvas = solid(32, 32, [90, 120, 150, 255]);
    let high = encode_at_quality(&canvas, 85).unwrap();
    let low = encode_preview(&canvas).unwrap();
    assert_eq!(&high[0..2], &[0xff, 0xd8]);
    assert_ne!(high, low);
}
