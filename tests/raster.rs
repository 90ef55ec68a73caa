use watermarker::raster::{composite_logo, Raster};

fn solid(w: u32, h: u32, px: [u8; 4]) -> Raster {
    let mut pixels = Vec::new();
    for _ in 0..(w * h) {
        pixels.extend_from_slice(&px);
    }
    Raster { width: w, height: h, pixels }
}

fn at(r: &Raster, x: u32, y: u32) -> [u8; 4] {
    let i = (4 * (y * r.width + x)) as usize;
    [r.pixels[i], r.pixels[i + 1], r.pixels[i + 2], r.pixels[i + 3]]
}

#[test]
fn blends_opaque_logo_at_seventy_percent() {
    let mut canvas = solid(4, 3, [100, 100, 100, 255]);
    let logo = solid(2, 1, [200, 0, 50, 255]);
    composite_logo(&mut canvas, &logo, 1, 1, 70);
    assert_eq!(at(&canvas, 1, 1), [170, 30, 65, 255]);
    assert_eq!(at(&canvas, 2, 1), [170, 30, 65, 255]);
    assert_eq!(at(&canvas, 0, 1), [100, 100, 100, 255]);
    assert_eq!(at(&canvas, 3, 1), [100, 100, 100, 255]);
    assert_eq!(at(&canvas, 1, 0), [100, 100, 100, 255]);
}

#[test]
fn transparent_logo_leaves_canvas() {
    let mut canvas = solid(3, 3, [10, 20, 30, 40]);
    let logo = solid(3, 3, [255, 255, 255, 0]);
    composite_logo(&mut canvas, &logo, 0, 0, 70);
    assert_eq!(canvas.pixels, solid(3, 3, [10, 20, 30, 40]).pixels);
}

#[test]
fn half_alpha_full_opacity() {
    let mut canvas = solid(1, 1, [0, 0, 0, 255]);
    let logo = solid(1, 1, [255, 255, 255, 51]);
    composite_logo(&mut canvas, &logo, 0, 0, 100);
    assert_eq!(at(&canvas, 0, 0), [51, 51, 51, 255]);
}

#[test]
fn logo_clipped_at_canvas_edge() {
    let mut canvas = solid(3, 2, [0, 0, 0, 255]);
    let logo = solid(2, 2, [255, 255, 255, 255]);
    composite_logo(&mut canvas, &logo, 2, 1, 100);
    assert_eq!(at(&canvas, 2, 1), [255, 255, 255, 255]);
    assert_eq!(at(&canvas, 1, 1), [0, 0, 0, 255]);
    assert_eq!(at(&canvas, 2, 0), [0, 0, 0, 255]);
    assert_eq!(canvas.pixels.len(), 24);
}
