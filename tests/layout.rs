use watermarker::layout::{band_layout, band_logo_size, diagonal_layout, preview_dimensions, Mark, Placement, MAX_PREVIEW_SIDE};

fn all_inside(ps: &[Placement], w: u32, h: u32) -> bool {
    ps.iter().all(|p| p.x as u64 + p.width as u64 <= w as u64 && p.y as u64 + p.height as u64 <= h as u64)
}

#[test]
fn preview_of_landscape() {
    assert_eq!(MAX_PREVIEW_SIDE, 800);
    assert_eq!(preview_dimensions(1600, 1200, 800), (800, 600));
}

#[test]
fn preview_of_portrait() {
    assert_eq!(preview_dimensions(1200, 1600, 800), (600, 800));
    assert_eq!(preview_dimensions(1000, 3000, 800), (266, 800));
}

#[test]
fn preview_of_square_and_small() {
    assert_eq!(preview_dimensions(1000, 1000, 800), (800, 800));
    assert_eq!(preview_dimensions(800, 800, 800), (800, 800));
    assert_eq!(preview_dimensions(500, 300, 800), (500, 300));
}

#[test]
fn preview_keeps_a_pixel_for_thin_images() {
    assert_eq!(preview_dimensions(100000, 10, 800), (800, 1));
}

#[test]
fn preview_longer_side_is_max() {
    for (w, h) in [(801u32, 799u32), (4000, 3000), (1234, 5678), (2001, 2000)] {
        let (nw, nh) = preview_dimensions(w, h, 800);
        assert_eq!(nw.max(nh), 800);
        let exact = if w > h { h as f64 * 800.0 / w as f64 } else { w as f64 * 800.0 / h as f64 };
        let short = if w > h { nh } else { nw } as f64;
        assert!((short - exact).abs() < 1.0);
    }
}

#[test]
fn band_on_preview_canvas() {
    let l = band_layout(800, 600, 100, 50, 15);
    assert_eq!(l.font_tenths, 192);
    assert_eq!(l.placements.len(), 25);
    let row0: Vec<Placement> = l.placements[0..5].to_vec();
    assert_eq!(row0[0], Placement { mark: Mark::Logo, x: 227, y: 148, width: 32, height: 16 });
    assert_eq!(row0[1], Placement { mark: Mark::Dash, x: 284, y: 147, width: 5, height: 19 });
    assert_eq!(row0[2], Placement { mark: Mark::Label, x: 314, y: 147, width: 172, height: 19 });
    assert_eq!(row0[3], Placement { mark: Mark::Dash, x: 511, y: 147, width: 5, height: 19 });
    assert_eq!(row0[4], Placement { mark: Mark::Logo, x: 541, y: 148, width: 32, height: 16 });
    let lines: Vec<u32> = l.placements.iter().step_by(5).map(|p| p.y + p.height / 2).collect();
    assert_eq!(lines, vec![156, 228, 300, 372, 444]);
}

#[test]
fn band_logo_dimensions() {
    assert_eq!(band_logo_size(800, 100, 50), (32, 16));
    assert_eq!(band_logo_size(300, 100, 100), (25, 25));
    assert_eq!(band_logo_size(300, 1000, 1), (25, 1));
}

#[test]
fn band_on_narrow_canvas_keeps_to_the_centred_half() {
    let l = band_layout(300, 300, 100, 100, 15);
    assert_eq!(l.placements.len(), 15);
    assert!(l.placements.iter().all(|p| p.x >= 75 && p.x + p.width <= 225));
    for row in l.placements.chunks(3) {
        assert_eq!(row[0], Placement { mark: Mark::Dash, x: 79, y: row[0].y, width: 4, height: 15 });
        assert_eq!(row[1].x, 83);
        assert_eq!(row[1].width, 135);
        assert_eq!(row[2].x, 218);
        assert!(row[0].x + row[0].width <= row[1].x && row[1].x + row[1].width <= row[2].x);
    }
}

#[test]
fn band_drops_elements_outside_small_canvas() {
    let l = band_layout(60, 40, 100, 100, 15);
    assert!(all_inside(&l.placements, 60, 40));
    assert!(l.placements.len() < 25);
}

#[test]
fn band_elements_stay_inside() {
    for (w, h) in [(1u32, 1u32), (30, 500), (800, 600), (600, 800), (120, 90), (4000, 20)] {
        for (lw, lh) in [(1u32, 1u32), (100, 50), (10, 400)] {
            let l = band_layout(w, h, lw, lh, 15);
            assert!(all_inside(&l.placements, w, h));
            let (left, right) = (w / 2 - w / 2 / 2, w / 2 - w / 2 / 2 + w / 2);
            assert!(l.placements.iter().all(|p| p.x >= left && p.x + p.width <= right));
        }
    }
}

#[test]
fn diagonal_on_preview_canvas() {
    let l = diagonal_layout(800, 600, 15);
    assert_eq!(l.font_tenths, 300);
    assert!(l.placements.contains(&Placement { mark: Mark::Label, x: 262, y: 380, width: 270, height: 30 }));
    assert!(!l.placements.iter().any(|p| p.x == 538 && p.y == 220));
    assert!(l.placements.iter().all(|p| p.x > 0 && p.x + 270 < 800 && p.y > 0 && p.y + 30 < 600));
}

#[test]
fn diagonal_on_tiny_canvas_is_empty() {
    assert!(diagonal_layout(50, 50, 15).placements.is_empty());
    assert!(diagonal_layout(2, 2000, 15).placements.is_empty());
    assert!(diagonal_layout(0, 0, 15).placements.is_empty());
    assert_eq!(diagonal_layout(50, 50, 15).font_tenths, 160);
    assert_eq!(diagonal_layout(330, 900, 15).font_tenths, 165);
}
