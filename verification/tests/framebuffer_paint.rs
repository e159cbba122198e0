use marx_os::framebuffer::{FbWriter, Geometry, FONT_GLYPHS};

fn font() -> Vec<u8> {
    let mut f = vec![0u8; FONT_GLYPHS * 8];
    // 'A': a solid block; 'B': left half only.
    for r in 0..8 {
        f[(b'A' - 0x20) as usize * 8 + r] = 0xFF;
        f[(b'B' - 0x20) as usize * 8 + r] = 0xF0;
    }
    f
}

fn screen(w: usize, h: usize, bgr: bool) -> FbWriter {
    FbWriter::new(Geometry { stride_bytes: w * 4 + 8, width: w, height: h, bpp: 4, bgr }, font())
}

fn pixel(fb: &FbWriter, x: usize, y: usize) -> (u8, u8, u8) {
    let mut out = vec![0u8; 3];
    fb.read_rgb_at(&mut out, 1, 1, x, y);
    (out[0], out[1], out[2])
}

#[test]
fn new_screen_is_black() {
    let fb = screen(16, 32, false);
    assert_eq!(fb.dimensions(), (16, 32));
    assert_eq!(pixel(&fb, 0, 0), (0, 0, 0));
    assert_eq!(pixel(&fb, 15, 31), (0, 0, 0));
}

#[test]
fn fill_rect_paints_only_its_rectangle() {
    let mut fb = screen(16, 16, false);
    fb.fill_rect(2, 3, 4, 5, (10, 20, 30));
    assert_eq!(pixel(&fb, 2, 3), (10, 20, 30));
    assert_eq!(pixel(&fb, 5, 7), (10, 20, 30));
    assert_eq!(pixel(&fb, 6, 7), (0, 0, 0));
    assert_eq!(pixel(&fb, 1, 3), (0, 0, 0));
    assert_eq!(pixel(&fb, 2, 8), (0, 0, 0));
}

#[test]
fn fill_rect_clips_to_the_screen() {
    let mut fb = screen(8, 8, true);
    fb.fill_rect(6, 6, 100, 100, (1, 2, 3));
    assert_eq!(pixel(&fb, 7, 7), (1, 2, 3));
    assert_eq!(pixel(&fb, 5, 7), (0, 0, 0));
}

#[test]
fn put_pixel_and_blend() {
    let mut fb = screen(8, 8, false);
    fb.put_pixel_at(3, 4, 200, 100, 50);
    assert_eq!(pixel(&fb, 3, 4), (200, 100, 50));
    fb.put_pixel_at(100, 100, 1, 1, 1);
    fb.blend_pixel_at(3, 4, (0, 0, 0), 255);
    assert_eq!(pixel(&fb, 3, 4), (0, 0, 0));
    fb.fill_color(100, 100, 100);
    fb.blend_rect(0, 0, 1, 1, (200, 200, 200), 128);
    let p = pixel(&fb, 0, 0);
    assert!(p.0 > 100 && p.0 < 200);
    assert_eq!(pixel(&fb, 1, 0), (100, 100, 100));
}

#[test]
fn vertical_gradient_runs_top_to_bottom() {
    let mut fb = screen(4, 10, false);
    fb.fill_gradient_v(0, 10, (0, 0, 0), (250, 250, 250));
    assert_eq!(pixel(&fb, 0, 0), (0, 0, 0));
    let mid = pixel(&fb, 0, 5);
    assert!(mid.0 > 100 && mid.0 < 150);
    assert!(pixel(&fb, 0, 9).0 > 200);
}

#[test]
fn rounded_rect_leaves_corners() {
    let mut fb = screen(32, 32, false);
    fb.fill_rounded_rect(0, 0, 20, 20, (9, 9, 9), 6);
    assert_eq!(pixel(&fb, 0, 0), (0, 0, 0));
    assert_eq!(pixel(&fb, 10, 10), (9, 9, 9));
    assert_eq!(pixel(&fb, 10, 0), (9, 9, 9));
    fb.stroke_rounded_rect(0, 0, 20, 20, (5, 5, 5), 6);
    assert_eq!(pixel(&fb, 10, 0), (5, 5, 5));
    assert_eq!(pixel(&fb, 10, 10), (9, 9, 9));
}

#[test]
fn blit_rgb_copies_an_image() {
    let mut fb = screen(8, 8, true);
    let img = vec![1, 2, 3, 4, 5, 6, 7, 8, 9, 10, 11, 12];
    fb.blit_rgb_at(&img, 2, 2, 3, 3);
    assert_eq!(pixel(&fb, 3, 3), (1, 2, 3));
    assert_eq!(pixel(&fb, 4, 3), (4, 5, 6));
    assert_eq!(pixel(&fb, 3, 4), (7, 8, 9));
    assert_eq!(pixel(&fb, 4, 4), (10, 11, 12));
    // A buffer shorter than the image is ignored.
    fb.blit_rgb_at(&img[..5], 2, 2, 0, 0);
    assert_eq!(pixel(&fb, 0, 0), (0, 0, 0));
}

#[test]
fn console_prints_glyphs_in_cells() {
    let mut fb = screen(32, 32, false);
    fb.write_str("AB");
    assert_eq!(pixel(&fb, 0, 0), (0xE6, 0xED, 0xF3));
    assert_eq!(pixel(&fb, 7, 15), (0xE6, 0xED, 0xF3));
    assert_eq!(pixel(&fb, 8, 0), (0xE6, 0xED, 0xF3));
    assert_eq!(pixel(&fb, 12, 0), (0, 0, 0));
    assert_eq!(pixel(&fb, 0, 16), (0, 0, 0));
}

#[test]
fn console_colours_and_clear() {
    let mut fb = screen(16, 16, false);
    fb.set_fg(1, 2, 3);
    fb.set_bg(4, 5, 6);
    fb.write_str("B");
    assert_eq!(pixel(&fb, 0, 0), (1, 2, 3));
    assert_eq!(pixel(&fb, 6, 0), (4, 5, 6));
    fb.clear();
    assert_eq!(pixel(&fb, 0, 0), (4, 5, 6));
}

#[test]
fn console_scrolls_at_the_bottom() {
    // Two text rows: the third line scrolls the first away.
    let mut fb = screen(8, 32, false);
    fb.write_str("A\n\nB");
    assert_eq!(pixel(&fb, 0, 0), (0, 0, 0));
    assert_eq!(pixel(&fb, 0, 16), (0xE6, 0xED, 0xF3));
    assert_eq!(pixel(&fb, 6, 16), (0, 0, 0));
}

#[test]
fn console_wraps_long_lines_and_backspaces() {
    let mut fb = screen(16, 32, false);
    fb.write_str("AAA");
    assert_eq!(pixel(&fb, 0, 16), (0xE6, 0xED, 0xF3));
    fb.write_str("\u{8}");
    assert_eq!(pixel(&fb, 0, 16), (0, 0, 0));
    fb.ensure_newline();
    fb.write_str("\tA");
    // Tab to column 4 is past the two-column row: wraps.
    assert_eq!(pixel(&fb, 0, 0), (0, 0, 0));
}

#[test]
fn text_at_draws_only_set_bits() {
    let mut fb = screen(32, 16, false);
    fb.fill_color(9, 9, 9);
    fb.draw_text_at(4, 0, "B", (200, 0, 0));
    assert_eq!(pixel(&fb, 4, 0), (200, 0, 0));
    assert_eq!(pixel(&fb, 10, 0), (9, 9, 9));
}

#[test]
fn printing_in_pieces_matches_printing_at_once() {
    let geo = Geometry { stride_bytes: 64 * 3, width: 64, height: 48, bpp: 3, bgr: false };
    let mut whole = FbWriter::new(geo, font());
    whole.write_str("AB\nBA\tA\u{8}B");
    let mut pieces = FbWriter::new(geo, font());
    for part in ["A", "B\nB", "A\t", "A\u{8}", "B"] {
        pieces.write_str(part);
    }
    assert_eq!(whole.as_bytes(), pieces.as_bytes());
    // and something was drawn at all
    assert!(whole.as_bytes().iter().any(|&b| b != 0));
}

#[test]
fn put_pixel_reads_back_in_either_byte_order() {
    for bgr in [false, true] {
        let geo = Geometry { stride_bytes: 16 * 4, width: 16, height: 8, bpp: 4, bgr };
        let mut fb = FbWriter::new(geo, font());
        fb.put_pixel_at(5, 6, 10, 20, 30);
        let mut out = vec![7u8; 6];
        fb.read_rgb_at(&mut out, 1, 1, 5, 6);
        assert_eq!(out, vec![10, 20, 30, 7, 7, 7]);
    }
}

#[test]
fn blending_radius_zero_is_blending_the_rectangle() {
    let geo = Geometry { stride_bytes: 20 * 3, width: 20, height: 10, bpp: 3, bgr: false };
    let mut a = FbWriter::new(geo, font());
    let mut b = FbWriter::new(geo, font());
    a.fill_rect(0, 0, 20, 10, (40, 80, 120));
    b.fill_rect(0, 0, 20, 10, (40, 80, 120));
    a.blend_rounded_rect(2, 1, 9, 7, (250, 10, 10), 100, 0);
    b.blend_rect(2, 1, 9, 7, (250, 10, 10), 100);
    assert_eq!(a.as_bytes(), b.as_bytes());
}

#[test]
fn rounded_rect_is_mirror_symmetric() {
    let geo = Geometry { stride_bytes: 24 * 3, width: 24, height: 20, bpp: 3, bgr: false };
    let mut fb = FbWriter::new(geo, font());
    fb.fill_rounded_rect(3, 2, 15, 12, (255, 255, 255), 5);
    for ly in 0..12 {
        for lx in 0..15 {
            let p = fb.as_bytes()[((2 + ly) * 24 + 3 + lx) * 3];
            let q = fb.as_bytes()[((2 + ly) * 24 + 3 + (14 - lx)) * 3];
            let r = fb.as_bytes()[((2 + (11 - ly)) * 24 + 3 + lx) * 3];
            assert_eq!(p, q);
            assert_eq!(p, r);
        }
    }
}

#[test]
fn rounded_rect_with_radius_zero_fills_its_box() {
    let mut fb = screen(16, 16, false);
    fb.fill_rounded_rect(2, 3, 7, 5, (7, 8, 9), 0);
    for y in 0..16 {
        for x in 0..16 {
            let inside = (2..9).contains(&x) && (3..8).contains(&y);
            assert_eq!(pixel(&fb, x, y), if inside { (7, 8, 9) } else { (0, 0, 0) });
        }
    }
    // A box one pixel wide clamps every radius to 0.
    let mut thin = screen(16, 16, false);
    thin.fill_rounded_rect(4, 0, 1, 10, (1, 2, 3), 6);
    assert_eq!(pixel(&thin, 4, 0), (1, 2, 3));
    assert_eq!(pixel(&thin, 4, 9), (1, 2, 3));
}

#[test]
fn rounded_rect_corners_out_centre_in() {
    let mut fb = screen(16, 16, false);
    fb.fill_rounded_rect(1, 1, 9, 6, (50, 60, 70), 1);
    assert_eq!(pixel(&fb, 1, 1), (0, 0, 0));
    assert_eq!(pixel(&fb, 9, 1), (0, 0, 0));
    assert_eq!(pixel(&fb, 1, 6), (0, 0, 0));
    assert_eq!(pixel(&fb, 9, 6), (0, 0, 0));
    assert_eq!(pixel(&fb, 1 + 4, 1 + 3), (50, 60, 70));
    // The one exception: a 2x2 box with radius 1 paints nothing.
    let mut small = screen(8, 8, false);
    small.fill_rounded_rect(3, 3, 2, 2, (50, 60, 70), 1);
    for y in 0..8 {
        for x in 0..8 {
            assert_eq!(pixel(&small, x, y), (0, 0, 0));
        }
    }
}
