use marx_os::app_wm::{create, with_content, AppWindows};
use marx_os::apps::{
    darken, fill_v_gradient, format_fixed, hit_test, key_for_char, label, lighten, paint_button, paint_hello, stroke_rect,
    CalcKey,
};
use marx_os::button::{draw, ButtonRect, ButtonState};
use marx_os::chrome::{paint_ctx_menu, paint_taskbar, paint_wallpaper, paint_window_controls, paint_window_frame};
use marx_os::cursor::{init as cursor_init, invalidate, tick, Cursor, CH, CW};
use marx_os::desktop::WM;
use marx_os::framebuffer::{FbWriter, Geometry, FONT_GLYPHS};
use marx_os::mouse::MouseState;
use marx_os::sdk::Rgb;
use marx_os::splash::show;
use marx_os::welcome::{compute_button_rect, ends_on_key, logo_position, paint_scene, welcome_fits, WelcomeState};

fn screen(w: usize, h: usize) -> FbWriter {
    FbWriter::new(Geometry { stride_bytes: w * 3, width: w, height: h, bpp: 3, bgr: false }, vec![0u8; FONT_GLYPHS * 8])
}

fn pixel(fb: &FbWriter, x: usize, y: usize) -> (u8, u8, u8) {
    let mut out = vec![0u8; 3];
    fb.read_rgb_at(&mut out, 1, 1, x, y);
    (out[0], out[1], out[2])
}

#[test]
fn button_hit_test_uses_i32_bounds() {
    let b = ButtonRect { x: 10, y: 20, w: 30, h: 40 };
    assert!(b.contains(10, 20));
    assert!(b.contains(39, 59));
    assert!(!b.contains(40, 20));
    assert!(!b.contains(10, 60));
    assert!(!b.contains(9, 30));
}

#[test]
fn button_body_has_a_border_and_gloss() {
    let mut fb = screen(64, 64);
    let r = ButtonRect { x: 4, y: 4, w: 40, h: 20 };
    draw(&mut fb, &r, ButtonState::Normal);
    assert_eq!(pixel(&fb, 20, 4), (0x14, 0x4A, 0x82));
    // Second gloss row: 1/9 of the way from (0xCB, 0xE2, 0xF8) to (0x9D, 0xC4, 0xEF).
    assert_eq!(pixel(&fb, 20, 5), (0xC5, 0xDE, 0xF7));
    assert_eq!(pixel(&fb, 0, 0), (0, 0, 0));
    draw(&mut fb, &r, ButtonState::Pressed);
    assert_eq!(pixel(&fb, 20, 5), (0x67, 0x9D, 0xCD));
}

#[test]
fn welcome_button_and_logo_placement() {
    let r = compute_button_rect(1280, 720);
    assert_eq!((r.x, r.y, r.w, r.h), (530, 720 - 37 - 3 - 56 - 40, 220, 56));
    assert_eq!(logo_position(1280, 720, 200, 100), (540, 60 + 186 - 50));
    assert_eq!(logo_position(100, 720, 200, 400), (0, 60));
}

#[test]
fn welcome_click_needs_press_and_release_inside() {
    let btn = ButtonRect { x: 10, y: 10, w: 100, h: 50 };
    let mut s = WelcomeState::new();
    let m = |x, y, left| MouseState { x, y, left, right: false, middle: false };
    let r = s.step(&btn, m(20, 20, false));
    assert_eq!(r.redraw, Some(ButtonState::Hover));
    assert!(!r.done);
    let r = s.step(&btn, m(20, 20, true));
    assert_eq!(r.redraw, Some(ButtonState::Pressed));
    let r = s.step(&btn, m(21, 20, true));
    assert_eq!(r.redraw, None);
    let r = s.step(&btn, m(21, 21, false));
    assert!(r.done);
    let mut s = WelcomeState::new();
    s.step(&btn, m(20, 20, true));
    let r = s.step(&btn, m(500, 500, false));
    assert!(!r.done);
    assert_eq!(r.redraw, Some(ButtonState::Normal));
    assert!(ends_on_key(b'\n'));
    assert!(ends_on_key(b' '));
    assert!(!ends_on_key(b'q'));
}

#[test]
fn welcome_scene_bands() {
    let mut fb = screen(32, 200);
    paint_scene(&mut fb, 32, 200, &[], 0, 0);
    assert_eq!(pixel(&fb, 0, 0), (0x0A, 0x2E, 0x73));
    assert_eq!(pixel(&fb, 0, 60), (0x5B, 0xA0, 0xF0));
    assert_eq!(pixel(&fb, 0, 160), (0xF5, 0xA6, 0x23));
    assert_eq!(pixel(&fb, 0, 199), (0x0A, 0x2E, 0x73));
}

#[test]
fn splash_is_white_with_the_logo_centred() {
    let mut fb = screen(10, 10);
    let logo = vec![255, 0, 0, 255, 0, 0, 255, 0];
    show(&mut fb, &logo, 2, 1);
    assert_eq!(pixel(&fb, 0, 0), (255, 255, 255));
    assert_eq!(pixel(&fb, 4, 4), (255, 0, 0));
    assert_eq!(pixel(&fb, 5, 4), (255, 255, 255));
}

#[test]
fn cursor_saves_and_restores_the_background() {
    let mut fb = screen(40, 40);
    fb.fill_color(7, 7, 7);
    let mut c = Cursor::new();
    tick(&mut c, &mut fb, (5, 5));
    assert_eq!(pixel(&fb, 5, 5), (7, 7, 7));
    cursor_init(&mut c);
    tick(&mut c, &mut fb, (5, 5));
    assert_eq!(pixel(&fb, 5, 5), (255, 255, 255));
    assert_eq!(pixel(&fb, 6, 7), (0, 0, 0));
    tick(&mut c, &mut fb, (20, 20));
    assert_eq!(pixel(&fb, 5, 5), (7, 7, 7));
    assert_eq!(pixel(&fb, 20, 20), (255, 255, 255));
    invalidate(&mut c);
    fb.fill_color(1, 1, 1);
    tick(&mut c, &mut fb, (30, 30));
    assert_eq!(pixel(&fb, 20, 20), (1, 1, 1));
    assert_eq!((CW, CH), (12, 19));
}

#[test]
fn desktop_chrome_paints() {
    let mut fb = screen(1280, 720);
    let wall = vec![9u8; 4 * 4 * 3];
    paint_wallpaper(&mut fb, &wall, 4, 4);
    assert_eq!(pixel(&fb, 3, 3), (9, 9, 9));
    assert_eq!(pixel(&fb, 4, 3), (0, 0, 0));
    let mut wm = WM::new();
    wm.open_about(None, 1280, 720);
    let apps = AppWindows::new();
    paint_window_frame(&mut fb, &wm.windows[0], true);
    paint_window_controls(&mut fb, &wm.windows[0], true, &apps);
    // Separator line under the title bar.
    assert_eq!(pixel(&fb, 600, 130 + 30), (0x32, 0x58, 0x88));
    // Border on the left edge.
    assert_eq!(pixel(&fb, 290, 300), (0x3A, 0x60, 0x8C));
    paint_taskbar(&mut fb, &wm, 1280, 720);
    assert_eq!(pixel(&fb, 600, 680), (0x4A, 0x8A, 0xD8));
    wm.ctx_open = true;
    wm.ctx_x = 100;
    wm.ctx_y = 100;
    paint_ctx_menu(&mut fb, &wm, 1280, 720);
    assert_eq!(pixel(&fb, 150, 100), (0x3A, 0x5F, 0x8E));
}

#[test]
fn calculator_keypad() {
    assert_eq!(hit_test(8, 76), Some((0, 0)));
    assert_eq!(hit_test(7, 100), None);
    assert_eq!(hit_test(100, 75), None);
    assert_eq!(hit_test(231, 370), Some((4, 3)));
    assert_eq!(hit_test(232, 100), None);
    assert_eq!(label(0, 0), b'7');
    assert_eq!(label(3, 2), b'C');
    assert_eq!(marx_os::apps::trigger(0, 3), CalcKey::Op(b'/'));
    assert_eq!(marx_os::apps::trigger(3, 0), CalcKey::Digit(0));
    assert_eq!(marx_os::apps::trigger(3, 1), CalcKey::Dot);
    assert_eq!(marx_os::apps::trigger(3, 2), CalcKey::Clear);
    assert_eq!(marx_os::apps::trigger(4, 1), CalcKey::Equals);
    assert_eq!(key_for_char(b'5'), Some(CalcKey::Digit(5)));
    assert_eq!(key_for_char(b','), Some(CalcKey::Dot));
    assert_eq!(key_for_char(b'\r'), Some(CalcKey::Equals));
    assert_eq!(key_for_char(0x1B), Some(CalcKey::Clear));
    assert_eq!(key_for_char(b'x'), None);
    assert_eq!(lighten(Rgb::new(250, 1, 2), 40), Rgb::new(255, 41, 42));
    assert_eq!(darken(Rgb::new(20, 100, 24), 24), Rgb::new(0, 76, 0));
}

#[test]
fn calculator_drawing_through_the_content_service() {
    let mut reg = AppWindows::new();
    let id = create(&mut reg, 8, 8);
    fill_v_gradient(&mut reg, id, 0, 0, 8, 4, Rgb::new(0, 0, 0), Rgb::new(200, 100, 40));
    {
        let (c, _, _) = with_content(&reg, id).unwrap();
        assert_eq!(&c[0..3], &[0, 0, 0]);
        assert_eq!(&c[2 * 8 * 3..2 * 8 * 3 + 3], &[100, 50, 20]);
        assert_eq!(&c[4 * 8 * 3..4 * 8 * 3 + 3], &[0xFF, 0xFF, 0xFF]);
    }
    stroke_rect(&mut reg, id, 0, 0, 8, 8, Rgb::new(1, 2, 3));
    {
        let (c, _, _) = with_content(&reg, id).unwrap();
        assert_eq!(&c[(7 * 8 + 7) * 3..(7 * 8 + 7) * 3 + 3], &[1, 2, 3]);
        assert_eq!(&c[(4 * 8 + 4) * 3..(4 * 8 + 4) * 3 + 3], &[0xFF, 0xFF, 0xFF]);
    }
    paint_button(&mut reg, id, 0, 0, 8, 8, b'=', false);
    let (c, _, _) = with_content(&reg, id).unwrap();
    assert_eq!(&c[(1 * 8 + 1) * 3..(1 * 8 + 1) * 3 + 3], &[0xAC, 0xF4, 0x92]);
}

#[test]
fn hello_banner() {
    let mut reg = AppWindows::new();
    let id = create(&mut reg, 380, 200);
    paint_hello(&mut reg, id);
    let (c, _, _) = with_content(&reg, id).unwrap();
    assert_eq!(&c[0..3], &[0x6F, 0xB6, 0xF0]);
    let row = |y: usize| &c[y * 380 * 3..y * 380 * 3 + 3];
    let band1 = [((0x6Fu32 * 7 + 0x3D) / 8) as u8, ((0xB6u32 * 7 + 0x86) / 8) as u8, ((0xF0u32 * 7 + 0xD4) / 8) as u8];
    assert_eq!(row(5), &band1);
    assert_eq!(row(100), &[0xF4, 0xF7, 0xFB]);
}

#[test]
fn calculator_display_text() {
    assert_eq!(format_fixed(false, 3, 140_000), "3.14");
    assert_eq!(format_fixed(true, 0, 500_000), "-0.5");
    assert_eq!(format_fixed(false, 12, 0), "12");
    assert_eq!(format_fixed(false, 0, 1), "0.000001");
    // a rounded-up fraction carries into the integer part
    assert_eq!(format_fixed(false, 2, 1_000_000), "3");
    assert_eq!(format_fixed(false, 7, 1_250_000), "8.25");
    assert_eq!(format_fixed(false, 18_446_744_073_709_551_614, 0), "18446744073709551614");
}

#[test]
fn welcome_scene_needs_room() {
    assert!(welcome_fits(1280, 720));
    assert!(welcome_fits(220, 136));
    assert!(!welcome_fits(219, 720));
    assert!(!welcome_fits(1280, 135));
}

#[test]
fn narrow_app_window_shows_its_content() {
    let mut fb = screen(200, 120);
    let mut apps = AppWindows::new();
    let id = marx_os::app_wm::create(&mut apps, 46, 10);
    marx_os::app_wm::draw_rect(&mut apps, id, 0, 0, 46, 10, (1, 2, 3));
    let mut wm = WM::new();
    wm.open_about(None, 1280, 720);
    let win = &mut wm.windows[0];
    win.x = 10;
    win.y = 10;
    win.w = 46;
    win.h = 41;
    win.app_id = Some(id);
    paint_window_frame(&mut fb, &wm.windows[0], true);
    paint_window_controls(&mut fb, &wm.windows[0], true, &apps);
    // content starts one pixel below the title bar
    assert_eq!(pixel(&fb, 10 + 5, 10 + 31 + 2), (1, 2, 3));
    assert_eq!(pixel(&fb, 10 + 45, 10 + 31 + 9), (1, 2, 3));
}
