//! Painting the desktop: wallpaper, windows, taskbar and the two menus.
//!
//! Each function paints the shapes of one part of the desktop; the text on
//! them (titles, labels, the clock) is drawn by the caller with the TrueType
//! renderer between the calls, in the order the functions' docs give.

use vstd::prelude::*;
use crate::framebuffer::{
    FbWriter, Geometry, Color, paint, rect_op, shape_op, blend_shape_op, blend_rect_op, grad_bottom_op,
    blend_grad_in_op, grad_in_op, rgb_image_op, rgb_rows_op, grad_rows_op, lemma_paint_paint,
};
use crate::desktop::{
    Window, WinView, WM, WmView, TITLE_H, WINDOW_RADIUS, CLOSE_BOX, CLOSE_PAD_R, BTN_GAP, TASKBAR_H, COORD_MAX,
    SIDE_MAX, WINDOWS_MAX, MENU_HDR_H, MENU_PAD_TOP, MENU_ROW_H, MENU_RADIUS, MENU_ITEM_COUNT, CTX_PAD_TOP, CTX_ROW_H,
    CTX_RADIUS, CTX_ITEM_COUNT, focused, start_rect_spec, task_btn_rect_spec, menu_rect_spec, ctx_rect_spec,
    start_rect, task_btn_rect, menu_rect, ctx_rect, lighten,
};
use crate::app_wm::{AppWindows, with_content};

verus! {

/// Shadow layers under a window: (offset, alpha), widest and faintest first.
pub open spec fn shadow_layers(focused: bool) -> Seq<(int, u8)> {
    if focused {
        seq![(7int, 14u8), (5int, 22u8), (3int, 38u8), (2int, 60u8)]
    } else {
        seq![(6int, 10u8), (4int, 18u8), (2int, 30u8)]
    }
}

/// The first `k` shadow layers blended under window `w`.
pub open spec fn shadows(g: Geometry, b: Seq<u8>, w: WinView, layers: Seq<(int, u8)>, k: nat) -> Seq<u8>
    decreases k,
{
    if k == 0 {
        b
    } else {
        let l = layers[k - 1];
        blend_shape_op(g, shadows(g, b, w, layers, (k - 1) as nat), w.x + l.0, w.y + l.0, w.w, w.h,
            (0x00u8, 0x10u8, 0x28u8), l.1, WINDOW_RADIUS + 1)
    }
}

/// Title-bar glass colours, title-bar alphas and border colour.
pub open spec fn frame_palette(focused: bool) -> (Color, Color, u8, u8, Color) {
    if focused {
        ((0xC4, 0xDC, 0xF0), (0x84, 0xB4, 0xDE), 95, 145, (0x3A, 0x60, 0x8C))
    } else {
        ((0xE0, 0xE3, 0xE8), (0xB4, 0xBB, 0xC4), 130, 175, (0x76, 0x80, 0x8A))
    }
}

/// The window frame: soft shadow, translucent glass title bar with a
/// glossy highlight, opaque body with rounded bottom corners, a separator
/// under the title bar and the outer border.
pub open spec fn frame_spec(g: Geometry, b: Seq<u8>, w: WinView, focused: bool) -> Seq<u8> {
    let layers = shadow_layers(focused);
    let p = frame_palette(focused);
    let r = WINDOW_RADIUS as int;
    let b1 = shadows(g, b, w, layers, layers.len());
    let b2 = blend_grad_in_op(g, b1, w.x, w.y, w.w, TITLE_H as int, p.0, p.1, p.2, p.3, w.x, w.y, w.w, w.h, r);
    let b3 = blend_grad_in_op(g, b2, w.x, w.y, w.w, 10, (0xFF, 0xFF, 0xFF), (0xFF, 0xFF, 0xFF),
        if focused { 160u8 } else { 110u8 }, 0, w.x, w.y, w.w, w.h, r);
    let b4 = grad_bottom_op(g, b3, w.x, w.y + TITLE_H, w.w, w.h - TITLE_H, (0xFD, 0xFE, 0xFF), (0xEE, 0xF1, 0xF6), r);
    let sep = if focused { (0x32u8, 0x58u8, 0x88u8) } else { (0x6Cu8, 0x76u8, 0x80u8) };
    let b5 = rect_op(g, b4, w.x + 1, w.y + TITLE_H, w.w - 2, 1, sep);
    let b6 = blend_rect_op(g, b5, w.x + 1, w.y + TITLE_H + 1, w.w - 2, 1, (0xFF, 0xFF, 0xFF), 90);
    shape_op(g, b6, 2, w.x, w.y, w.w, w.h, p.4, r)
}

/// A window the painter can draw: on screen's side of the origin, with its
/// minimise and close buttons right of the origin too (`x + w` at least
/// 52), at least 2 pixels wide (the title separator spans `w - 2`) and tall
/// enough for its title bar.
pub open spec fn paintable(w: WinView) -> bool {
    &&& w.wf()
    &&& w.x >= 0
    &&& w.y >= 0
    &&& w.w >= 2
    &&& w.x + w.w >= 2 * CLOSE_BOX + CLOSE_PAD_R + BTN_GAP
    &&& w.h >= TITLE_H
}

/// Paint window `win`'s frame. The caller then draws the title text.
pub fn paint_window_frame(fb: &mut FbWriter, win: &Window, focused: bool)
    requires
        old(fb).wf(),
        paintable(win@),
    ensures
        final(fb).wf(),
        final(fb).geometry() == old(fb).geometry(),
        final(fb).text() == old(fb).text(),
        final(fb).bytes() == frame_spec(old(fb).geometry(), old(fb).bytes(), win@, focused),
{
    let ghost g = fb.geometry();
    let ghost b0 = fb.bytes();
    let ghost w = win@;
    let wx = win.x as usize;
    let wy = win.y as usize;
    let ww = win.w;
    let wh = win.h;
    let mut layers: Vec<(usize, u8)> = Vec::new();
    if focused {
        layers.push((7, 14));
        layers.push((5, 22));
        layers.push((3, 38));
        layers.push((2, 60));
    } else {
        layers.push((6, 10));
        layers.push((4, 18));
        layers.push((2, 30));
    }
    let ghost ls = shadow_layers(focused);
    assert(layers@.len() == ls.len());
    assert(forall|k: int| 0 <= k < ls.len() ==> (#[trigger] layers@[k]).0 as int == ls[k].0 && layers@[k].1 == ls[k].1
        && layers@[k].0 <= 7);
    let mut k: usize = 0;
    while k < layers.len()
        invariant
            k <= layers@.len(),
            layers@.len() == ls.len(),
            ls == shadow_layers(focused),
            forall|j: int| 0 <= j < ls.len() ==> (#[trigger] layers@[j]).0 as int == ls[j].0 && layers@[j].1 == ls[j].1
                && layers@[j].0 <= 7,
            fb.wf(),
            fb.geometry() == g,
            fb.text() == old(fb).text(),
            b0 == old(fb).bytes(),
            w == win@,
            paintable(w),
            wx == w.x,
            wy == w.y,
            ww == w.w,
            wh == w.h,
            fb.bytes() == shadows(g, b0, w, ls, k as nat),
        decreases layers@.len() - k,
    {
        let (off, alpha) = layers[k];
        let ghost before = fb.bytes();
        fb.blend_rounded_rect(wx + off, wy + off, ww, wh, (0x00, 0x10, 0x28), alpha, WINDOW_RADIUS + 1);
        proof {
            assert(ls[k as int] == (off as int, alpha));
            assert(fb.bytes() == blend_shape_op(g, before, w.x + off, w.y + off, w.w, w.h,
                (0x00u8, 0x10u8, 0x28u8), alpha, WINDOW_RADIUS + 1));
        }
        k = k + 1;
    }
    let ghost b1 = fb.bytes();
    let (g_top, g_bot, ta, ba, border) = if focused {
        ((0xC4u8, 0xDCu8, 0xF0u8), (0x84u8, 0xB4u8, 0xDEu8), 95u8, 145u8, (0x3Au8, 0x60u8, 0x8Cu8))
    } else {
        ((0xE0u8, 0xE3u8, 0xE8u8), (0xB4u8, 0xBBu8, 0xC4u8), 130u8, 175u8, (0x76u8, 0x80u8, 0x8Au8))
    };
    fb.blend_v_gradient_in_rounded_rect(wx, wy, ww, TITLE_H, g_top, g_bot, ta, ba, wx, wy, ww, wh, WINDOW_RADIUS);
    let ghost b2 = fb.bytes();
    fb.blend_v_gradient_in_rounded_rect(wx, wy, ww, 10, (0xFF, 0xFF, 0xFF), (0xFF, 0xFF, 0xFF),
        if focused { 160 } else { 110 }, 0, wx, wy, ww, wh, WINDOW_RADIUS);
    let ghost b3 = fb.bytes();
    fb.fill_v_gradient_rect_rounded_bottom(wx, wy + TITLE_H, ww, wh - TITLE_H, (0xFD, 0xFE, 0xFF), (0xEE, 0xF1, 0xF6), WINDOW_RADIUS);
    let ghost b4 = fb.bytes();
    let sep = if focused { (0x32u8, 0x58u8, 0x88u8) } else { (0x6Cu8, 0x76u8, 0x80u8) };
    fb.fill_rect(wx + 1, wy + TITLE_H, ww - 2, 1, sep);
    let ghost b5 = fb.bytes();
    fb.blend_rect(wx + 1, wy + TITLE_H + 1, ww - 2, 1, (0xFF, 0xFF, 0xFF), 90);
    let ghost b6 = fb.bytes();
    fb.stroke_rounded_rect(wx, wy, ww, wh, border, WINDOW_RADIUS);
    proof {
        let p = frame_palette(focused);
        let r = WINDOW_RADIUS as int;
        assert(b2 == blend_grad_in_op(g, b1, w.x, w.y, w.w, TITLE_H as int, p.0, p.1, p.2, p.3, w.x, w.y, w.w, w.h, r));
        assert(b3 == blend_grad_in_op(g, b2, w.x, w.y, w.w, 10, (0xFF, 0xFF, 0xFF), (0xFF, 0xFF, 0xFF),
            if focused { 160u8 } else { 110u8 }, 0, w.x, w.y, w.w, w.h, r));
        assert(b4 == grad_bottom_op(g, b3, w.x, w.y + TITLE_H, w.w, w.h - TITLE_H, (0xFD, 0xFE, 0xFF), (0xEE, 0xF1, 0xF6), r));
        assert(b5 == rect_op(g, b4, w.x + 1, w.y + TITLE_H, w.w - 2, 1, sep));
        assert(b6 == blend_rect_op(g, b5, w.x + 1, w.y + TITLE_H + 1, w.w - 2, 1, (0xFF, 0xFF, 0xFF), 90));
    }
}

/// The close button's "X": two 2-pixel-wide diagonals, `n` rows of it.
pub open spec fn close_glyph(cx: int, cy: int, cw: int, col: Color, n: int) -> spec_fn(int, int) -> Option<Color> {
    |px: int, py: int| {
        let i = py - cy - 6;
        if 0 <= i < n && (px == cx + 6 + i || px == cx + 7 + i || px == cx + cw - 7 - i || px == cx + cw - 8 - i) {
            Some(col)
        } else {
            None
        }
    }
}

/// Hover / press feedback of a title-bar button: a rounded fill and outline.
pub open spec fn button_feedback(g: Geometry, b: Seq<u8>, r: (int, int, int, int), fill: Color, edge: Color) -> Seq<u8> {
    shape_op(g, shape_op(g, b, 0, r.0, r.1, r.2, r.3, fill, 3), 2, r.0, r.1, r.2, r.3, edge, 3)
}

/// Colour of a title-bar glyph: white on highlighted buttons, dark blue on
/// the focused window, grey otherwise.
pub open spec fn glyph_colour(highlighted: bool, focused: bool) -> Color {
    if highlighted { (0xFF, 0xFF, 0xFF) } else if focused { (0x20, 0x3A, 0x66) } else { (0x70, 0x78, 0x82) }
}

/// The minimise and close buttons of window `w`: highlight when the focused
/// window's button is hovered or pressed, the "_" bar and the "X".
pub open spec fn buttons_spec(g: Geometry, b: Seq<u8>, w: WinView, focused: bool) -> Seq<u8> {
    let m = w.min_rect();
    let show_min = focused && (w.min_hover || w.min_pressed);
    let b1 = if show_min {
        button_feedback(g, b, m, if w.min_pressed { (0x32u8, 0x55u8, 0x80u8) } else { (0x5Cu8, 0x80u8, 0xB0u8) }, (0x20, 0x3A, 0x66))
    } else {
        b
    };
    let b2 = rect_op(g, b1, m.0 + 6, m.1 + m.3 - 8, m.2 - 12, 2, glyph_colour(show_min, focused));
    let c = w.close_rect();
    let show_close = focused && (w.close_hover || w.close_pressed);
    let b3 = if show_close {
        button_feedback(g, b2, c, if w.close_pressed { (0x8Eu8, 0x1Fu8, 0x1Fu8) } else { (0xC8u8, 0x3Au8, 0x3Au8) }, (0x60, 0x14, 0x14))
    } else {
        b2
    };
    paint(g, b3, close_glyph(c.0, c.1, c.2, glyph_colour(show_close, focused), c.2 - 12))
}

/// Rounded fill plus outline of a title-bar button.
fn feedback(fb: &mut FbWriter, x: usize, y: usize, s: usize, fill: Color, edge: Color)
    requires
        old(fb).wf(),
        x <= 0x2000_0000,
        y <= 0x2000_0000,
        s == CLOSE_BOX,
    ensures
        final(fb).wf(),
        final(fb).geometry() == old(fb).geometry(),
        final(fb).text() == old(fb).text(),
        final(fb).bytes() == button_feedback(old(fb).geometry(), old(fb).bytes(), (x as int, y as int, s as int, s as int), fill, edge),
{
    fb.fill_rounded_rect(x, y, s, s, fill, 3);
    fb.stroke_rounded_rect(x, y, s, s, edge, 3);
}

/// Paint the close button's "X".
fn close_x(fb: &mut FbWriter, cx: usize, cy: usize, cw: usize, col: Color)
    requires
        old(fb).wf(),
        cx <= 0x2000_0000,
        cy <= 0x2000_0000,
        cw == CLOSE_BOX,
    ensures
        final(fb).wf(),
        final(fb).geometry() == old(fb).geometry(),
        final(fb).text() == old(fb).text(),
        final(fb).bytes() == paint(old(fb).geometry(), old(fb).bytes(), close_glyph(cx as int, cy as int, cw as int, col, cw - 12)),
{
    let ghost g = fb.geometry();
    let ghost b0 = fb.bytes();
    proof {
        fb.lemma_wf();
        crate::framebuffer::lemma_paint_ext(g, b0, close_glyph(cx as int, cy as int, cw as int, col, 0), |a: int, b: int| None::<Color>);
        assert(paint(g, b0, |a: int, b: int| None::<Color>) =~= b0);
    }
    let pad: usize = 6;
    let mut i: usize = 0;
    while i < cw - pad * 2
        invariant
            i <= cw - 12,
            cw == CLOSE_BOX,
            pad == 6,
            cx <= 0x2000_0000,
            cy <= 0x2000_0000,
            fb.wf(),
            fb.geometry() == g,
            g.wf(),
            b0.len() == g.len(),
            fb.text() == old(fb).text(),
            b0 == old(fb).bytes(),
            fb.bytes() == paint(g, b0, close_glyph(cx as int, cy as int, cw as int, col, i as int)),
        decreases cw - 12 - i,
    {
        let ghost f0 = close_glyph(cx as int, cy as int, cw as int, col, i as int);
        let y = cy + pad + i;
        let x1 = cx + pad + i;
        let x2 = cx + pad + i + 1;
        let x3 = cx + cw - pad - 1 - i;
        let x4 = cx + cw - pad - 2 - i;
        fb.put_pixel_at(x1, y, col.0, col.1, col.2);
        let ghost f1 = |px: int, py: int| if px == x1 && py == y { Some(col) } else { f0(px, py) };
        proof {
            lemma_paint_paint(g, b0, f0, crate::framebuffer::solid(x1 as int, y as int, 1, 1, (col.0, col.1, col.2)), f1);
        }
        fb.put_pixel_at(x2, y, col.0, col.1, col.2);
        let ghost f2 = |px: int, py: int| if px == x2 && py == y { Some(col) } else { f1(px, py) };
        proof {
            lemma_paint_paint(g, b0, f1, crate::framebuffer::solid(x2 as int, y as int, 1, 1, (col.0, col.1, col.2)), f2);
        }
        fb.put_pixel_at(x3, y, col.0, col.1, col.2);
        let ghost f3 = |px: int, py: int| if px == x3 && py == y { Some(col) } else { f2(px, py) };
        proof {
            lemma_paint_paint(g, b0, f2, crate::framebuffer::solid(x3 as int, y as int, 1, 1, (col.0, col.1, col.2)), f3);
        }
        fb.put_pixel_at(x4, y, col.0, col.1, col.2);
        let ghost f4 = |px: int, py: int| if px == x4 && py == y { Some(col) } else { f3(px, py) };
        proof {
            lemma_paint_paint(g, b0, f3, crate::framebuffer::solid(x4 as int, y as int, 1, 1, (col.0, col.1, col.2)), f4);
            crate::framebuffer::lemma_paint_ext(g, b0, f4, close_glyph(cx as int, cy as int, cw as int, col, i + 1));
        }
        i = i + 1;
    }
}

/// Paint window `win`'s buttons and, for an app window, its content from
/// `apps` below the title bar. The caller then draws a built-in window's
/// body text.
pub fn paint_window_controls(fb: &mut FbWriter, win: &Window, focused: bool, apps: &AppWindows)
    requires
        old(fb).wf(),
        paintable(win@),
        apps.wf(),
    ensures
        final(fb).wf(),
        final(fb).geometry() == old(fb).geometry(),
        final(fb).text() == old(fb).text(),
        final(fb).bytes() == ({
            let g = old(fb).geometry();
            let b1 = buttons_spec(g, old(fb).bytes(), win@, focused);
            match win@.app_id {
                Some(id) => if apps.windows().contains_key(id) {
                    rgb_image_op(g, b1, apps.windows()[id].content, apps.windows()[id].content_w,
                        apps.windows()[id].content_h, win@.x, win@.y + TITLE_H + 1)
                } else {
                    b1
                },
                None => b1,
            }
        }),
{
    let ghost g = fb.geometry();
    let ghost b0 = fb.bytes();
    let ghost w = win@;
    let (mx, my, mw, mh) = win.min_rect();
    let show_min_hi = focused && (win.min_hover || win.min_pressed);
    if show_min_hi {
        let bg = if win.min_pressed { (0x32u8, 0x55u8, 0x80u8) } else { (0x5Cu8, 0x80u8, 0xB0u8) };
        feedback(fb, mx as usize, my as usize, mw, bg, (0x20, 0x3A, 0x66));
    }
    let icon_col = if show_min_hi { (0xFFu8, 0xFFu8, 0xFFu8) } else if focused { (0x20u8, 0x3Au8, 0x66u8) } else { (0x70u8, 0x78u8, 0x82u8) };
    let pad: usize = 6;
    fb.fill_rect(mx as usize + pad, my as usize + mh - pad - 2, mw - pad * 2, 2, icon_col);
    let (cx, cy, cw, _ch) = win.close_rect();
    let show_close_hi = focused && (win.close_hover || win.close_pressed);
    if show_close_hi {
        let bg = if win.close_pressed { (0x8Eu8, 0x1Fu8, 0x1Fu8) } else { (0xC8u8, 0x3Au8, 0x3Au8) };
        feedback(fb, cx as usize, cy as usize, cw, bg, (0x60, 0x14, 0x14));
    }
    let x_col = if show_close_hi { (0xFFu8, 0xFFu8, 0xFFu8) } else if focused { (0x20u8, 0x3Au8, 0x66u8) } else { (0x70u8, 0x78u8, 0x82u8) };
    close_x(fb, cx as usize, cy as usize, cw, x_col);
    let ghost b4 = fb.bytes();
    assert(b4 == buttons_spec(g, b0, w, focused));
    match win.app_id {
        Some(app_id) => {
            match with_content(apps, app_id) {
                Some((content, cw2, ch2)) => {
                    let n = content.len();
                    proof {
                        apps.lemma_windows_wf();
                        assert(apps.windows()[app_id].wf());
                    }
                    fb.blit_rgb_at(content.as_slice(), cw2, ch2, win.x as usize, win.y as usize + TITLE_H + 1);
                },
                None => {},
            }
        },
        None => {},
    }
}

/// Wallpaper rows above the taskbar.
pub fn paint_wallpaper(fb: &mut FbWriter, rgb: &[u8], img_w: usize, img_h: usize)
    requires
        old(fb).wf(),
        old(fb).geometry().height >= TASKBAR_H,
        img_w * img_h * 3 <= usize::MAX,
    ensures
        final(fb).wf(),
        final(fb).geometry() == old(fb).geometry(),
        final(fb).text() == old(fb).text(),
        final(fb).bytes() == rgb_rows_op(old(fb).geometry(), old(fb).bytes(), rgb@, img_w as int, img_h as int,
            0, old(fb).geometry().height - TASKBAR_H),
{
    let (_sw, sh) = fb.dimensions();
    fb.blit_rgb_rows(rgb, img_w, img_h, 0, sh - TASKBAR_H);
}

/// `c` with `amt` added to each channel, saturating.
pub open spec fn lighten_spec(c: Color, amt: u8) -> Color {
    (
        if c.0 + amt > 255 { 255u8 } else { (c.0 + amt) as u8 },
        if c.1 + amt > 255 { 255u8 } else { (c.1 + amt) as u8 },
        if c.2 + amt > 255 { 255u8 } else { (c.2 + amt) as u8 },
    )
}

/// Start button colour: pressed, hovered or normal.
pub open spec fn start_colour(v: WmView) -> Color {
    if v.start_pressed { (0x15, 0x6A, 0x2C) } else if v.start_hover { (0x58, 0xCC, 0x6A) } else { (0x3E, 0xAA, 0x52) }
}

/// Fill and edge colours of task button `k`: pressed, then focused, then
/// hovered, then normal.
pub open spec fn task_colours(v: WmView, k: int) -> (Color, Color) {
    if v.task_pressed == Some(k as usize) {
        ((0x10, 0x3E, 0x82), (0x70, 0xA8, 0xE0))
    } else if focused(v.windows) == Some(k as usize) {
        ((0x3A, 0x8E, 0xE6), (0x9C, 0xCC, 0xFF))
    } else if v.task_hover == Some(k as usize) {
        ((0x24, 0x6A, 0xC8), (0x4A, 0x98, 0xE6))
    } else {
        ((0x14, 0x4A, 0x96), (0x2A, 0x68, 0xB8))
    }
}

/// Task button `k`: rounded body and edge, an inner highlight line when its
/// window is focused and not pressed, a bracket when it is minimised.
pub open spec fn task_button_spec(g: Geometry, b: Seq<u8>, v: WmView, sh: int, k: int) -> Seq<u8> {
    let r = task_btn_rect_spec(sh, k);
    let c = task_colours(v, k);
    let b1 = shape_op(g, b, 0, r.0, r.1, r.2, r.3, c.0, 4);
    let b2 = shape_op(g, b1, 2, r.0, r.1, r.2, r.3, c.1, 4);
    let b3 = if focused(v.windows) == Some(k as usize) && v.task_pressed != Some(k as usize) {
        rect_op(g, b2, r.0 + 2, r.1 + 2, r.2 - 4, 1, (0xCC, 0xE6, 0xFF))
    } else {
        b2
    };
    if v.windows[k].minimized {
        rect_op(g, b3, r.0 + 4, r.1 + 4, 2, if r.3 - 8 > 1 { r.3 - 8 } else { 1 }, (0xA8, 0xC0, 0xE0))
    } else {
        b3
    }
}

/// The first `k` task buttons.
pub open spec fn task_buttons(g: Geometry, b: Seq<u8>, v: WmView, sh: int, k: nat) -> Seq<u8>
    decreases k,
{
    if k == 0 { b } else { task_button_spec(g, task_buttons(g, b, v, sh, (k - 1) as nat), v, sh, k - 1) }
}

/// The taskbar: gradient band with a highlight line on top, the Start
/// button (with a gloss strip unless pressed) and one button per window.
pub open spec fn taskbar_spec(g: Geometry, b: Seq<u8>, v: WmView, sw: int, sh: int) -> Seq<u8> {
    let ty = sh - TASKBAR_H;
    let b1 = grad_rows_op(g, b, ty, sh, (0x1C, 0x54, 0xB2), (0x0F, 0x36, 0x82));
    let b2 = rect_op(g, b1, 0, ty, sw, 1, (0x4A, 0x8A, 0xD8));
    let s = start_rect_spec(sh);
    let col = start_colour(v);
    let b3 = shape_op(g, b2, 0, s.0, s.1, s.2, s.3, col, 8);
    let b4 = if !v.start_pressed {
        shape_op(g, b3, 0, s.0 + 2, s.1 + 2, s.2 - 4, s.3 / 2 - 2, lighten_spec(col, 30), 6)
    } else {
        b3
    };
    task_buttons(g, b4, v, sh, v.windows.len())
}

/// Paint the taskbar's shapes on a `sw`×`sh` screen. The caller then draws
/// the "Start" label, each button's window title and the clock.
pub fn paint_taskbar(fb: &mut FbWriter, wm: &WM, sw: usize, sh: usize)
    requires
        old(fb).wf(),
        wm@.wf(),
        sw <= COORD_MAX,
        TASKBAR_H <= sh <= COORD_MAX,
    ensures
        final(fb).wf(),
        final(fb).geometry() == old(fb).geometry(),
        final(fb).text() == old(fb).text(),
        final(fb).bytes() == taskbar_spec(old(fb).geometry(), old(fb).bytes(), wm@, sw as int, sh as int),
{
    let ghost g = fb.geometry();
    let ghost b0 = fb.bytes();
    let ghost v = wm@;
    let ty = sh - TASKBAR_H;
    fb.fill_gradient_v(ty, sh, (0x1C, 0x54, 0xB2), (0x0F, 0x36, 0x82));
    let ghost b1 = fb.bytes();
    fb.fill_rect(0, ty, sw, 1, (0x4A, 0x8A, 0xD8));
    let ghost b2 = fb.bytes();
    let (sx, sy, s_w, s_h) = start_rect(sh);
    let start_col = if wm.start_pressed { (0x15u8, 0x6Au8, 0x2Cu8) } else if wm.start_hover { (0x58u8, 0xCCu8, 0x6Au8) } else { (0x3Eu8, 0xAAu8, 0x52u8) };
    fb.fill_rounded_rect(sx as usize, sy as usize, s_w, s_h, start_col, 8);
    let ghost b3 = fb.bytes();
    if !wm.start_pressed {
        fb.fill_rounded_rect(sx as usize + 2, sy as usize + 2, s_w - 4, s_h / 2 - 2, lighten(start_col, 30), 6);
    }
    let ghost b4 = fb.bytes();
    proof {
        let s = start_rect_spec(sh as int);
        assert(b1 == grad_rows_op(g, b0, ty as int, sh as int, (0x1C, 0x54, 0xB2), (0x0F, 0x36, 0x82)));
        assert(b2 == rect_op(g, b1, 0, ty as int, sw as int, 1, (0x4A, 0x8A, 0xD8)));
        assert(b3 == shape_op(g, b2, 0, s.0, s.1, s.2, s.3, start_colour(v), 8));
        assert(b4 == (if !v.start_pressed {
            shape_op(g, b3, 0, s.0 + 2, s.1 + 2, s.2 - 4, s.3 / 2 - 2, lighten_spec(start_colour(v), 30), 6)
        } else {
            b3
        }));
    }
    let foc = wm.focused_idx();
    let n = wm.windows.len();
    let mut k: usize = 0;
    while k < n
        invariant
            k <= n,
            n == v.windows.len(),
            v == wm@,
            v.wf(),
            foc == focused(v.windows),
            TASKBAR_H <= sh <= COORD_MAX,
            fb.wf(),
            fb.geometry() == g,
            fb.text() == old(fb).text(),
            fb.bytes() == task_buttons(g, b4, v, sh as int, k as nat),
        decreases n - k,
    {
        let ghost before = fb.bytes();
        let (bx, by, bw, bh) = task_btn_rect(sh, k);
        let is_focused = foc == Some(k);
        let is_hover = wm.task_hover == Some(k);
        let is_press = wm.task_pressed == Some(k);
        let (fill, edge) = if is_press {
            ((0x10u8, 0x3Eu8, 0x82u8), (0x70u8, 0xA8u8, 0xE0u8))
        } else if is_focused {
            ((0x3Au8, 0x8Eu8, 0xE6u8), (0x9Cu8, 0xCCu8, 0xFFu8))
        } else if is_hover {
            ((0x24u8, 0x6Au8, 0xC8u8), (0x4Au8, 0x98u8, 0xE6u8))
        } else {
            ((0x14u8, 0x4Au8, 0x96u8), (0x2Au8, 0x68u8, 0xB8u8))
        };
        fb.fill_rounded_rect(bx as usize, by as usize, bw, bh, fill, 4);
        fb.stroke_rounded_rect(bx as usize, by as usize, bw, bh, edge, 4);
        if is_focused && !is_press {
            fb.fill_rect(bx as usize + 2, by as usize + 2, bw - 4, 1, (0xCC, 0xE6, 0xFF));
        }
        assert(v.windows[k as int] == wm.windows@[k as int]@);
        if wm.windows[k].minimized {
            let hh = if bh - 8 > 1 { bh - 8 } else { 1 };
            fb.fill_rect(bx as usize + 4, by as usize + 4, 2, hh, (0xA8, 0xC0, 0xE0));
        }
        proof {
            assert(fb.bytes() == task_button_spec(g, before, v, sh as int, k as int));
        }
        k = k + 1;
    }
}

/// Colour of a menu row's highlight: pressed or hovered.
pub open spec fn row_highlight(pressed: bool) -> Color {
    if pressed { (0x22, 0x6A, 0xC4) } else { (0x4A, 0x98, 0xE6) }
}

/// Icon swatch colour of Start menu row `i`.
pub open spec fn icon_colour(i: int) -> Color {
    if i == 0 { (0x4A, 0x90, 0xE0) } else if i == 1 { (0xD8, 0x4A, 0x3A) } else if i == 2 { (0x4A, 0xB8, 0x5A) } else { (0x80, 0x80, 0x80) }
}

/// Start menu row `i`: highlight when hovered or pressed, icon swatch with
/// a light strip.
pub open spec fn menu_row_spec(g: Geometry, b: Seq<u8>, v: WmView, sh: int, i: int) -> Seq<u8> {
    let m = menu_rect_spec(sh);
    let rows_x = m.0 + 4;
    let row_y = m.1 + MENU_HDR_H + MENU_PAD_TOP + i * MENU_ROW_H;
    let hov = v.menu_hover == Some(i as usize);
    let prs = v.menu_pressed == Some(i as usize);
    let b1 = if hov || prs { shape_op(g, b, 0, rows_x, row_y, m.2 - 8, MENU_ROW_H - 2, row_highlight(prs), 4) } else { b };
    let icon_x = rows_x + 4;
    let icon_y = row_y + 5;
    let b2 = shape_op(g, b1, 0, icon_x, icon_y, 22, 22, icon_colour(i), 4);
    rect_op(g, b2, icon_x + 2, icon_y + 2, 18, 2, lighten_spec(icon_colour(i), 50))
}

pub open spec fn menu_rows(g: Geometry, b: Seq<u8>, v: WmView, sh: int, k: nat) -> Seq<u8>
    decreases k,
{
    if k == 0 { b } else { menu_row_spec(g, menu_rows(g, b, v, sh, (k - 1) as nat), v, sh, k - 1) }
}

/// The open Start menu: shadow, glass body, dark header with a two-line
/// separator, the rows and the border; nothing when the menu is closed.
pub open spec fn start_menu_spec(g: Geometry, b: Seq<u8>, v: WmView, sh: int) -> Seq<u8> {
    if !v.menu_open {
        b
    } else {
        let m = menu_rect_spec(sh);
        let r = MENU_RADIUS as int;
        let b1 = shape_op(g, b, 0, m.0 + 3, m.1 + 3, m.2, m.3, (0x0F, 0x21, 0x3D), r);
        let b2 = grad_in_op(g, b1, m.0, m.1, m.2, m.3, (0xF2, 0xF6, 0xFC), (0xCE, 0xDB, 0xEC), m.0, m.1, m.2, m.3, r);
        let b3 = grad_in_op(g, b2, m.0, m.1, m.2, MENU_HDR_H as int, (0x1C, 0x4A, 0x9E), (0x0E, 0x2A, 0x68), m.0, m.1, m.2, m.3, r);
        let b4 = rect_op(g, b3, m.0 + 1, m.1 + MENU_HDR_H, m.2 - 2, 1, (0x0A, 0x20, 0x4A));
        let b5 = rect_op(g, b4, m.0 + 1, m.1 + MENU_HDR_H + 1, m.2 - 2, 1, (0xE8, 0xEE, 0xF6));
        let b6 = menu_rows(g, b5, v, sh, MENU_ITEM_COUNT as nat);
        shape_op(g, b6, 2, m.0, m.1, m.2, m.3, (0x3A, 0x5F, 0x8E), r)
    }
}

/// Paint the Start menu's shapes. The caller then draws the brand and the
/// row labels.
pub fn paint_start_menu(fb: &mut FbWriter, wm: &WM, sh: usize)
    requires
        old(fb).wf(),
        sh <= COORD_MAX,
    ensures
        final(fb).wf(),
        final(fb).geometry() == old(fb).geometry(),
        final(fb).text() == old(fb).text(),
        final(fb).bytes() == start_menu_spec(old(fb).geometry(), old(fb).bytes(), wm@, sh as int),
{
    if !wm.menu_open {
        return;
    }
    let ghost g = fb.geometry();
    let ghost b0 = fb.bytes();
    let ghost v = wm@;
    let (mx0, my0, mw, mh) = menu_rect(sh);
    let mx = mx0 as usize;
    let my = my0 as usize;
    fb.fill_rounded_rect(mx + 3, my + 3, mw, mh, (0x0F, 0x21, 0x3D), MENU_RADIUS);
    let ghost b1 = fb.bytes();
    fb.fill_v_gradient_in_rounded_rect(mx, my, mw, mh, (0xF2, 0xF6, 0xFC), (0xCE, 0xDB, 0xEC), mx, my, mw, mh, MENU_RADIUS);
    let ghost b2 = fb.bytes();
    fb.fill_v_gradient_in_rounded_rect(mx, my, mw, MENU_HDR_H, (0x1C, 0x4A, 0x9E), (0x0E, 0x2A, 0x68), mx, my, mw, mh, MENU_RADIUS);
    let ghost b3 = fb.bytes();
    fb.fill_rect(mx + 1, my + MENU_HDR_H, mw - 2, 1, (0x0A, 0x20, 0x4A));
    let ghost b4 = fb.bytes();
    fb.fill_rect(mx + 1, my + MENU_HDR_H + 1, mw - 2, 1, (0xE8, 0xEE, 0xF6));
    let ghost b5 = fb.bytes();
    proof {
        let m = menu_rect_spec(sh as int);
        let r = MENU_RADIUS as int;
        assert(b1 == shape_op(g, b0, 0, m.0 + 3, m.1 + 3, m.2, m.3, (0x0F, 0x21, 0x3D), r));
        assert(b2 == grad_in_op(g, b1, m.0, m.1, m.2, m.3, (0xF2, 0xF6, 0xFC), (0xCE, 0xDB, 0xEC), m.0, m.1, m.2, m.3, r));
        assert(b3 == grad_in_op(g, b2, m.0, m.1, m.2, MENU_HDR_H as int, (0x1C, 0x4A, 0x9E), (0x0E, 0x2A, 0x68), m.0, m.1, m.2, m.3, r));
        assert(b4 == rect_op(g, b3, m.0 + 1, m.1 + MENU_HDR_H, m.2 - 2, 1, (0x0A, 0x20, 0x4A)));
        assert(b5 == rect_op(g, b4, m.0 + 1, m.1 + MENU_HDR_H + 1, m.2 - 2, 1, (0xE8, 0xEE, 0xF6)));
    }
    let rows_x = mx + 4;
    let rows_w = mw - 8;
    let rows_y0 = my + MENU_HDR_H + MENU_PAD_TOP;
    let mut i: usize = 0;
    while i < MENU_ITEM_COUNT
        invariant
            i <= MENU_ITEM_COUNT,
            v == wm@,
            sh <= COORD_MAX,
            mx as int == menu_rect_spec(sh as int).0,
            my as int == menu_rect_spec(sh as int).1,
            mw as int == menu_rect_spec(sh as int).2,
            rows_x == mx + 4,
            rows_w == mw - 8,
            rows_y0 == my + MENU_HDR_H + MENU_PAD_TOP,
            fb.wf(),
            fb.geometry() == g,
            fb.text() == old(fb).text(),
            fb.bytes() == menu_rows(g, b5, v, sh as int, i as nat),
        decreases MENU_ITEM_COUNT - i,
    {
        let ghost before = fb.bytes();
        let row_y = rows_y0 + i * MENU_ROW_H;
        let row_h = MENU_ROW_H - 2;
        let is_hov = wm.menu_hover == Some(i);
        let is_prs = wm.menu_pressed == Some(i);
        if is_hov || is_prs {
            let bg = if is_prs { (0x22u8, 0x6Au8, 0xC4u8) } else { (0x4Au8, 0x98u8, 0xE6u8) };
            fb.fill_rounded_rect(rows_x, row_y, rows_w, row_h, bg, 4);
        }
        let icon_col = if i == 0 { (0x4Au8, 0x90u8, 0xE0u8) } else if i == 1 { (0xD8u8, 0x4Au8, 0x3Au8) } else if i == 2 { (0x4Au8, 0xB8u8, 0x5Au8) } else { (0x80u8, 0x80u8, 0x80u8) };
        let icon_x = rows_x + 4;
        let icon_y = row_y + (row_h - 22) / 2;
        fb.fill_rounded_rect(icon_x, icon_y, 22, 22, icon_col, 4);
        fb.fill_rect(icon_x + 2, icon_y + 2, 18, 2, lighten(icon_col, 50));
        proof {
            assert(fb.bytes() == menu_row_spec(g, before, v, sh as int, i as int));
        }
        i = i + 1;
    }
    fb.stroke_rounded_rect(mx, my, mw, mh, (0x3A, 0x5F, 0x8E), MENU_RADIUS);
}

/// Context menu row `i`: highlight when hovered or pressed.
pub open spec fn ctx_row_spec(g: Geometry, b: Seq<u8>, v: WmView, sw: int, sh: int, i: int) -> Seq<u8> {
    let m = ctx_rect_spec(sw, sh, v.ctx_x, v.ctx_y);
    let hov = v.ctx_hover == Some(i as usize);
    let prs = v.ctx_pressed == Some(i as usize);
    if hov || prs {
        shape_op(g, b, 0, m.0 + 3, m.1 + CTX_PAD_TOP + i * CTX_ROW_H, m.2 - 6, CTX_ROW_H - 2, row_highlight(prs), 3)
    } else {
        b
    }
}

pub open spec fn ctx_rows(g: Geometry, b: Seq<u8>, v: WmView, sw: int, sh: int, k: nat) -> Seq<u8>
    decreases k,
{
    if k == 0 { b } else { ctx_row_spec(g, ctx_rows(g, b, v, sw, sh, (k - 1) as nat), v, sw, sh, k - 1) }
}

/// The open context menu: shadow, glass body, row highlights and border;
/// nothing when the menu is closed.
pub open spec fn ctx_menu_spec(g: Geometry, b: Seq<u8>, v: WmView, sw: int, sh: int) -> Seq<u8> {
    if !v.ctx_open {
        b
    } else {
        let m = ctx_rect_spec(sw, sh, v.ctx_x, v.ctx_y);
        let r = CTX_RADIUS as int;
        let b1 = shape_op(g, b, 0, m.0 + 2, m.1 + 2, m.2, m.3, (0x0F, 0x21, 0x3D), r);
        let b2 = grad_in_op(g, b1, m.0, m.1, m.2, m.3, (0xF2, 0xF6, 0xFC), (0xCE, 0xDB, 0xEC), m.0, m.1, m.2, m.3, r);
        let b3 = ctx_rows(g, b2, v, sw, sh, CTX_ITEM_COUNT as nat);
        shape_op(g, b3, 2, m.0, m.1, m.2, m.3, (0x3A, 0x5F, 0x8E), r)
    }
}

/// Paint the context menu's shapes. The caller then draws the row labels.
pub fn paint_ctx_menu(fb: &mut FbWriter, wm: &WM, sw: usize, sh: usize)
    requires
        old(fb).wf(),
        wm@.wf(),
        sw <= COORD_MAX,
        sh <= COORD_MAX,
    ensures
        final(fb).wf(),
        final(fb).geometry() == old(fb).geometry(),
        final(fb).text() == old(fb).text(),
        final(fb).bytes() == ctx_menu_spec(old(fb).geometry(), old(fb).bytes(), wm@, sw as int, sh as int),
{
    if !wm.ctx_open {
        return;
    }
    let ghost g = fb.geometry();
    let ghost b0 = fb.bytes();
    let ghost v = wm@;
    let (mx0, my0, mw, mh) = ctx_rect(sw, sh, wm.ctx_x, wm.ctx_y);
    let mx = mx0 as usize;
    let my = my0 as usize;
    fb.fill_rounded_rect(mx + 2, my + 2, mw, mh, (0x0F, 0x21, 0x3D), CTX_RADIUS);
    let ghost b1 = fb.bytes();
    fb.fill_v_gradient_in_rounded_rect(mx, my, mw, mh, (0xF2, 0xF6, 0xFC), (0xCE, 0xDB, 0xEC), mx, my, mw, mh, CTX_RADIUS);
    let ghost b2 = fb.bytes();
    proof {
        let m = ctx_rect_spec(sw as int, sh as int, v.ctx_x, v.ctx_y);
        let r = CTX_RADIUS as int;
        assert(b1 == shape_op(g, b0, 0, m.0 + 2, m.1 + 2, m.2, m.3, (0x0F, 0x21, 0x3D), r));
        assert(b2 == grad_in_op(g, b1, m.0, m.1, m.2, m.3, (0xF2, 0xF6, 0xFC), (0xCE, 0xDB, 0xEC), m.0, m.1, m.2, m.3, r));
    }
    let rows_x = mx + 3;
    let rows_w = mw - 6;
    let rows_y0 = my + CTX_PAD_TOP;
    let mut i: usize = 0;
    while i < CTX_ITEM_COUNT
        invariant
            i <= CTX_ITEM_COUNT,
            v == wm@,
            mx as int == ctx_rect_spec(sw as int, sh as int, v.ctx_x, v.ctx_y).0,
            my as int == ctx_rect_spec(sw as int, sh as int, v.ctx_x, v.ctx_y).1,
            mw as int == ctx_rect_spec(sw as int, sh as int, v.ctx_x, v.ctx_y).2,
            0 <= mx <= COORD_MAX,
            0 <= my <= COORD_MAX,
            rows_x == mx + 3,
            rows_w == mw - 6,
            rows_y0 == my + CTX_PAD_TOP,
            fb.wf(),
            fb.geometry() == g,
            fb.text() == old(fb).text(),
            fb.bytes() == ctx_rows(g, b2, v, sw as int, sh as int, i as nat),
        decreases CTX_ITEM_COUNT - i,
    {
        let ghost before = fb.bytes();
        let row_y = rows_y0 + i * CTX_ROW_H;
        let is_hov = wm.ctx_hover == Some(i);
        let is_prs = wm.ctx_pressed == Some(i);
        if is_hov || is_prs {
            let bg = if is_prs { (0x22u8, 0x6Au8, 0xC4u8) } else { (0x4Au8, 0x98u8, 0xE6u8) };
            fb.fill_rounded_rect(rows_x, row_y, rows_w, CTX_ROW_H - 2, bg, 3);
        }
        proof {
            assert(fb.bytes() == ctx_row_spec(g, before, v, sw as int, sh as int, i as int));
        }
        i = i + 1;
    }
    fb.stroke_rounded_rect(mx, my, mw, mh, (0x3A, 0x5F, 0x8E), CTX_RADIUS);
}

} // verus!
