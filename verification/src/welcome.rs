//! The welcome screen shown once after boot: a blue scene with the logo, a
//! title and a "Continue" button that the user clicks (or presses Enter or
//! Space) to go on. The title and the button label are drawn by the caller;
//! the caller also runs the wait loop, feeding each mouse sample to
//! [`WelcomeState::step`].

use vstd::prelude::*;
use crate::framebuffer::{FbWriter, Geometry, rect_op, grad_rows_op, rgba_image_op};
use crate::button::{ButtonRect, ButtonState};
use crate::mouse::MouseState;

verus! {

pub const TOP_BAND_H: usize = 60;
pub const BOTTOM_BAND_H: usize = 37;
pub const GOLD_STRIP_H: usize = 3;
pub const BTN_W: usize = 220;
pub const BTN_H: usize = 56;

/// A screen the welcome scene fits: wide enough for the button, tall
/// enough for the bands and the button above them, and within the
/// painters' coordinate range.
pub open spec fn welcome_fits_spec(sw: int, sh: int) -> bool {
    &&& BTN_W <= sw <= 0x100_0000
    &&& BOTTOM_BAND_H + GOLD_STRIP_H + BTN_H + 40 <= sh <= 0x100_0000
    &&& TOP_BAND_H + BOTTOM_BAND_H + GOLD_STRIP_H <= sh
}

/// Whether a `sw`×`sh` screen fits the welcome scene (see
/// [`welcome_fits_spec`]).
pub fn welcome_fits(sw: usize, sh: usize) -> (b: bool)
    ensures
        b == welcome_fits_spec(sw as int, sh as int),
{
    BTN_W <= sw && sw <= 0x100_0000 && BOTTOM_BAND_H + GOLD_STRIP_H + BTN_H + 40 <= sh && sh <= 0x100_0000
        && TOP_BAND_H + BOTTOM_BAND_H + GOLD_STRIP_H <= sh
}

/// The "Continue" button: centred, 40 pixels above the gold strip.
pub fn compute_button_rect(sw: usize, sh: usize) -> (r: ButtonRect)
    requires
        sw >= BTN_W,
        sh >= BOTTOM_BAND_H + GOLD_STRIP_H + BTN_H + 40,
    ensures
        r.x == (sw - BTN_W) / 2,
        r.y == sh - BOTTOM_BAND_H - GOLD_STRIP_H - BTN_H - 40,
        r.w == BTN_W,
        r.h == BTN_H,
{
    let x = (sw - BTN_W) / 2;
    let y = sh - BOTTOM_BAND_H - GOLD_STRIP_H - BTN_H - 40;
    ButtonRect { x, y, w: BTN_W, h: BTN_H }
}

/// Where the logo goes: centred horizontally, its middle 30% down the sky.
pub open spec fn logo_pos(sw: int, sh: int, logo_w: int, logo_h: int) -> (int, int) {
    let y0 = TOP_BAND_H as int;
    let y1 = sh - BOTTOM_BAND_H - GOLD_STRIP_H;
    let lift = (y1 - y0) * 30 / 100 - logo_h / 2;
    ((if sw > logo_w { sw - logo_w } else { 0 }) / 2, y0 + if lift > 0 { lift } else { 0 })
}

pub fn logo_position(sw: usize, sh: usize, logo_w: usize, logo_h: usize) -> (p: (usize, usize))
    requires
        TOP_BAND_H + BOTTOM_BAND_H + GOLD_STRIP_H <= sh <= 0x100_0000,
    ensures
        (p.0 as int, p.1 as int) == logo_pos(sw as int, sh as int, logo_w as int, logo_h as int),
{
    let y0 = TOP_BAND_H;
    let y1 = sh - BOTTOM_BAND_H - GOLD_STRIP_H;
    let x = sw.saturating_sub(logo_w) / 2;
    let y = y0 + ((y1 - y0) * 30 / 100).saturating_sub(logo_h / 2);
    (x, y)
}

/// The scene: deep blue top band, sky gradient, gold strip, deep blue
/// bottom band, and the logo blended over the sky.
pub open spec fn scene_spec(g: Geometry, b: Seq<u8>, sw: int, sh: int, logo: Seq<u8>, logo_w: int, logo_h: int) -> Seq<u8> {
    let deep = (0x0Au8, 0x2Eu8, 0x73u8);
    let y1 = sh - BOTTOM_BAND_H - GOLD_STRIP_H;
    let b1 = rect_op(g, b, 0, 0, sw, TOP_BAND_H as int, deep);
    let b2 = grad_rows_op(g, b1, TOP_BAND_H as int, y1, (0x5B, 0xA0, 0xF0), (0x1E, 0x68, 0xD6));
    let b3 = rect_op(g, b2, 0, y1, sw, GOLD_STRIP_H as int, (0xF5, 0xA6, 0x23));
    let b4 = rect_op(g, b3, 0, y1 + GOLD_STRIP_H, sw, BOTTOM_BAND_H as int, deep);
    let p = logo_pos(sw, sh, logo_w, logo_h);
    rgba_image_op(g, b4, logo, logo_w, logo_h, p.0, p.1)
}

/// Paint the scene on a `sw`×`sh` screen; the caller then draws the title.
pub fn paint_scene(fb: &mut FbWriter, sw: usize, sh: usize, logo: &[u8], logo_w: usize, logo_h: usize)
    requires
        old(fb).wf(),
        sw <= 0x100_0000,
        TOP_BAND_H + BOTTOM_BAND_H + GOLD_STRIP_H <= sh <= 0x100_0000,
        logo_w * logo_h * 4 <= usize::MAX,
    ensures
        final(fb).wf(),
        final(fb).geometry() == old(fb).geometry(),
        final(fb).text() == old(fb).text(),
        final(fb).bytes() == scene_spec(old(fb).geometry(), old(fb).bytes(), sw as int, sh as int, logo@, logo_w as int, logo_h as int),
{
    let ghost g = fb.geometry();
    let ghost b0 = fb.bytes();
    let deep = (0x0Au8, 0x2Eu8, 0x73u8);
    fb.fill_rect(0, 0, sw, TOP_BAND_H, deep);
    let ghost b1 = fb.bytes();
    let grad_y0 = TOP_BAND_H;
    let grad_y1 = sh - BOTTOM_BAND_H - GOLD_STRIP_H;
    fb.fill_gradient_v(grad_y0, grad_y1, (0x5B, 0xA0, 0xF0), (0x1E, 0x68, 0xD6));
    let ghost b2 = fb.bytes();
    fb.fill_rect(0, grad_y1, sw, GOLD_STRIP_H, (0xF5, 0xA6, 0x23));
    let ghost b3 = fb.bytes();
    fb.fill_rect(0, grad_y1 + GOLD_STRIP_H, sw, BOTTOM_BAND_H, deep);
    let ghost b4 = fb.bytes();
    let (logo_x, logo_y) = logo_position(sw, sh, logo_w, logo_h);
    fb.blit_rgba_at(logo, logo_w, logo_h, logo_x, logo_y);
    proof {
        let y1 = sh - BOTTOM_BAND_H - GOLD_STRIP_H;
        assert(b1 == rect_op(g, b0, 0, 0, sw as int, TOP_BAND_H as int, deep));
        assert(b2 == grad_rows_op(g, b1, TOP_BAND_H as int, y1, (0x5B, 0xA0, 0xF0), (0x1E, 0x68, 0xD6)));
        assert(b3 == rect_op(g, b2, 0, y1, sw as int, GOLD_STRIP_H as int, (0xF5, 0xA6, 0x23)));
        assert(b4 == rect_op(g, b3, 0, y1 + GOLD_STRIP_H, sw as int, BOTTOM_BAND_H as int, deep));
    }
}

/// The wait loop's memory between mouse samples.
#[derive(Copy, Clone, Debug)]
pub struct WelcomeState {
    /// How the button is drawn now.
    pub state: ButtonState,
    /// The button was pressed with the pointer inside at the last sample.
    pub pressed_inside: bool,
}

/// What one mouse sample asks of the caller.
#[derive(Copy, Clone, Debug)]
pub struct WelcomeStep {
    /// Redraw the button in this state.
    pub redraw: Option<ButtonState>,
    /// The user clicked the button: leave the welcome screen.
    pub done: bool,
}

/// Button state for a mouse sample: pressed when the left button is down
/// inside, hovered when inside, normal otherwise.
pub open spec fn button_state_for(inside: bool, left: bool) -> ButtonState {
    if left && inside { ButtonState::Pressed } else if inside { ButtonState::Hover } else { ButtonState::Normal }
}

impl WelcomeState {
    /// The button starts normal and not pressed.
    pub fn new() -> (s: WelcomeState)
        ensures
            s.state == ButtonState::Normal,
            !s.pressed_inside,
    {
        WelcomeState { state: ButtonState::Normal, pressed_inside: false }
    }

    /// One mouse sample: redraw when the button's look changes; a release
    /// inside after a press inside is a click.
    pub fn step(&mut self, btn: &ButtonRect, m: MouseState) -> (r: WelcomeStep)
        requires
            btn.x + btn.w <= usize::MAX,
            btn.y + btn.h <= usize::MAX,
        ensures
            ({
                let inside = btn.contains_spec(m.x, m.y);
                let ns = button_state_for(inside, m.left);
                &&& r.redraw == (if ns != old(self).state { Some(ns) } else { None })
                &&& r.done == (old(self).pressed_inside && !m.left && inside)
                &&& final(self).state == ns
                &&& (!r.done ==> final(self).pressed_inside == (m.left && inside))
            }),
    {
        let inside = btn.contains(m.x, m.y);
        let new_state = if m.left && inside {
            ButtonState::Pressed
        } else if inside {
            ButtonState::Hover
        } else {
            ButtonState::Normal
        };
        let redraw = if new_state != self.state { Some(new_state) } else { None };
        self.state = new_state;
        let done = self.pressed_inside && !m.left && inside;
        if !done {
            self.pressed_inside = m.left && inside;
        }
        WelcomeStep { redraw, done }
    }
}

/// Keys that also leave the welcome screen: Enter (either line ending) and Space.
pub fn ends_on_key(b: u8) -> (r: bool)
    ensures
        r == (b == 10 || b == 13 || b == 32),
{
    b == 10 || b == 13 || b == 32
}

} // verus!
