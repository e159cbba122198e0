//! Glossy push buttons: hit testing and the button body (the label text is
//! drawn on top by the caller).

use vstd::prelude::*;
use crate::framebuffer::{FbWriter, Color, Geometry, shape_op, grad_in_op};

verus! {

#[derive(Copy, Clone, Debug, PartialEq, Eq, Structural)]
pub enum ButtonState {
    Normal,
    Hover,
    Pressed,
}

#[derive(Copy, Clone, Debug)]
pub struct ButtonRect {
    pub x: usize,
    pub y: usize,
    pub w: usize,
    pub h: usize,
}

impl ButtonRect {
    /// (px, py) lies in the rectangle, its bounds taken as `i32`.
    pub open spec fn contains_spec(self, px: i32, py: i32) -> bool {
        px >= self.x as i32 && py >= self.y as i32 && px < (self.x + self.w) as i32 && py < (self.y + self.h) as i32
    }

    pub fn contains(&self, px: i32, py: i32) -> (b: bool)
        requires
            self.x + self.w <= usize::MAX,
            self.y + self.h <= usize::MAX,
        ensures
            b == self.contains_spec(px, py),
    {
        px >= self.x as i32 && py >= self.y as i32 && px < (self.x + self.w) as i32 && py < (self.y + self.h) as i32
    }
}

/// Corner radius of a button.
pub const BUTTON_RADIUS: usize = 6;

/// Gloss (top two) and body (bottom two) gradient colours for a state.
pub open spec fn palette(state: ButtonState) -> (Color, Color, Color, Color) {
    match state {
        ButtonState::Normal => ((0xCB, 0xE2, 0xF8), (0x9D, 0xC4, 0xEF), (0x66, 0xA8, 0xE5), (0x3D, 0x86, 0xCB)),
        ButtonState::Hover => ((0xE0, 0xEF, 0xFB), (0xB3, 0xD4, 0xF3), (0x82, 0xBC, 0xEC), (0x52, 0x9A, 0xD8)),
        ButtonState::Pressed => ((0x6B, 0xA0, 0xD0), (0x4F, 0x86, 0xBA), (0x2D, 0x68, 0xA5), (0x1E, 0x55, 0x8B)),
    }
}

fn palette_of(state: ButtonState) -> (p: (Color, Color, Color, Color))
    ensures
        p == palette(state),
{
    match state {
        ButtonState::Normal => ((0xCB, 0xE2, 0xF8), (0x9D, 0xC4, 0xEF), (0x66, 0xA8, 0xE5), (0x3D, 0x86, 0xCB)),
        ButtonState::Hover => ((0xE0, 0xEF, 0xFB), (0xB3, 0xD4, 0xF3), (0x82, 0xBC, 0xEC), (0x52, 0x9A, 0xD8)),
        ButtonState::Pressed => ((0x6B, 0xA0, 0xD0), (0x4F, 0x86, 0xBA), (0x2D, 0x68, 0xA5), (0x1E, 0x55, 0x8B)),
    }
}

/// Row where the gloss ends: 45% down the button.
pub open spec fn gloss_split(h: int) -> int {
    h * 45 / 100
}

/// The button body: a rounded base in the body colour, the body gradient
/// below the split, the gloss gradient above it, and a dark border.
pub open spec fn button_spec(g: Geometry, b: Seq<u8>, r: ButtonRect, state: ButtonState) -> Seq<u8> {
    let p = palette(state);
    let (x, y, w, h) = (r.x as int, r.y as int, r.w as int, r.h as int);
    let split = gloss_split(h);
    let rad = BUTTON_RADIUS as int;
    let b1 = shape_op(g, b, 0, x, y, w, h, p.2, rad);
    let b2 = grad_in_op(g, b1, x, y + split, w, h - split, p.2, p.3, x, y, w, h, rad);
    let b3 = grad_in_op(g, b2, x, y, w, split, p.0, p.1, x, y, w, h, rad);
    shape_op(g, b3, 2, x, y, w, h, (0x14, 0x4A, 0x82), rad)
}

/// Draw the button body for `state`.
pub fn draw(fb: &mut FbWriter, rect: &ButtonRect, state: ButtonState)
    requires
        old(fb).wf(),
        rect.x + rect.w <= 0x7fff_ffff,
        rect.y + rect.h <= 0x7fff_ffff,
        rect.h * 45 <= usize::MAX,
    ensures
        final(fb).wf(),
        final(fb).geometry() == old(fb).geometry(),
        final(fb).text() == old(fb).text(),
        final(fb).bytes() == button_spec(old(fb).geometry(), old(fb).bytes(), *rect, state),
{
    let (top_a, top_b, bot_a, bot_b) = palette_of(state);
    let split = rect.h * 45 / 100;
    let ghost g = fb.geometry();
    let ghost b0 = fb.bytes();
    proof {
        assert(split <= rect.h);
    }
    fb.fill_rounded_rect(rect.x, rect.y, rect.w, rect.h, bot_a, BUTTON_RADIUS);
    let ghost b1 = fb.bytes();
    assert(b1 == shape_op(g, b0, 0, rect.x as int, rect.y as int, rect.w as int, rect.h as int, bot_a, BUTTON_RADIUS as int));
    fb.fill_v_gradient_in_rounded_rect(rect.x, rect.y + split, rect.w, rect.h - split, bot_a, bot_b,
        rect.x, rect.y, rect.w, rect.h, BUTTON_RADIUS);
    let ghost b2 = fb.bytes();
    assert(b2 == grad_in_op(g, b1, rect.x as int, rect.y + split, rect.w as int, rect.h - split, bot_a, bot_b,
        rect.x as int, rect.y as int, rect.w as int, rect.h as int, BUTTON_RADIUS as int));
    fb.fill_v_gradient_in_rounded_rect(rect.x, rect.y, rect.w, split, top_a, top_b,
        rect.x, rect.y, rect.w, rect.h, BUTTON_RADIUS);
    let ghost b3 = fb.bytes();
    assert(b3 == grad_in_op(g, b2, rect.x as int, rect.y as int, rect.w as int, split as int, top_a, top_b,
        rect.x as int, rect.y as int, rect.w as int, rect.h as int, BUTTON_RADIUS as int));
    fb.stroke_rounded_rect(rect.x, rect.y, rect.w, rect.h, (0x14, 0x4A, 0x82), BUTTON_RADIUS);
}

} // verus!
