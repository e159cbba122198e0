//! The boot splash: the logo centred on a white matte. The caller shows it
//! for a moment and then clears the screen.

use vstd::prelude::*;
use crate::framebuffer::{FbWriter, fill_op, rgba_centered_op};

verus! {

/// Paint the splash: white everywhere, then the RGBA logo blended centred.
pub fn show(fb: &mut FbWriter, logo: &[u8], logo_w: usize, logo_h: usize)
    requires
        old(fb).wf(),
        logo_w * logo_h * 4 <= usize::MAX,
    ensures
        final(fb).wf(),
        final(fb).geometry() == old(fb).geometry(),
        final(fb).text() == ({
            let t = old(fb).text();
            (t.0, t.1, 0usize, 0usize, t.4, t.5, t.6)
        }),
        final(fb).bytes() == rgba_centered_op(old(fb).geometry(),
            fill_op(old(fb).geometry(), old(fb).bytes(), (0xFFu8, 0xFFu8, 0xFFu8)), logo@, logo_w as int, logo_h as int),
{
    fb.fill_color(0xFF, 0xFF, 0xFF);
    fb.blit_rgba_centered(logo, logo_w, logo_h);
}

} // verus!
