//! The software mouse cursor: an arrow drawn over the screen, with the
//! pixels under it saved so they can be put back when it moves.

use vstd::prelude::*;
use crate::framebuffer::{FbWriter, Geometry, paint, capture, restored, bitmap_at};

verus! {

/// Arrow width in pixels.
pub const CW: usize = 12;
/// Arrow height in pixels.
pub const CH: usize = 19;

/// The arrow: `*` (42) is the white fill, `.` (46) the black outline,
/// blanks (32) are transparent.
pub open spec fn arrow() -> Seq<Seq<u8>> {
    seq![
        seq![42u8, 32u8, 32u8, 32u8, 32u8, 32u8, 32u8, 32u8, 32u8, 32u8, 32u8, 32u8],
        seq![42u8, 42u8, 32u8, 32u8, 32u8, 32u8, 32u8, 32u8, 32u8, 32u8, 32u8, 32u8],
        seq![42u8, 46u8, 42u8, 32u8, 32u8, 32u8, 32u8, 32u8, 32u8, 32u8, 32u8, 32u8],
        seq![42u8, 46u8, 46u8, 42u8, 32u8, 32u8, 32u8, 32u8, 32u8, 32u8, 32u8, 32u8],
        seq![42u8, 46u8, 46u8, 46u8, 42u8, 32u8, 32u8, 32u8, 32u8, 32u8, 32u8, 32u8],
        seq![42u8, 46u8, 46u8, 46u8, 46u8, 42u8, 32u8, 32u8, 32u8, 32u8, 32u8, 32u8],
        seq![42u8, 46u8, 46u8, 46u8, 46u8, 46u8, 42u8, 32u8, 32u8, 32u8, 32u8, 32u8],
        seq![42u8, 46u8, 46u8, 46u8, 46u8, 46u8, 46u8, 42u8, 32u8, 32u8, 32u8, 32u8],
        seq![42u8, 46u8, 46u8, 46u8, 46u8, 46u8, 46u8, 46u8, 42u8, 32u8, 32u8, 32u8],
        seq![42u8, 46u8, 46u8, 46u8, 46u8, 46u8, 46u8, 46u8, 46u8, 42u8, 32u8, 32u8],
        seq![42u8, 46u8, 46u8, 46u8, 46u8, 46u8, 46u8, 46u8, 46u8, 46u8, 42u8, 32u8],
        seq![42u8, 46u8, 46u8, 46u8, 46u8, 46u8, 46u8, 42u8, 42u8, 42u8, 42u8, 42u8],
        seq![42u8, 46u8, 46u8, 46u8, 42u8, 46u8, 46u8, 42u8, 32u8, 32u8, 32u8, 32u8],
        seq![42u8, 46u8, 46u8, 42u8, 42u8, 46u8, 46u8, 42u8, 32u8, 32u8, 32u8, 32u8],
        seq![42u8, 46u8, 42u8, 32u8, 32u8, 42u8, 46u8, 46u8, 42u8, 32u8, 32u8, 32u8],
        seq![42u8, 42u8, 32u8, 32u8, 32u8, 42u8, 46u8, 46u8, 42u8, 32u8, 32u8, 32u8],
        seq![42u8, 32u8, 32u8, 32u8, 32u8, 32u8, 42u8, 46u8, 46u8, 42u8, 32u8, 32u8],
        seq![32u8, 32u8, 32u8, 32u8, 32u8, 32u8, 42u8, 46u8, 46u8, 42u8, 32u8, 32u8],
        seq![32u8, 32u8, 32u8, 32u8, 32u8, 32u8, 32u8, 42u8, 42u8, 32u8, 32u8, 32u8]
    ]
}

fn arrow_bitmap() -> (bm: Vec<Vec<u8>>)
    ensures
        bm@.map_values(|v: Vec<u8>| v@) == arrow(),
        bm@.len() == CH,
        forall|r: int| 0 <= r < bm@.len() ==> #[trigger] bm@[r]@.len() == CW,
{
    let mut bm: Vec<Vec<u8>> = Vec::new();
    bm.push(vec![42u8, 32u8, 32u8, 32u8, 32u8, 32u8, 32u8, 32u8, 32u8, 32u8, 32u8, 32u8]);
    bm.push(vec![42u8, 42u8, 32u8, 32u8, 32u8, 32u8, 32u8, 32u8, 32u8, 32u8, 32u8, 32u8]);
    bm.push(vec![42u8, 46u8, 42u8, 32u8, 32u8, 32u8, 32u8, 32u8, 32u8, 32u8, 32u8, 32u8]);
    bm.push(vec![42u8, 46u8, 46u8, 42u8, 32u8, 32u8, 32u8, 32u8, 32u8, 32u8, 32u8, 32u8]);
    bm.push(vec![42u8, 46u8, 46u8, 46u8, 42u8, 32u8, 32u8, 32u8, 32u8, 32u8, 32u8, 32u8]);
    bm.push(vec![42u8, 46u8, 46u8, 46u8, 46u8, 42u8, 32u8, 32u8, 32u8, 32u8, 32u8, 32u8]);
    bm.push(vec![42u8, 46u8, 46u8, 46u8, 46u8, 46u8, 42u8, 32u8, 32u8, 32u8, 32u8, 32u8]);
    bm.push(vec![42u8, 46u8, 46u8, 46u8, 46u8, 46u8, 46u8, 42u8, 32u8, 32u8, 32u8, 32u8]);
    bm.push(vec![42u8, 46u8, 46u8, 46u8, 46u8, 46u8, 46u8, 46u8, 42u8, 32u8, 32u8, 32u8]);
    bm.push(vec![42u8, 46u8, 46u8, 46u8, 46u8, 46u8, 46u8, 46u8, 46u8, 42u8, 32u8, 32u8]);
    bm.push(vec![42u8, 46u8, 46u8, 46u8, 46u8, 46u8, 46u8, 46u8, 46u8, 46u8, 42u8, 32u8]);
    bm.push(vec![42u8, 46u8, 46u8, 46u8, 46u8, 46u8, 46u8, 42u8, 42u8, 42u8, 42u8, 42u8]);
    bm.push(vec![42u8, 46u8, 46u8, 46u8, 42u8, 46u8, 46u8, 42u8, 32u8, 32u8, 32u8, 32u8]);
    bm.push(vec![42u8, 46u8, 46u8, 42u8, 42u8, 46u8, 46u8, 42u8, 32u8, 32u8, 32u8, 32u8]);
    bm.push(vec![42u8, 46u8, 42u8, 32u8, 32u8, 42u8, 46u8, 46u8, 42u8, 32u8, 32u8, 32u8]);
    bm.push(vec![42u8, 42u8, 32u8, 32u8, 32u8, 42u8, 46u8, 46u8, 42u8, 32u8, 32u8, 32u8]);
    bm.push(vec![42u8, 32u8, 32u8, 32u8, 32u8, 32u8, 42u8, 46u8, 46u8, 42u8, 32u8, 32u8]);
    bm.push(vec![32u8, 32u8, 32u8, 32u8, 32u8, 32u8, 42u8, 46u8, 46u8, 42u8, 32u8, 32u8]);
    bm.push(vec![32u8, 32u8, 32u8, 32u8, 32u8, 32u8, 32u8, 42u8, 42u8, 32u8, 32u8, 32u8]);
    assert(bm@.map_values(|v: Vec<u8>| v@) =~= arrow());
    bm
}

/// The cursor's saved background and where it was saved.
pub struct Cursor {
    pixels: Vec<u8>,
    saved_at: Option<(i32, i32)>,
    bitmap: Vec<Vec<u8>>,
}

impl Cursor {
    /// Saved background bytes (empty until [`init`]).
    pub closed spec fn pixels(&self) -> Seq<u8> {
        self.pixels@
    }

    /// Where the arrow was last drawn, if it is on screen.
    pub closed spec fn saved_at(&self) -> Option<(i32, i32)> {
        self.saved_at
    }

    pub closed spec fn wf(&self) -> bool {
        &&& self.bitmap@.map_values(|v: Vec<u8>| v@) == arrow()
        &&& self.bitmap@.len() == CH
        &&& forall|r: int| 0 <= r < self.bitmap@.len() ==> #[trigger] self.bitmap@[r]@.len() == CW
        &&& (self.pixels@.len() == 0 || self.pixels@.len() == CW * CH * 3)
    }

    /// A cursor with no saved background, not yet drawn.
    pub fn new() -> (c: Cursor)
        ensures
            c.wf(),
            c.pixels().len() == 0,
            c.saved_at() is None,
    {
        Cursor { pixels: Vec::new(), saved_at: None, bitmap: arrow_bitmap() }
    }
}

/// Make room for the saved background (the cursor draws only after this).
pub fn init(c: &mut Cursor)
    requires
        old(c).wf(),
    ensures
        final(c).wf(),
        final(c).pixels() == Seq::new((CW * CH * 3) as nat, |i: int| 0u8),
        final(c).saved_at() == old(c).saved_at(),
{
    let mut v: Vec<u8> = Vec::new();
    let mut k: usize = 0;
    while k < CW * CH * 3
        invariant
            k <= CW * CH * 3,
            v@ == Seq::new(k as nat, |i: int| 0u8),
        decreases CW * CH * 3 - k,
    {
        v.push(0u8);
        k = k + 1;
        assert(v@ =~= Seq::new(k as nat, |i: int| 0u8));
    }
    c.pixels = v;
}

/// The screen was repainted underneath: the saved background is stale and
/// must not be put back.
pub fn invalidate(c: &mut Cursor)
    requires
        old(c).wf(),
    ensures
        final(c).wf(),
        final(c).pixels() == old(c).pixels(),
        final(c).saved_at() is None,
{
    c.saved_at = None;
}

/// Move the arrow to the mouse position `pos`: put back the background
/// saved at the old position, save the one at `pos` and draw the arrow
/// there. Nothing happens before [`init`] or when the mouse did not move.
pub fn tick(c: &mut Cursor, fb: &mut FbWriter, pos: (i32, i32))
    requires
        old(c).wf(),
        old(fb).wf(),
    ensures
        final(c).wf(),
        final(fb).wf(),
        final(fb).geometry() == old(fb).geometry(),
        final(fb).text() == old(fb).text(),
        old(c).pixels().len() == 0 || old(c).saved_at() == Some(pos) ==> *final(c) == *old(c) && final(fb).bytes() == old(fb).bytes(),
        old(c).pixels().len() != 0 && old(c).saved_at() != Some(pos) ==> ({
            let g = old(fb).geometry();
            let nx: int = if pos.0 > 0 { pos.0 as int } else { 0 };
            let ny: int = if pos.1 > 0 { pos.1 as int } else { 0 };
            let fb1 = restored(g, old(fb).bytes(), old(c).pixels(), old(c).saved_at(), CW as int, CH as int);
            &&& final(c).saved_at() == Some(pos)
            &&& final(c).pixels() == capture(g, fb1, Seq::new(old(c).pixels().len(), |i: int| 0u8), CW as int, CH as int, nx, ny)
            &&& final(fb).bytes() == paint(g, fb1, bitmap_at(arrow(), nx, ny, (0xFFu8, 0xFFu8, 0xFFu8), (0u8, 0u8, 0u8)))
        }),
{
    if c.pixels.len() == 0 {
        return;
    }
    if c.saved_at == Some(pos) {
        return;
    }
    let old_pos = c.saved_at;
    fb.paint_cursor(&mut c.pixels, old_pos, pos, &c.bitmap, CW, CH, (0xFF, 0xFF, 0xFF), (0x00, 0x00, 0x00));
    c.saved_at = Some(pos);
}

} // verus!
