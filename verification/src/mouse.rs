//! PS/2 mouse packet decoding.
//!
//! The mouse sends 3-byte packets: a status byte (bit 3 always set, bits
//! 0..2 the left/right/middle buttons, bits 4 and 5 the signs of the X and Y
//! movement), then the X and Y movement. Positive Y means up; the screen's Y
//! grows downwards.

use vstd::prelude::*;

verus! {

#[derive(Clone, Copy, Debug, Default, PartialEq, Eq, Structural)]
pub struct MouseState {
    pub x: i32,
    pub y: i32,
    pub left: bool,
    pub right: bool,
    pub middle: bool,
}

#[derive(Debug, PartialEq, Eq, Structural, Clone, Copy)]
pub enum MouseError {
    Timeout,
    NoAck(u8),
}

/// Largest screen side the cursor clamps to.
pub const SCREEN_MAX: i32 = 0x10_0000;

/// Packet assembler and cursor state.
pub struct Mouse {
    state: MouseState,
    screen_w: i32,
    screen_h: i32,
    packet: [u8; 3],
    idx: u8,
}

/// Movement encoded by a packet byte and its sign bit.
pub open spec fn delta(raw: u8, negative: bool) -> int {
    if negative { raw as int - 256 } else { raw as int }
}

/// `v` clamped to [lo, hi].
pub open spec fn clamp(v: int, lo: int, hi: int) -> int {
    if v < lo { lo } else if v > hi { hi } else { v }
}

/// State after a complete packet (status, raw_x, raw_y).
pub open spec fn apply_packet(s: MouseState, sw: int, sh: int, status: u8, raw_x: u8, raw_y: u8) -> MouseState {
    MouseState {
        x: clamp(s.x + delta(raw_x, status & 0x10 != 0), 0, sw - 1) as i32,
        y: clamp(s.y - delta(raw_y, status & 0x20 != 0), 0, sh - 1) as i32,
        left: status & 0x01 != 0,
        right: status & 0x02 != 0,
        middle: status & 0x04 != 0,
    }
}

/// A complete packet sets the buttons from the low bits of its status byte
/// (bit 0 left, bit 1 right, bit 2 middle) and moves the cursor by the X
/// byte and against the Y byte, each negative when its sign bit (4 for X,
/// 5 for Y) is set, clamped to the screen.
pub proof fn lemma_packet_layout(s: MouseState, sw: int, sh: int, status: u8, raw_x: u8, raw_y: u8)
    requires
        1 <= sw <= SCREEN_MAX,
        1 <= sh <= SCREEN_MAX,
        0 <= s.x < sw,
        0 <= s.y < sh,
    ensures
        ({
            let r = apply_packet(s, sw, sh, status, raw_x, raw_y);
            let dx: int = if (status / 16) % 2 == 1 { raw_x - 256 } else { raw_x as int };
            let dy: int = if (status / 32) % 2 == 1 { raw_y - 256 } else { raw_y as int };
            &&& r.left == (status % 2 == 1)
            &&& r.right == ((status / 2) % 2 == 1)
            &&& r.middle == ((status / 4) % 2 == 1)
            &&& r.x == (if s.x + dx < 0 { 0 } else if s.x + dx >= sw { sw - 1 } else { s.x + dx })
            &&& r.y == (if s.y - dy < 0 { 0 } else if s.y - dy >= sh { sh - 1 } else { s.y - dy })
        }),
{
    assert((status & 0x01 != 0) == (status % 2 == 1)) by (bit_vector);
    assert((status & 0x02 != 0) == ((status / 2) % 2 == 1)) by (bit_vector);
    assert((status & 0x04 != 0) == ((status / 4) % 2 == 1)) by (bit_vector);
    assert((status & 0x10 != 0) == ((status / 16) % 2 == 1)) by (bit_vector);
    assert((status & 0x20 != 0) == ((status / 32) % 2 == 1)) by (bit_vector);
}

impl Mouse {
    pub closed spec fn state_spec(&self) -> MouseState {
        self.state
    }

    /// Bytes of the current packet received so far.
    pub closed spec fn pending(&self) -> Seq<u8> {
        self.packet@.subrange(0, self.idx as int)
    }

    pub closed spec fn screen(&self) -> (int, int) {
        (self.screen_w as int, self.screen_h as int)
    }

    pub closed spec fn wf(&self) -> bool {
        &&& self.idx < 3
        &&& 1 <= self.screen_w <= SCREEN_MAX
        &&& 1 <= self.screen_h <= SCREEN_MAX
        &&& 0 <= self.state.x < self.screen_w
        &&& 0 <= self.state.y < self.screen_h
    }

    /// Cursor at the centre of a `screen_w`×`screen_h` screen, no button down.
    pub fn init(screen_w: u32, screen_h: u32) -> (m: Mouse)
        requires
            1 <= screen_w <= SCREEN_MAX,
            1 <= screen_h <= SCREEN_MAX,
        ensures
            m.wf(),
            m.state_spec() == (MouseState { x: (screen_w / 2) as i32, y: (screen_h / 2) as i32, left: false, right: false, middle: false }),
            m.pending().len() == 0,
            m.screen() == (screen_w as int, screen_h as int),
    {
        Mouse {
            state: MouseState { x: (screen_w / 2) as i32, y: (screen_h / 2) as i32, left: false, right: false, middle: false },
            screen_w: screen_w as i32,
            screen_h: screen_h as i32,
            packet: [0u8; 3],
            idx: 0,
        }
    }

    /// Snapshot of the cursor position and buttons.
    pub fn state(&self) -> (s: MouseState)
        ensures
            s == self.state_spec(),
    {
        self.state
    }

    /// Feed one byte from the mouse. A first byte without bit 3 is dropped
    /// (resynchronisation); the third byte of a packet updates the state.
    pub fn handle_byte(&mut self, byte: u8)
        requires
            old(self).wf(),
        ensures
            final(self).wf(),
            final(self).screen() == old(self).screen(),
            old(self).pending().len() == 0 && byte & 0x08 == 0 ==> final(self).pending() == old(self).pending()
                && final(self).state_spec() == old(self).state_spec(),
            !(old(self).pending().len() == 0 && byte & 0x08 == 0) && old(self).pending().len() < 2 ==>
                final(self).pending() == old(self).pending().push(byte) && final(self).state_spec() == old(self).state_spec(),
            !(old(self).pending().len() == 0 && byte & 0x08 == 0) && old(self).pending().len() == 2 ==>
                final(self).pending().len() == 0 && final(self).state_spec() == apply_packet(old(self).state_spec(),
                    old(self).screen().0, old(self).screen().1, old(self).pending()[0], old(self).pending()[1], byte),
    {
        let idx = self.idx;
        if idx == 0 && (byte & 0b1000) == 0 {
            return;
        }
        self.packet[idx as usize] = byte;
        let new_idx = (idx + 1) % 3;
        self.idx = new_idx;
        if new_idx != 0 {
            assert(self.pending() =~= old(self).pending().push(byte));
            return;
        }
        let status = self.packet[0];
        let raw_x = self.packet[1];
        let raw_y = self.packet[2];
        let dx: i32 = if status & 0b0001_0000 != 0 { raw_x as i32 - 256 } else { raw_x as i32 };
        let dy: i32 = if status & 0b0010_0000 != 0 { raw_y as i32 - 256 } else { raw_y as i32 };
        let left = status & 0b0000_0001 != 0;
        let right = status & 0b0000_0010 != 0;
        let middle = status & 0b0000_0100 != 0;
        let sw = self.screen_w;
        let sh = self.screen_h;
        let nx = self.state.x + dx;
        let ny = self.state.y - dy;
        self.state.x = if nx < 0 { 0 } else if nx > sw - 1 { sw - 1 } else { nx };
        self.state.y = if ny < 0 { 0 } else if ny > sh - 1 { sh - 1 } else { ny };
        self.state.left = left;
        self.state.right = right;
        self.state.middle = middle;
        assert(self.pending() =~= Seq::<u8>::empty());
    }
}

} // verus!
