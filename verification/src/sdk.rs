//! Types shared by the kernel and every app: window handles, colours and
//! the events delivered to app windows.

use vstd::prelude::*;

verus! {

/// Version of the kernel-services table handed to apps.
pub const ABI_VERSION: u32 = 1;

/// Handle of an app window.
pub type WindowId = u32;

/// 8-bit-per-channel RGB colour.
#[derive(Copy, Clone, Debug, Default, PartialEq, Eq, Structural)]
pub struct Rgb {
    pub r: u8,
    pub g: u8,
    pub b: u8,
}

impl Rgb {
    pub fn new(r: u8, g: u8, b: u8) -> (c: Self)
        ensures
            c == (Rgb { r, g, b }),
    {
        Rgb { r, g, b }
    }
}

/// Mouse / keyboard event delivered to an app window. Mouse coordinates are
/// local to the window's content area.
#[derive(Copy, Clone, Debug, PartialEq, Eq, Structural)]
pub enum Event {
    /// No event (the name `None` is reserved here).
    NoEvent,
    /// The window's close button was clicked.
    CloseRequested,
    MouseDown { x: i32, y: i32 },
    MouseUp { x: i32, y: i32 },
    MouseMove { x: i32, y: i32 },
    /// Key pressed; `ch` is its printable ASCII character (0x20..=0x7E), or
    /// 0 for a key without one (Enter, Backspace, Escape, Tab, ...).
    KeyDown { ch: u8 },
}

} // verus!
