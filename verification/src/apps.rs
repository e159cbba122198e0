//! The two bundled apps, as far as they decide and draw with rectangles:
//! the calculator's keypad (layout, hit testing, which key does what, the
//! button and background drawing) and the hello app's banner. They draw
//! through the window-content service ([`draw_rect`]); their text and the
//! calculator's floating-point arithmetic are done by the app itself.

use vstd::prelude::*;
use crate::app_wm::{AppWindows, AppWinView, draw_rect, content_paint, rect_cover};
use crate::sdk::{Rgb, WindowId};
use crate::strings::{decimal, digit, push_u64, string_push};

verus! {

// ---- calculator layout ----
pub const CALC_W: u32 = 240;
pub const CALC_H: u32 = 380;
pub const PAD: i32 = 8;
pub const DISPLAY_H: i32 = 60;
pub const GRID_TOP: i32 = 76;
pub const COLS: usize = 4;
pub const ROWS: usize = 5;
/// Keypad cell: (240 - 16) / 4 by (380 - 76 - 8) / 5.
pub const CELL_W: i32 = 56;
pub const CELL_H: i32 = 59;

/// Keypad cell (row, column) under window-local (x, y), if any.
pub open spec fn hit_spec(x: int, y: int) -> Option<(usize, usize)> {
    let lx = x - PAD;
    let ly = y - GRID_TOP;
    if y < GRID_TOP || lx < 0 || ly < 0 || lx / CELL_W as int >= COLS || ly / CELL_H as int >= ROWS {
        None
    } else {
        Some(((ly / CELL_H as int) as usize, (lx / CELL_W as int) as usize))
    }
}

pub fn hit_test(x: i32, y: i32) -> (r: Option<(usize, usize)>)
    ensures
        r == hit_spec(x as int, y as int),
{
    if y < GRID_TOP {
        return None;
    }
    let grid_w = CALC_W as i32 - 2 * PAD;
    let grid_h = CALC_H as i32 - GRID_TOP - PAD;
    let cell_w = grid_w / COLS as i32;
    let cell_h = grid_h / ROWS as i32;
    assert(cell_w == CELL_W && cell_h == CELL_H);
    if x < i32::MIN + PAD {
        return None;
    }
    let lx = x - PAD;
    let ly = y - GRID_TOP;
    if lx < 0 || ly < 0 {
        return None;
    }
    let c = (lx / cell_w) as usize;
    let r = (ly / cell_h) as usize;
    if r >= ROWS || c >= COLS {
        return None;
    }
    Some((r, c))
}

/// What a calculator key does.
#[derive(Copy, Clone, Debug, PartialEq, Eq, Structural)]
pub enum CalcKey {
    Digit(u8),
    /// One of `+ - * /` (its ASCII code).
    Op(u8),
    Dot,
    Equals,
    Clear,
}

/// The keypad: 7 8 9 / | 4 5 6 * | 1 2 3 - | 0 . C + | a full-width "=".
pub open spec fn label_spec(r: int, c: int) -> u8 {
    if r == 4 {
        61
    } else {
        let row = if r == 0 { seq![55u8, 56u8, 57u8, 47u8] } else if r == 1 { seq![52u8, 53u8, 54u8, 42u8] }
            else if r == 2 { seq![49u8, 50u8, 51u8, 45u8] } else { seq![48u8, 46u8, 67u8, 43u8] };
        row[c]
    }
}

/// Label character of keypad cell (r, c).
pub fn label(r: usize, c: usize) -> (l: u8)
    requires
        r < ROWS,
        c < COLS,
    ensures
        l == label_spec(r as int, c as int),
{
    let rows: [[u8; 4]; 5] = [
        [55, 56, 57, 47],
        [52, 53, 54, 42],
        [49, 50, 51, 45],
        [48, 46, 67, 43],
        [61, 61, 61, 61],
    ];
    rows[r][c]
}

/// The key a label stands for.
pub open spec fn key_of_label(l: u8) -> CalcKey {
    if l == 67 {
        CalcKey::Clear
    } else if l == 61 {
        CalcKey::Equals
    } else if l == 46 {
        CalcKey::Dot
    } else if l == 43 || l == 45 || l == 42 || l == 47 {
        CalcKey::Op(l)
    } else {
        CalcKey::Digit((l - 48) as u8)
    }
}

/// Every keypad cell does what its label shows: an operator label gives
/// that operator, a digit label that digit, "." the decimal point, "=" the
/// result and "C" clear; and every label is one of these.
pub proof fn lemma_keypad_cells_do_what_they_show(r: int, c: int)
    requires
        0 <= r < ROWS,
        0 <= c < COLS,
    ensures
        ({
            let l = label_spec(r, c);
            &&& (l == 43 || l == 45 || l == 42 || l == 47 || (48 <= l <= 57) || l == 46 || l == 61 || l == 67)
            &&& (l == 43 || l == 45 || l == 42 || l == 47) ==> key_of_label(l) == CalcKey::Op(l)
            &&& 48 <= l <= 57 ==> key_of_label(l) == CalcKey::Digit((l - 48) as u8)
            &&& l == 46 ==> key_of_label(l) == CalcKey::Dot
            &&& l == 61 ==> key_of_label(l) == CalcKey::Equals
            &&& l == 67 ==> key_of_label(l) == CalcKey::Clear
        }),
{
}

/// The key of keypad cell (r, c).
pub fn trigger(r: usize, c: usize) -> (k: CalcKey)
    requires
        r < ROWS,
        c < COLS,
    ensures
        k == key_of_label(label_spec(r as int, c as int)),
{
    let l = label(r, c);
    if l == 67 {
        CalcKey::Clear
    } else if l == 61 {
        CalcKey::Equals
    } else if l == 46 {
        CalcKey::Dot
    } else if l == 43 || l == 45 || l == 42 || l == 47 {
        CalcKey::Op(l)
    } else {
        CalcKey::Digit(l - 48)
    }
}

/// The key a typed character stands for: digits, operators, `.` or `,`,
/// `=` or a line ending, `c`/`C`/backspace/escape; others do nothing.
/// Key events from the window manager carry 0 for non-printable keys, so
/// the line-ending, backspace and escape arms are reached only by a caller
/// that hands raw bytes over directly.
pub fn key_for_char(ch: u8) -> (k: Option<CalcKey>)
    ensures
        48 <= ch <= 57 ==> k == Some(CalcKey::Digit((ch - 48) as u8)),
        (ch == 43 || ch == 45 || ch == 42 || ch == 47) ==> k == Some(CalcKey::Op(ch)),
        (ch == 46 || ch == 44) ==> k == Some(CalcKey::Dot),
        (ch == 61 || ch == 10 || ch == 13) ==> k == Some(CalcKey::Equals),
        (ch == 99 || ch == 67 || ch == 8 || ch == 27) ==> k == Some(CalcKey::Clear),
        !(48 <= ch <= 57 || ch == 43 || ch == 45 || ch == 42 || ch == 47 || ch == 46 || ch == 44 || ch == 61
            || ch == 10 || ch == 13 || ch == 99 || ch == 67 || ch == 8 || ch == 27) ==> k is None,
{
    if 48 <= ch && ch <= 57 {
        Some(CalcKey::Digit(ch - 48))
    } else if ch == 43 || ch == 45 || ch == 42 || ch == 47 {
        Some(CalcKey::Op(ch))
    } else if ch == 46 || ch == 44 {
        Some(CalcKey::Dot)
    } else if ch == 61 || ch == 10 || ch == 13 {
        Some(CalcKey::Equals)
    } else if ch == 99 || ch == 67 || ch == 8 || ch == 27 {
        Some(CalcKey::Clear)
    } else {
        None
    }
}

/// `c` with `amt` added to each channel, saturating.
pub fn lighten(c: Rgb, amt: u8) -> (r: Rgb)
    ensures
        r.r == (if c.r + amt > 255 { 255 } else { c.r + amt }),
        r.g == (if c.g + amt > 255 { 255 } else { c.g + amt }),
        r.b == (if c.b + amt > 255 { 255 } else { c.b + amt }),
{
    Rgb::new(c.r.saturating_add(amt), c.g.saturating_add(amt), c.b.saturating_add(amt))
}

/// `c` with `amt` taken from each channel, saturating at 0.
pub fn darken(c: Rgb, amt: u8) -> (r: Rgb)
    ensures
        r.r == (if c.r < amt { 0 } else { c.r - amt }),
        r.g == (if c.g < amt { 0 } else { c.g - amt }),
        r.b == (if c.b < amt { 0 } else { c.b - amt }),
{
    Rgb::new(c.r.saturating_sub(amt), c.g.saturating_sub(amt), c.b.saturating_sub(amt))
}

// ---- drawing through the window-content service ----

/// Windows after `draw_rect(id, x, y, w, h, c)`.
pub open spec fn rect_on(m: Map<WindowId, AppWinView>, id: WindowId, x: int, y: int, w: int, h: int, c: (u8, u8, u8))
    -> Map<WindowId, AppWinView> {
    if m.contains_key(id) {
        let s = m[id];
        m.insert(id, AppWinView {
            content: content_paint(s.content, s.content_w, |px: int, py: int|
                if rect_cover(x, y, w, h, s.content_w, s.content_h)(px, py) { Some(c) } else { None }),
            ..s
        })
    } else {
        m
    }
}

/// Channel of row `t` of an `h`-row gradient from `top` to `bot`.
pub open spec fn grad_channel(top: u8, bot: u8, t: int, h: int) -> u8 {
    ((top * (h - t) + bot * t) / h) as u8
}

pub open spec fn grad_row_colour(top: Rgb, bot: Rgb, t: int, h: int) -> (u8, u8, u8) {
    (grad_channel(top.r, bot.r, t, h), grad_channel(top.g, bot.g, t, h), grad_channel(top.b, bot.b, t, h))
}

/// The first `k` one-pixel rows of a vertical gradient.
pub open spec fn grad_rows(m: Map<WindowId, AppWinView>, id: WindowId, x: int, y: int, w: int, h: int, top: Rgb, bot: Rgb, k: nat)
    -> Map<WindowId, AppWinView>
    decreases k,
{
    if k == 0 {
        m
    } else {
        rect_on(grad_rows(m, id, x, y, w, h, top, bot, (k - 1) as nat), id, x, y + k - 1, w, 1, grad_row_colour(top, bot, k - 1, h))
    }
}

/// One channel of a gradient row.
fn grad_chan(top: u8, bot: u8, t: u32, h: u32) -> (v: u8)
    requires
        t < h,
        h <= 0x100_0000,
    ensures
        v == grad_channel(top, bot, t as int, h as int),
{
    proof {
        assert(top * (h - t) + bot * t <= 255 * h) by (nonlinear_arith)
            requires top <= 255, bot <= 255, t < h;
        assert(255 * h <= 255 * 0x100_0000) by (nonlinear_arith)
            requires h <= 0x100_0000;
        assert((top * (h - t) + bot * t) / (h as int) <= 255) by (nonlinear_arith)
            requires top * (h - t) + bot * t <= 255 * h, h > 0;
        assert(top * (h - t) >= 0 && bot * t >= 0) by (nonlinear_arith)
            requires t < h;
    }
    let inv = h - t;
    ((top as u32 * inv + bot as u32 * t) / h) as u8
}

/// Vertical gradient from `top` to `bot` over a `w`×`h` rectangle, one
/// row at a time.
pub fn fill_v_gradient(reg: &mut AppWindows, id: WindowId, x: i32, y: i32, w: u32, h: u32, top: Rgb, bot: Rgb)
    requires
        old(reg).wf(),
        0 <= x,
        0 <= y,
        w <= 0x100_0000,
        h <= 0x100_0000,
        x + w <= 0x1000_0000,
        y + h <= 0x1000_0000,
    ensures
        final(reg).wf(),
        final(reg).windows() == grad_rows(old(reg).windows(), id, x as int, y as int, w as int, h as int, top, bot, h as nat),
        final(reg).next_id() == old(reg).next_id(),
        final(reg).ops() == old(reg).ops(),
        final(reg).dirty() == old(reg).dirty(),
{
    let mut row: u32 = 0;
    while row < h
        invariant
            row <= h,
            h <= 0x100_0000,
            w <= 0x100_0000,
            0 <= x,
            0 <= y,
            x + w <= 0x1000_0000,
            y + h <= 0x1000_0000,
            reg.wf(),
            reg.windows() == grad_rows(old(reg).windows(), id, x as int, y as int, w as int, h as int, top, bot, row as nat),
            reg.next_id() == old(reg).next_id(),
            reg.ops() == old(reg).ops(),
            reg.dirty() == old(reg).dirty(),
        decreases h - row,
    {
        let r = grad_chan(top.r, bot.r, row, h);
        let g = grad_chan(top.g, bot.g, row, h);
        let b = grad_chan(top.b, bot.b, row, h);
        draw_rect(reg, id, x, y + row as i32, w, 1, (r, g, b));
        row = row + 1;
    }
}

/// One-pixel outline of a `w`×`h` rectangle: top, bottom, left, right.
pub open spec fn stroke_on(m: Map<WindowId, AppWinView>, id: WindowId, x: int, y: int, w: int, h: int, c: (u8, u8, u8))
    -> Map<WindowId, AppWinView> {
    let m1 = rect_on(m, id, x, y, w, 1, c);
    let m2 = rect_on(m1, id, x, y + h - 1, w, 1, c);
    let m3 = rect_on(m2, id, x, y, 1, h, c);
    rect_on(m3, id, x + w - 1, y, 1, h, c)
}

pub fn stroke_rect(reg: &mut AppWindows, id: WindowId, x: i32, y: i32, w: u32, h: u32, color: Rgb)
    requires
        old(reg).wf(),
        0 <= x,
        0 <= y,
        w <= 0x100_0000,
        h <= 0x100_0000,
        x + w <= 0x1000_0000,
        y + h <= 0x1000_0000,
    ensures
        final(reg).wf(),
        final(reg).windows() == stroke_on(old(reg).windows(), id, x as int, y as int, w as int, h as int, (color.r, color.g, color.b)),
        final(reg).next_id() == old(reg).next_id(),
        final(reg).ops() == old(reg).ops(),
        final(reg).dirty() == old(reg).dirty(),
{
    let c = (color.r, color.g, color.b);
    draw_rect(reg, id, x, y, w, 1, c);
    draw_rect(reg, id, x, y + h as i32 - 1, w, 1, c);
    draw_rect(reg, id, x, y, 1, h, c);
    draw_rect(reg, id, x + w as i32 - 1, y, 1, h, c);
}

/// Gradient colours of a calculator button by its label: green "=", red
/// "C", blue operators, white digits and ".".
pub open spec fn button_colours(l: u8) -> (Rgb, Rgb) {
    if l == 61 {
        (Rgb { r: 0x84, g: 0xCC, b: 0x6A }, Rgb { r: 0x3A, g: 0x8E, b: 0x32 })
    } else if l == 67 {
        (Rgb { r: 0xF4, g: 0x8A, b: 0x6A }, Rgb { r: 0xC8, g: 0x3A, b: 0x3A })
    } else if l == 43 || l == 45 || l == 42 || l == 47 {
        (Rgb { r: 0xC4, g: 0xDC, b: 0xF0 }, Rgb { r: 0x6F, g: 0xA6, b: 0xD8 })
    } else {
        (Rgb { r: 0xFC, g: 0xFD, b: 0xFF }, Rgb { r: 0xCC, g: 0xD6, b: 0xE2 })
    }
}

pub open spec fn darken_spec(c: Rgb, amt: u8) -> Rgb {
    Rgb {
        r: if c.r < amt { 0 } else { (c.r - amt) as u8 },
        g: if c.g < amt { 0 } else { (c.g - amt) as u8 },
        b: if c.b < amt { 0 } else { (c.b - amt) as u8 },
    }
}

pub open spec fn lighten_rgb(c: Rgb, amt: u8) -> (u8, u8, u8) {
    (
        if c.r + amt > 255 { 255u8 } else { (c.r + amt) as u8 },
        if c.g + amt > 255 { 255u8 } else { (c.g + amt) as u8 },
        if c.b + amt > 255 { 255u8 } else { (c.b + amt) as u8 },
    )
}

/// A calculator button (without its label): its gradient (darker while
/// pressed), a blue border and a light line under the top edge.
pub open spec fn button_on(m: Map<WindowId, AppWinView>, id: WindowId, x: int, y: int, w: int, h: int, l: u8, pressed: bool)
    -> Map<WindowId, AppWinView> {
    let cs = button_colours(l);
    let top = if pressed { darken_spec(cs.0, 24) } else { cs.0 };
    let bot = if pressed { darken_spec(cs.1, 24) } else { cs.1 };
    let m1 = grad_rows(m, id, x, y, w, h, top, bot, h as nat);
    let m2 = stroke_on(m1, id, x, y, w, h, (0x3A, 0x60, 0x8C));
    rect_on(m2, id, x + 1, y + 1, w - 2, 1, lighten_rgb(top, 40))
}

/// Draw a calculator button labelled `l`; the caller then draws the label.
pub fn paint_button(reg: &mut AppWindows, id: WindowId, x: i32, y: i32, w: u32, h: u32, l: u8, pressed: bool)
    requires
        old(reg).wf(),
        0 <= x,
        0 <= y,
        2 <= w <= 0x100_0000,
        h <= 0x100_0000,
        x + w <= 0x1000_0000,
        y + h <= 0x1000_0000,
    ensures
        final(reg).wf(),
        final(reg).windows() == button_on(old(reg).windows(), id, x as int, y as int, w as int, h as int, l, pressed),
        final(reg).next_id() == old(reg).next_id(),
        final(reg).ops() == old(reg).ops(),
        final(reg).dirty() == old(reg).dirty(),
{
    let (top0, bot0) = if l == 61 {
        (Rgb::new(0x84, 0xCC, 0x6A), Rgb::new(0x3A, 0x8E, 0x32))
    } else if l == 67 {
        (Rgb::new(0xF4, 0x8A, 0x6A), Rgb::new(0xC8, 0x3A, 0x3A))
    } else if l == 43 || l == 45 || l == 42 || l == 47 {
        (Rgb::new(0xC4, 0xDC, 0xF0), Rgb::new(0x6F, 0xA6, 0xD8))
    } else {
        (Rgb::new(0xFC, 0xFD, 0xFF), Rgb::new(0xCC, 0xD6, 0xE2))
    };
    let top = if pressed { darken(top0, 24) } else { top0 };
    let bot = if pressed { darken(bot0, 24) } else { bot0 };
    fill_v_gradient(reg, id, x, y, w, h, top, bot);
    stroke_rect(reg, id, x, y, w, h, Rgb::new(0x3A, 0x60, 0x8C));
    let hl = lighten(top, 40);
    draw_rect(reg, id, x + 1, y + 1, w - 2, 1, (hl.r, hl.g, hl.b));
}

// ---- hello ----

pub const HELLO_W: u32 = 380;
pub const HELLO_H: u32 = 200;

/// Colour of banner band `i` of 8: from (0x6F, 0xB6, 0xF0) to (0x3D, 0x86, 0xD4).
pub open spec fn band_colour(i: int) -> (u8, u8, u8) {
    grad_row_colour(Rgb { r: 0x6F, g: 0xB6, b: 0xF0 }, Rgb { r: 0x3D, g: 0x86, b: 0xD4 }, i, 8)
}

pub open spec fn bands_on(m: Map<WindowId, AppWinView>, id: WindowId, k: nat) -> Map<WindowId, AppWinView>
    decreases k,
{
    if k == 0 { m } else { rect_on(bands_on(m, id, (k - 1) as nat), id, 0, (k - 1) * 5, HELLO_W as int, 5, band_colour(k - 1)) }
}

/// The hello app's picture (without its text): a light background and a
/// banner of 8 bands, 5 pixels each, across the top.
pub open spec fn hello_on(m: Map<WindowId, AppWinView>, id: WindowId) -> Map<WindowId, AppWinView> {
    bands_on(rect_on(m, id, 0, 0, HELLO_W as int, HELLO_H as int, (0xF4, 0xF7, 0xFB)), id, 8)
}

/// Draw the hello app's picture; the app then draws its three lines of text.
pub fn paint_hello(reg: &mut AppWindows, id: WindowId)
    requires
        old(reg).wf(),
    ensures
        final(reg).wf(),
        final(reg).windows() == hello_on(old(reg).windows(), id),
        final(reg).next_id() == old(reg).next_id(),
        final(reg).ops() == old(reg).ops(),
        final(reg).dirty() == old(reg).dirty(),
{
    draw_rect(reg, id, 0, 0, HELLO_W, HELLO_H, (0xF4, 0xF7, 0xFB));
    let ghost m0 = reg.windows();
    let bands: u32 = 8;
    let band_h: u32 = 40 / bands;
    let mut i: u32 = 0;
    while i < bands
        invariant
            i <= 8,
            bands == 8,
            band_h == 5,
            reg.wf(),
            reg.windows() == bands_on(m0, id, i as nat),
            m0 == rect_on(old(reg).windows(), id, 0, 0, HELLO_W as int, HELLO_H as int, (0xF4, 0xF7, 0xFB)),
            reg.next_id() == old(reg).next_id(),
            reg.ops() == old(reg).ops(),
            reg.dirty() == old(reg).dirty(),
        decreases 8 - i,
    {
        let r = grad_chan(0x6F, 0x3D, i, bands);
        let g = grad_chan(0xB6, 0x86, i, bands);
        let b = grad_chan(0xF0, 0xD4, i, bands);
        draw_rect(reg, id, 0, (i * band_h) as i32, HELLO_W, band_h, (r, g, b));
        i = i + 1;
    }
}


// ---- calculator display text ----

pub open spec fn pow10(n: int) -> int
    decreases n,
{
    if n <= 0 { 1 } else { 10 * pow10(n - 1) }
}

proof fn lemma_pow10_pos(n: int)
    ensures
        pow10(n) >= 1,
    decreases n,
{
    if n > 0 {
        lemma_pow10_pos(n - 1);
    }
}

/// The last six decimal digits of `f`, zero-padded, most significant first.
pub open spec fn six_digits(f: nat) -> Seq<char> {
    Seq::new(6, |i: int| digit(((f as int / pow10(5 - i)) % 10) as nat))
}

/// `s` without trailing '0' characters.
pub open spec fn strip_zeros(s: Seq<char>) -> Seq<char>
    decreases s.len(),
{
    if s.len() > 0 && s.last() == '0' { strip_zeros(s.drop_last()) } else { s }
}

/// Display text of a number given as its sign, integer part and fraction
/// in millionths (already rounded): a full million carries into the
/// integer part; the fraction is shown with six places less its trailing
/// zeros, and not at all when it is zero.
pub open spec fn fixed_text(neg: bool, int_part: nat, frac: nat) -> Seq<char> {
    let ip = if frac >= 1_000_000 { int_part + 1 } else { int_part };
    let fr: nat = if frac >= 1_000_000 { (frac - 1_000_000) as nat } else { frac };
    (if neg { seq!['-'] } else { Seq::empty() }) + decimal(ip)
        + (if fr > 0 { seq!['.'] + strip_zeros(six_digits(fr)) } else { Seq::empty() })
}

/// The calculator's display text for sign, integer part and fraction in
/// millionths (see [`fixed_text`]).
pub fn format_fixed(neg: bool, int_part: u64, frac_scaled: u64) -> (s: String)
    requires
        frac_scaled >= 1_000_000 ==> int_part < u64::MAX,
    ensures
        s@ == fixed_text(neg, int_part as nat, frac_scaled as nat),
{
    let mut ip = int_part;
    let mut fr = frac_scaled;
    if fr >= 1_000_000 {
        ip = ip + 1;
        fr = fr - 1_000_000;
    }
    let mut s = String::new();
    if neg {
        string_push(&mut s, '-');
    }
    push_u64(&mut s, ip);
    let ghost head = s@;
    if fr > 0 {
        string_push(&mut s, '.');
        let mut digits: Vec<char> = Vec::new();
        let mut div: u64 = 100_000;
        let mut i: usize = 0;
        proof {
            reveal_with_fuel(pow10, 6);
        }
        while i < 6
            invariant
                i <= 6,
                div as int == pow10(5 - i),
                div >= 1,
                digits@.len() == i,
                forall|j: int| 0 <= j < i ==> #[trigger] digits@[j] == six_digits(fr as nat)[j],
            decreases 6 - i,
        {
            let d = ((fr / div) % 10) as u8;
            digits.push((48u8 + d) as char);
            proof {
                assert(((48 + d) as u8) as char == digit(((fr as int / pow10(5 - i)) % 10) as nat));
                if i < 5 {
                    lemma_pow10_pos(4 - i);
                    assert(pow10(5 - i) == 10 * pow10(4 - i));
                }
            }
            if i < 5 {
                div = div / 10;
            }
            i = i + 1;
        }
        assert(digits@ =~= six_digits(fr as nat));
        assert(digits@.subrange(0, 6) =~= digits@);
        let mut len: usize = 6;
        while len > 0 && digits[len - 1] == '0'
            invariant
                len <= 6,
                digits@.len() == 6,
                strip_zeros(digits@.subrange(0, len as int)) == strip_zeros(six_digits(fr as nat)),
            decreases len,
        {
            assert(digits@.subrange(0, len as int).drop_last() =~= digits@.subrange(0, len - 1));
            len = len - 1;
        }
        proof {
            let t = digits@.subrange(0, len as int);
            if len > 0 {
                assert(t.last() != '0');
            }
            assert(strip_zeros(t) == t);
        }
        let ghost mid = s@;
        let mut k: usize = 0;
        while k < len
            invariant
                k <= len,
                len <= 6,
                digits@.len() == 6,
                s@ == mid + digits@.subrange(0, k as int),
            decreases len - k,
        {
            string_push(&mut s, digits[k]);
            k = k + 1;
            assert(s@ =~= mid + digits@.subrange(0, k as int));
        }
        assert(s@ =~= head + (seq!['.'] + strip_zeros(six_digits(fr as nat))));
    } else {
        assert(s@ =~= head + Seq::<char>::empty());
    }
    s
}

} // verus!
