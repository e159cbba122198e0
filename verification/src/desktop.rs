//! Window manager of the desktop: windows stored back to front (the last
//! one is topmost), click-to-raise focus, title-bar drag, minimise through
//! the taskbar, a Start menu and a right-click context menu.
//!
//! The model of the state is [`WmView`]; every operation is specified on it.

use vstd::prelude::*;
use crate::sdk::{Event, WindowId};
use crate::strings::{string_push, string_from};

verus! {

// ---- window chrome geometry ----
pub const TITLE_H: usize = 30;
pub const CLOSE_BOX: usize = 22;
pub const CLOSE_PAD_R: usize = 6;
pub const BTN_GAP: usize = 2;
pub const WINDOW_RADIUS: usize = 6;

// ---- taskbar geometry ----
pub const TASKBAR_H: usize = 40;
pub const START_W: usize = 96;
pub const START_H: usize = 30;
pub const TASK_BTN_W: usize = 160;
pub const TASK_BTN_H: usize = 28;

// ---- Start menu geometry ----
pub const MENU_W: usize = 224;
pub const MENU_ROW_H: usize = 34;
pub const MENU_PAD_TOP: usize = 6;
pub const MENU_PAD_BOT: usize = 6;
pub const MENU_HDR_H: usize = 36;
pub const MENU_RADIUS: usize = 6;
pub const MENU_X: usize = 4;
/// Number of Start menu rows: About, hello, Calculator, Shut down, Restart.
pub const MENU_ITEM_COUNT: usize = 5;

// ---- context menu geometry ----
pub const CTX_W: usize = 180;
pub const CTX_ROW_H: usize = 28;
pub const CTX_PAD_TOP: usize = 4;
pub const CTX_PAD_BOT: usize = 4;
pub const CTX_RADIUS: usize = 5;
/// Number of context menu rows: Refresh, About.
pub const CTX_ITEM_COUNT: usize = 2;

/// Largest coordinate of the screen and of the mouse (2^20). Window
/// positions, sizes and mouse positions are added, subtracted and compared
/// as `i32`; with coordinates below 2^20 and sides below 2^28 no such sum
/// or difference can leave the `i32` range, which is what lets every
/// geometric computation be stated without overflow cases. Real screens
/// are far smaller.
pub const COORD_MAX: i32 = 0x10_0000;
/// Largest window side (2^28); see [`COORD_MAX`] for why it is bounded.
pub const SIDE_MAX: usize = 0x1000_0000;

/// Total height of the Start menu.
pub fn menu_height() -> (h: usize)
    ensures
        h == MENU_HDR_H + MENU_PAD_TOP + MENU_ITEM_COUNT * MENU_ROW_H + MENU_PAD_BOT,
{
    MENU_HDR_H + MENU_PAD_TOP + MENU_ITEM_COUNT * MENU_ROW_H + MENU_PAD_BOT
}

/// Total height of the context menu.
pub fn ctx_menu_height() -> (h: usize)
    ensures
        h == CTX_PAD_TOP + CTX_ITEM_COUNT * CTX_ROW_H + CTX_PAD_BOT,
{
    CTX_PAD_TOP + CTX_ITEM_COUNT * CTX_ROW_H + CTX_PAD_BOT
}

/// (px, py) lies in the rectangle (x, y, w, h).
pub open spec fn in_rect(x: int, y: int, w: int, h: int, px: int, py: int) -> bool {
    x <= px < x + w && y <= py < y + h
}

pub struct Window {
    pub x: i32,
    pub y: i32,
    pub w: usize,
    pub h: usize,
    pub title: String,
    pub body: Vec<String>,
    pub close_hover: bool,
    pub close_pressed: bool,
    pub min_hover: bool,
    pub min_pressed: bool,
    /// Minimized windows are not painted but keep their taskbar button.
    pub minimized: bool,
    pub dragging: bool,
    pub drag_offset: (i32, i32),
    /// Set for a window whose content belongs to an app.
    pub app_id: Option<WindowId>,
}

/// Model of a window.
pub struct WinView {
    pub x: int,
    pub y: int,
    pub w: int,
    pub h: int,
    pub title: Seq<char>,
    pub body: Seq<Seq<char>>,
    pub close_hover: bool,
    pub close_pressed: bool,
    pub min_hover: bool,
    pub min_pressed: bool,
    pub minimized: bool,
    pub dragging: bool,
    pub drag_offset: (int, int),
    pub app_id: Option<WindowId>,
}

impl View for Window {
    type V = WinView;

    open spec fn view(&self) -> WinView {
        WinView {
            x: self.x as int,
            y: self.y as int,
            w: self.w as int,
            h: self.h as int,
            title: self.title@,
            body: self.body@.map_values(|s: String| s@),
            close_hover: self.close_hover,
            close_pressed: self.close_pressed,
            min_hover: self.min_hover,
            min_pressed: self.min_pressed,
            minimized: self.minimized,
            dragging: self.dragging,
            drag_offset: (self.drag_offset.0 as int, self.drag_offset.1 as int),
            app_id: self.app_id,
        }
    }
}

impl WinView {
    /// Position and size keep all chrome arithmetic inside i32.
    pub open spec fn wf(self) -> bool {
        &&& -(SIDE_MAX as int) <= self.x <= COORD_MAX
        &&& -(SIDE_MAX as int) <= self.y <= COORD_MAX
        &&& 0 <= self.w <= SIDE_MAX
        &&& 0 <= self.h <= SIDE_MAX
        &&& -(COORD_MAX + SIDE_MAX) <= self.drag_offset.0 <= COORD_MAX + SIDE_MAX
        &&& -(COORD_MAX + SIDE_MAX) <= self.drag_offset.1 <= COORD_MAX + SIDE_MAX
    }

    /// Close button: a CLOSE_BOX square near the right end of the title bar.
    pub open spec fn close_rect(self) -> (int, int, int, int) {
        (
            self.x + self.w - CLOSE_BOX - CLOSE_PAD_R,
            self.y + (TITLE_H as int - CLOSE_BOX as int) / 2,
            CLOSE_BOX as int,
            CLOSE_BOX as int,
        )
    }

    /// Minimise button: immediately left of the close button.
    pub open spec fn min_rect(self) -> (int, int, int, int) {
        let c = self.close_rect();
        (c.0 - CLOSE_BOX - BTN_GAP, c.1, c.2, c.3)
    }

    pub open spec fn contains(self, px: int, py: int) -> bool {
        in_rect(self.x, self.y, self.w, self.h, px, py)
    }

    pub open spec fn close_contains(self, px: int, py: int) -> bool {
        let c = self.close_rect();
        in_rect(c.0, c.1, c.2, c.3, px, py)
    }

    pub open spec fn min_contains(self, px: int, py: int) -> bool {
        let c = self.min_rect();
        in_rect(c.0, c.1, c.2, c.3, px, py)
    }

    pub open spec fn title_bar_contains(self, px: int, py: int) -> bool {
        in_rect(self.x, self.y, self.w, TITLE_H as int, px, py)
    }
}

impl Window {
    pub fn close_rect(&self) -> (r: (i32, i32, usize, usize))
        requires
            self@.wf(),
        ensures
            (r.0 as int, r.1 as int, r.2 as int, r.3 as int) == self@.close_rect(),
    {
        let cx = self.x + self.w as i32 - CLOSE_BOX as i32 - CLOSE_PAD_R as i32;
        let cy = self.y + (TITLE_H as i32 - CLOSE_BOX as i32) / 2;
        (cx, cy, CLOSE_BOX, CLOSE_BOX)
    }

    pub fn min_rect(&self) -> (r: (i32, i32, usize, usize))
        requires
            self@.wf(),
        ensures
            (r.0 as int, r.1 as int, r.2 as int, r.3 as int) == self@.min_rect(),
    {
        let (cx, cy, cw, ch) = self.close_rect();
        let mx = cx - CLOSE_BOX as i32 - BTN_GAP as i32;
        (mx, cy, cw, ch)
    }

    pub fn contains(&self, px: i32, py: i32) -> (b: bool)
        requires
            self@.wf(),
        ensures
            b == self@.contains(px as int, py as int),
    {
        px >= self.x && py >= self.y && px < self.x + self.w as i32 && py < self.y + self.h as i32
    }

    pub fn close_contains(&self, px: i32, py: i32) -> (b: bool)
        requires
            self@.wf(),
        ensures
            b == self@.close_contains(px as int, py as int),
    {
        let (cx, cy, cw, ch) = self.close_rect();
        px >= cx && py >= cy && px < cx + cw as i32 && py < cy + ch as i32
    }

    pub fn min_contains(&self, px: i32, py: i32) -> (b: bool)
        requires
            self@.wf(),
        ensures
            b == self@.min_contains(px as int, py as int),
    {
        let (mx, my, mw, mh) = self.min_rect();
        px >= mx && py >= my && px < mx + mw as i32 && py < my + mh as i32
    }

    pub fn title_bar_contains(&self, px: i32, py: i32) -> (b: bool)
        requires
            self@.wf(),
        ensures
            b == self@.title_bar_contains(px as int, py as int),
    {
        px >= self.x && py >= self.y && px < self.x + self.w as i32 && py < self.y + TITLE_H as i32
    }
}

/// Index of the last window (topmost) that is visible and contains (px, py),
/// looking only at the first `n` windows.
pub open spec fn topmost_in(ws: Seq<WinView>, n: int, px: int, py: int) -> Option<usize>
    decreases n,
{
    if n <= 0 {
        None
    } else if !ws[n - 1].minimized && ws[n - 1].contains(px, py) {
        Some((n - 1) as usize)
    } else {
        topmost_in(ws, n - 1, px, py)
    }
}

/// Index of the last window that is not minimized, among the first `n`.
pub open spec fn focused_in(ws: Seq<WinView>, n: int) -> Option<usize>
    decreases n,
{
    if n <= 0 {
        None
    } else if !ws[n - 1].minimized {
        Some((n - 1) as usize)
    } else {
        focused_in(ws, n - 1)
    }
}

pub open spec fn topmost_at(ws: Seq<WinView>, px: int, py: int) -> Option<usize> {
    topmost_in(ws, ws.len() as int, px, py)
}

pub open spec fn focused(ws: Seq<WinView>) -> Option<usize> {
    focused_in(ws, ws.len() as int)
}

/// Window `idx` moved to the end (top); unchanged if it is already topmost
/// or out of range.
pub open spec fn raised(ws: Seq<WinView>, idx: int) -> Seq<WinView> {
    if idx + 1 >= ws.len() {
        ws
    } else {
        ws.remove(idx).push(ws[idx])
    }
}

pub(crate) proof fn lemma_topmost_in_range(ws: Seq<WinView>, n: int, px: int, py: int)
    requires
        0 <= n <= ws.len(),
        ws.len() <= usize::MAX,
    ensures
        topmost_in(ws, n, px, py) matches Some(i) ==> i < n && !ws[i as int].minimized && ws[i as int].contains(px, py),
    decreases n,
{
    if n > 0 {
        lemma_topmost_in_range(ws, n - 1, px, py);
    }
}

pub(crate) proof fn lemma_focused_in_range(ws: Seq<WinView>, n: int)
    requires
        0 <= n <= ws.len(),
        ws.len() <= usize::MAX,
    ensures
        focused_in(ws, n) matches Some(i) ==> i < n && !ws[i as int].minimized,
    decreases n,
{
    if n > 0 {
        lemma_focused_in_range(ws, n - 1);
    }
}

pub struct WM {
    pub windows: Vec<Window>,
    pub start_hover: bool,
    pub start_pressed: bool,
    pub menu_open: bool,
    pub menu_hover: Option<usize>,
    pub menu_pressed: Option<usize>,
    pub ctx_open: bool,
    pub ctx_x: i32,
    pub ctx_y: i32,
    pub ctx_hover: Option<usize>,
    pub ctx_pressed: Option<usize>,
    pub task_hover: Option<usize>,
    pub task_pressed: Option<usize>,
    /// Windows ever opened; numbers About windows and offsets the cascade.
    pub n_opened: u32,
}

/// Model of the window manager.
pub struct WmView {
    pub windows: Seq<WinView>,
    pub start_hover: bool,
    pub start_pressed: bool,
    pub menu_open: bool,
    pub menu_hover: Option<usize>,
    pub menu_pressed: Option<usize>,
    pub ctx_open: bool,
    pub ctx_x: int,
    pub ctx_y: int,
    pub ctx_hover: Option<usize>,
    pub ctx_pressed: Option<usize>,
    pub task_hover: Option<usize>,
    pub task_pressed: Option<usize>,
    pub n_opened: int,
}

impl View for WM {
    type V = WmView;

    open spec fn view(&self) -> WmView {
        WmView {
            windows: self.windows@.map_values(|w: Window| w@),
            start_hover: self.start_hover,
            start_pressed: self.start_pressed,
            menu_open: self.menu_open,
            menu_hover: self.menu_hover,
            menu_pressed: self.menu_pressed,
            ctx_open: self.ctx_open,
            ctx_x: self.ctx_x as int,
            ctx_y: self.ctx_y as int,
            ctx_hover: self.ctx_hover,
            ctx_pressed: self.ctx_pressed,
            task_hover: self.task_hover,
            task_pressed: self.task_pressed,
            n_opened: self.n_opened as int,
        }
    }
}

impl WmView {
    pub open spec fn wf(self) -> bool {
        &&& self.windows.len() <= WINDOWS_MAX
        &&& forall|i: int| 0 <= i < self.windows.len() ==> #[trigger] self.windows[i].wf()
        &&& 0 <= self.ctx_x <= COORD_MAX
        &&& 0 <= self.ctx_y <= COORD_MAX
    }
}

impl WM {
    pub fn new() -> (wm: WM)
        ensures
            wm@ == (WmView {
                windows: Seq::empty(),
                start_hover: false,
                start_pressed: false,
                menu_open: false,
                menu_hover: None,
                menu_pressed: None,
                ctx_open: false,
                ctx_x: 0,
                ctx_y: 0,
                ctx_hover: None,
                ctx_pressed: None,
                task_hover: None,
                task_pressed: None,
                n_opened: 0,
            }),
    {
        let wm = WM {
            windows: Vec::new(),
            start_hover: false,
            start_pressed: false,
            menu_open: false,
            menu_hover: None,
            menu_pressed: None,
            ctx_open: false,
            ctx_x: 0,
            ctx_y: 0,
            ctx_hover: None,
            ctx_pressed: None,
            task_hover: None,
            task_pressed: None,
            n_opened: 0,
        };
        assert(wm@.windows =~= Seq::<WinView>::empty());
        wm
    }

    /// Close the Start menu and clear its hover/press feedback.
    pub fn close_menu(&mut self)
        ensures
            final(self)@ == (WmView { menu_open: false, menu_hover: None, menu_pressed: None, ..old(self)@ }),
    {
        self.menu_open = false;
        self.menu_hover = None;
        self.menu_pressed = None;
    }

    /// Close the context menu and clear its hover/press feedback.
    pub fn close_ctx(&mut self)
        ensures
            final(self)@ == (WmView { ctx_open: false, ctx_hover: None, ctx_pressed: None, ..old(self)@ }),
    {
        self.ctx_open = false;
        self.ctx_hover = None;
        self.ctx_pressed = None;
    }

    /// Move window `idx` to the top of the z-order; `true` if anything changed.
    pub fn raise(&mut self, idx: usize) -> (changed: bool)
        requires
            idx < usize::MAX,
        ensures
            changed == (idx + 1 < old(self)@.windows.len()),
            final(self)@ == (WmView { windows: raised(old(self)@.windows, idx as int), ..old(self)@ }),
    {
        if idx + 1 >= self.windows.len() {
            return false;
        }
        let ghost ws = self.windows@;
        let win = self.windows.remove(idx);
        self.windows.push(win);
        assert(self@.windows =~= raised(old(self)@.windows, idx as int));
        true
    }

    /// Index of the topmost visible window under (px, py).
    pub fn topmost_at(&self, px: i32, py: i32) -> (r: Option<usize>)
        requires
            self@.wf(),
        ensures
            r == topmost_at(self@.windows, px as int, py as int),
    {
        let mut n = self.windows.len();
        while n > 0
            invariant
                n <= self.windows@.len(),
                self@.wf(),
                topmost_at(self@.windows, px as int, py as int) == topmost_in(self@.windows, n as int, px as int, py as int),
            decreases n,
        {
            let w = &self.windows[n - 1];
            assert(self@.windows[n - 1] == w@);
            if !w.minimized && w.contains(px, py) {
                return Some(n - 1);
            }
            n = n - 1;
        }
        None
    }

    /// Index of the focused window: the topmost one that is not minimized.
    pub fn focused_idx(&self) -> (r: Option<usize>)
        ensures
            r == focused(self@.windows),
    {
        let mut n = self.windows.len();
        while n > 0
            invariant
                n <= self.windows@.len(),
                focused(self@.windows) == focused_in(self@.windows, n as int),
            decreases n,
        {
            assert(self@.windows[n - 1] == self.windows@[n - 1]@);
            if !self.windows[n - 1].minimized {
                return Some(n - 1);
            }
            n = n - 1;
        }
        None
    }
}


/// Windows after a task-button click on `idx`: a minimized window is restored
/// and raised; the focused window is minimized (dropping its hover, press and
/// drag state); any other window is raised.
pub open spec fn toggled(ws: Seq<WinView>, idx: int) -> Seq<WinView> {
    if idx < 0 || idx >= ws.len() {
        ws
    } else if ws[idx].minimized {
        raised(ws.update(idx, WinView { minimized: false, ..ws[idx] }), idx)
    } else if focused(ws) == Some(idx as usize) {
        ws.update(idx, WinView {
            minimized: true,
            close_hover: false,
            close_pressed: false,
            min_hover: false,
            min_pressed: false,
            dragging: false,
            ..ws[idx]
        })
    } else {
        raised(ws, idx)
    }
}

impl WM {
    /// Task-button click: minimize the focused window, restore a minimized
    /// one, raise any other.
    pub fn toggle_task(&mut self, idx: usize)
        requires
            old(self)@.windows.len() < usize::MAX,
        ensures
            final(self)@ == (WmView { windows: toggled(old(self)@.windows, idx as int), ..old(self)@ }),
    {
        if idx >= self.windows.len() {
            return;
        }
        let focused = self.focused_idx() == Some(idx);
        let was_minimized = self.windows[idx].minimized;
        if was_minimized {
            let mut w = self.windows.remove(idx);
            w.minimized = false;
            self.windows.insert(idx, w);
            assert(self@.windows =~= old(self)@.windows.update(idx as int, WinView { minimized: false, ..old(self)@.windows[idx as int] }));
            self.raise(idx);
        } else if focused {
            let mut w = self.windows.remove(idx);
            w.minimized = true;
            w.close_hover = false;
            w.close_pressed = false;
            w.min_hover = false;
            w.min_pressed = false;
            w.dragging = false;
            self.windows.insert(idx, w);
            assert(self@.windows =~= toggled(old(self)@.windows, idx as int));
        } else {
            self.raise(idx);
        }
    }
}

/// "HH:MM:SS" for a tick count of the ~18 Hz timer (hours wrap at 100).
pub open spec fn uptime_text(ticks: nat) -> Seq<char> {
    let secs = ticks / 18;
    let h = (secs / 3600) % 100;
    let m = (secs % 3600) / 60;
    let s = secs % 60;
    two_digits(h) + seq![':'] + two_digits(m) + seq![':'] + two_digits(s)
}

/// Two decimal digits of `n` (the tens digit capped at 9).
pub open spec fn two_digits(n: nat) -> Seq<char> {
    seq![crate::strings::digit(if n / 10 < 9 { n / 10 } else { 9 }), crate::strings::digit(n % 10)]
}

/// Append `n` as two digits.
pub fn push_two(s: &mut String, n: u8)
    ensures
        final(s)@ == old(s)@ + two_digits(n as nat),
{
    let tens = if n / 10 < 9 { n / 10 } else { 9 };
    string_push(s, (48u8 + tens) as char);
    string_push(s, (48u8 + n % 10) as char);
    assert(final(s)@ =~= old(s)@ + two_digits(n as nat));
}

/// Format a tick count as "HH:MM:SS".
pub fn format_uptime(ticks: u64) -> (r: String)
    ensures
        r@ == uptime_text(ticks as nat),
{
    let secs = ticks / 18;
    let h = (secs / 3600) % 100;
    let m = (secs % 3600) / 60;
    let sec = secs % 60;
    let mut out = String::new();
    push_two(&mut out, h as u8);
    string_push(&mut out, ':');
    push_two(&mut out, m as u8);
    string_push(&mut out, ':');
    push_two(&mut out, sec as u8);
    assert(out@ =~= uptime_text(ticks as nat));
    out
}

/// Lighten a colour by adding `amt` to each channel, saturating at 255.
pub fn lighten(c: (u8, u8, u8), amt: u8) -> (r: (u8, u8, u8))
    ensures
        r.0 == (if c.0 + amt > 255 { 255 } else { c.0 + amt }),
        r.1 == (if c.1 + amt > 255 { 255 } else { c.1 + amt }),
        r.2 == (if c.2 + amt > 255 { 255 } else { c.2 + amt }),
{
    (c.0.saturating_add(amt), c.1.saturating_add(amt), c.2.saturating_add(amt))
}

// ---- taskbar geometry ----

/// Start button rectangle for a screen `sh` pixels tall.
pub open spec fn start_rect_spec(sh: int) -> (int, int, int, int) {
    (6, sh - TASKBAR_H + (TASKBAR_H - START_H) / 2, START_W as int, START_H as int)
}

pub fn start_rect(sh: usize) -> (r: (i32, i32, usize, usize))
    requires
        TASKBAR_H <= sh <= COORD_MAX,
    ensures
        (r.0 as int, r.1 as int, r.2 as int, r.3 as int) == start_rect_spec(sh as int),
{
    let ty = sh - TASKBAR_H;
    let x = 6i32;
    let y = ty as i32 + (TASKBAR_H as i32 - START_H as i32) / 2;
    (x, y, START_W, START_H)
}

pub open spec fn start_contains_spec(sh: int, px: int, py: int) -> bool {
    let r = start_rect_spec(sh);
    in_rect(r.0, r.1, r.2, r.3, px, py)
}

pub fn start_contains(sh: usize, px: i32, py: i32) -> (b: bool)
    requires
        TASKBAR_H <= sh <= COORD_MAX,
    ensures
        b == start_contains_spec(sh as int, px as int, py as int),
{
    let (sx, sy, sw, sh2) = start_rect(sh);
    px >= sx && py >= sy && px < sx + sw as i32 && py < sy + sh2 as i32
}

/// Rectangle of the k-th task button.
pub open spec fn task_btn_rect_spec(sh: int, k: int) -> (int, int, int, int) {
    (6 + START_W + 8 + k * (TASK_BTN_W + 4), sh - TASKBAR_H + (TASKBAR_H - TASK_BTN_H) / 2, TASK_BTN_W as int, TASK_BTN_H as int)
}

/// Most windows the window manager holds (65536). Task buttons are laid
/// out at `k * (TASK_BTN_W + 4)` pixels, computed in `i32`; with at most
/// 2^16 windows that offset stays below 2^24 and cannot overflow.
pub const WINDOWS_MAX: usize = 0x1_0000;

pub fn task_btn_rect(sh: usize, k: usize) -> (r: (i32, i32, usize, usize))
    requires
        TASKBAR_H <= sh <= COORD_MAX,
        k <= WINDOWS_MAX,
    ensures
        (r.0 as int, r.1 as int, r.2 as int, r.3 as int) == task_btn_rect_spec(sh as int, k as int),
{
    let ty = sh - TASKBAR_H;
    let left = 6 + START_W + 8;
    assert(k * (TASK_BTN_W + 4) <= 0x1_0000 * 164) by (nonlinear_arith)
        requires k <= 0x1_0000, TASK_BTN_W + 4 == 164;
    let x = left + k * (TASK_BTN_W + 4);
    let y = ty as i32 + (TASKBAR_H as i32 - TASK_BTN_H as i32) / 2;
    (x as i32, y, TASK_BTN_W, TASK_BTN_H)
}

/// First task button (of `n`) containing (px, py).
pub open spec fn task_btn_at_spec(n: int, sh: int, px: int, py: int) -> Option<usize> {
    task_btn_from(0, n, sh, px, py)
}

pub open spec fn task_btn_from(k: int, n: int, sh: int, px: int, py: int) -> Option<usize>
    decreases n - k,
{
    if k >= n {
        None
    } else {
        let r = task_btn_rect_spec(sh, k);
        if in_rect(r.0, r.1, r.2, r.3, px, py) {
            Some(k as usize)
        } else {
            task_btn_from(k + 1, n, sh, px, py)
        }
    }
}

/// Index of the task button under (px, py), if any.
pub fn task_btn_at(wm: &WM, sh: usize, px: i32, py: i32) -> (r: Option<usize>)
    requires
        TASKBAR_H <= sh <= COORD_MAX,
        wm@.windows.len() <= WINDOWS_MAX,
    ensures
        r == task_btn_at_spec(wm@.windows.len() as int, sh as int, px as int, py as int),
{
    let n = wm.windows.len();
    let mut k: usize = 0;
    while k < n
        invariant
            k <= n,
            n == wm@.windows.len(),
            n <= WINDOWS_MAX,
            TASKBAR_H <= sh <= COORD_MAX,
            task_btn_at_spec(n as int, sh as int, px as int, py as int) == task_btn_from(k as int, n as int, sh as int, px as int, py as int),
        decreases n - k,
    {
        let (x, y, w, h) = task_btn_rect(sh, k);
        if px >= x && py >= y && px < x + w as i32 && py < y + h as i32 {
            return Some(k);
        }
        k = k + 1;
    }
    None
}

// ---- Start menu geometry ----

/// Start menu rectangle: above the taskbar at the left edge.
pub open spec fn menu_rect_spec(sh: int) -> (int, int, int, int) {
    let h = MENU_HDR_H + MENU_PAD_TOP + MENU_ITEM_COUNT * MENU_ROW_H + MENU_PAD_BOT;
    let y = if sh - (TASKBAR_H + h) > 0 { sh - (TASKBAR_H + h) } else { 0 };
    (MENU_X as int, y, MENU_W as int, h)
}

pub fn menu_rect(sh: usize) -> (r: (i32, i32, usize, usize))
    requires
        sh <= COORD_MAX,
    ensures
        (r.0 as int, r.1 as int, r.2 as int, r.3 as int) == menu_rect_spec(sh as int),
{
    let h = menu_height();
    let y = sh.saturating_sub(TASKBAR_H + h);
    (MENU_X as i32, y as i32, MENU_W, h)
}

pub open spec fn menu_contains_spec(sh: int, px: int, py: int) -> bool {
    let r = menu_rect_spec(sh);
    in_rect(r.0, r.1, r.2, r.3, px, py)
}

pub fn menu_contains(sh: usize, px: i32, py: i32) -> (b: bool)
    requires
        sh <= COORD_MAX,
    ensures
        b == menu_contains_spec(sh as int, px as int, py as int),
{
    let (mx, my, mw, mh) = menu_rect(sh);
    px >= mx && py >= my && px < mx + mw as i32 && py < my + mh as i32
}

/// Start menu row under (px, py): rows are MENU_ROW_H apart below the
/// header, each inset 4 px left and right and 2 px shorter than its pitch.
pub open spec fn menu_item_at_spec(sh: int, px: int, py: int) -> Option<usize> {
    let m = menu_rect_spec(sh);
    let y0 = m.1 + MENU_HDR_H + MENU_PAD_TOP;
    if m.0 + 4 <= px < m.0 + 4 + (MENU_W - 8) && py >= y0
        && (py - y0) / (MENU_ROW_H as int) < MENU_ITEM_COUNT
        && (py - y0) % (MENU_ROW_H as int) < MENU_ROW_H - 2 {
        Some(((py - y0) / (MENU_ROW_H as int)) as usize)
    } else {
        None
    }
}

pub fn menu_item_at(sh: usize, px: i32, py: i32) -> (r: Option<usize>)
    requires
        sh <= COORD_MAX,
    ensures
        r == menu_item_at_spec(sh as int, px as int, py as int),
{
    let (mx, my, _mw, _mh) = menu_rect(sh);
    let rows_x = mx + 4;
    let rows_w = MENU_W as i32 - 8;
    let rows_y0 = my + MENU_HDR_H as i32 + MENU_PAD_TOP as i32;
    let mut i: usize = 0;
    while i < MENU_ITEM_COUNT
        invariant
            i <= MENU_ITEM_COUNT,
            sh <= COORD_MAX,
            (mx as int, my as int) == (menu_rect_spec(sh as int).0, menu_rect_spec(sh as int).1),
            rows_x == mx + 4,
            rows_w == MENU_W - 8,
            rows_y0 == my + MENU_HDR_H + MENU_PAD_TOP,
            !(rows_x <= px < rows_x + rows_w && py >= rows_y0 && (py - rows_y0) / (MENU_ROW_H as int) < i
                && (py - rows_y0) % (MENU_ROW_H as int) < MENU_ROW_H - 2),
        decreases MENU_ITEM_COUNT - i,
    {
        let row_y = rows_y0 + (i * MENU_ROW_H) as i32;
        if px >= rows_x && py >= row_y && px < rows_x + rows_w && py < row_y + MENU_ROW_H as i32 - 2 {
            return Some(i);
        }
        i = i + 1;
    }
    None
}

/// Action of a Start menu row.
#[derive(Copy, Clone, Debug, PartialEq, Eq, Structural)]
pub enum MenuAction {
    OpenAbout,
    LaunchHello,
    LaunchCalculator,
    Shutdown,
    Reboot,
}

/// Action of Start menu row `idx`; rows past the last do nothing.
pub open spec fn menu_action_spec(idx: int) -> Option<MenuAction> {
    if idx == 0 {
        Some(MenuAction::OpenAbout)
    } else if idx == 1 {
        Some(MenuAction::LaunchHello)
    } else if idx == 2 {
        Some(MenuAction::LaunchCalculator)
    } else if idx == 3 {
        Some(MenuAction::Shutdown)
    } else if idx == 4 {
        Some(MenuAction::Reboot)
    } else {
        None
    }
}

/// What invoking Start menu row `idx` does.
pub fn menu_invoke(idx: usize) -> (a: Option<MenuAction>)
    ensures
        a == menu_action_spec(idx as int),
{
    match idx {
        0 => Some(MenuAction::OpenAbout),
        1 => Some(MenuAction::LaunchHello),
        2 => Some(MenuAction::LaunchCalculator),
        3 => Some(MenuAction::Shutdown),
        4 => Some(MenuAction::Reboot),
        _ => None,
    }
}

/// Label of Start menu row `idx`, top to bottom.
pub open spec fn menu_label_spec(idx: int) -> Seq<char> {
    if idx == 0 {
        "About MarX-OS"@
    } else if idx == 1 {
        "Run hello (.elf)"@
    } else if idx == 2 {
        "Calculator"@
    } else if idx == 3 {
        "Shut down"@
    } else if idx == 4 {
        "Restart"@
    } else {
        Seq::empty()
    }
}

/// Label of Start menu row `idx`.
pub fn menu_label(idx: usize) -> (s: &'static str)
    requires
        idx < MENU_ITEM_COUNT,
    ensures
        s@ == menu_label_spec(idx as int),
{
    if idx == 0 {
        "About MarX-OS"
    } else if idx == 1 {
        "Run hello (.elf)"
    } else if idx == 2 {
        "Calculator"
    } else if idx == 3 {
        "Shut down"
    } else {
        "Restart"
    }
}

/// Every Start menu row does what its label says: "Shut down" powers off,
/// "Restart" reboots, "About MarX-OS" opens the About window, and the two
/// "Run"/"Calculator" rows launch their apps; no other row has these
/// actions.
pub proof fn lemma_menu_rows_do_what_they_say(idx: int)
    requires
        0 <= idx < MENU_ITEM_COUNT,
    ensures
        menu_label_spec(idx) == "Shut down"@ <==> menu_action_spec(idx) == Some(MenuAction::Shutdown),
        menu_label_spec(idx) == "Restart"@ <==> menu_action_spec(idx) == Some(MenuAction::Reboot),
        menu_label_spec(idx) == "About MarX-OS"@ <==> menu_action_spec(idx) == Some(MenuAction::OpenAbout),
        menu_label_spec(idx) == "Run hello (.elf)"@ <==> menu_action_spec(idx) == Some(MenuAction::LaunchHello),
        menu_label_spec(idx) == "Calculator"@ <==> menu_action_spec(idx) == Some(MenuAction::LaunchCalculator),
{
    reveal_strlit("About MarX-OS");
    reveal_strlit("Run hello (.elf)");
    reveal_strlit("Calculator");
    reveal_strlit("Shut down");
    reveal_strlit("Restart");
    let a = "About MarX-OS"@;
    let h = "Run hello (.elf)"@;
    let c = "Calculator"@;
    let d = "Shut down"@;
    let r = "Restart"@;
    assert(a.len() == 13 && h.len() == 16 && c.len() == 10 && d.len() == 9 && r.len() == 7);
    assert(a != h && a != c && a != d && a != r);
    assert(h != c && h != d && h != r);
    assert(c != d && c != r);
    assert(d[0] != r[0]);
    assert(d != r);
}

/// File name of the app a menu action launches.
pub fn launch_target(a: MenuAction) -> (name: Option<&'static str>)
    ensures
        a == MenuAction::LaunchHello ==> name == Some("hello.elf"),
        a == MenuAction::LaunchCalculator ==> name == Some("calculator.elf"),
        a != MenuAction::LaunchHello && a != MenuAction::LaunchCalculator ==> name is None,
{
    match a {
        MenuAction::LaunchHello => Some("hello.elf"),
        MenuAction::LaunchCalculator => Some("calculator.elf"),
        _ => None,
    }
}

// ---- context menu geometry ----

/// Context menu rectangle at the anchor, pushed back inside the screen
/// above the taskbar.
pub open spec fn ctx_rect_spec(sw: int, sh: int, ax: int, ay: int) -> (int, int, int, int) {
    let h = CTX_PAD_TOP + CTX_ITEM_COUNT * CTX_ROW_H + CTX_PAD_BOT;
    let max_x = sw - CTX_W;
    let max_y = sh - TASKBAR_H - h;
    let x0 = if ax < max_x { ax } else { max_x };
    let y0 = if ay < max_y { ay } else { max_y };
    (if x0 > 0 { x0 } else { 0 }, if y0 > 0 { y0 } else { 0 }, CTX_W as int, h as int)
}

pub fn ctx_rect(sw: usize, sh: usize, anchor_x: i32, anchor_y: i32) -> (r: (i32, i32, usize, usize))
    requires
        sw <= COORD_MAX,
        sh <= COORD_MAX,
    ensures
        (r.0 as int, r.1 as int, r.2 as int, r.3 as int) == ctx_rect_spec(sw as int, sh as int, anchor_x as int, anchor_y as int),
{
    let h = ctx_menu_height();
    let max_x = sw as i32 - CTX_W as i32;
    let max_y = sh as i32 - TASKBAR_H as i32 - h as i32;
    let x0 = if anchor_x < max_x { anchor_x } else { max_x };
    let y0 = if anchor_y < max_y { anchor_y } else { max_y };
    let x = if x0 > 0 { x0 } else { 0 };
    let y = if y0 > 0 { y0 } else { 0 };
    (x, y, CTX_W, h)
}

pub open spec fn ctx_contains_spec(v: WmView, sw: int, sh: int, px: int, py: int) -> bool {
    let r = ctx_rect_spec(sw, sh, v.ctx_x, v.ctx_y);
    in_rect(r.0, r.1, r.2, r.3, px, py)
}

pub fn ctx_contains(wm: &WM, sw: usize, sh: usize, px: i32, py: i32) -> (b: bool)
    requires
        sw <= COORD_MAX,
        sh <= COORD_MAX,
        wm@.wf(),
    ensures
        b == ctx_contains_spec(wm@, sw as int, sh as int, px as int, py as int),
{
    let (cx, cy, cw, ch) = ctx_rect(sw, sh, wm.ctx_x, wm.ctx_y);
    px >= cx && py >= cy && px < cx + cw as i32 && py < cy + ch as i32
}

/// Context menu row under (px, py) while the menu is open.
pub open spec fn ctx_item_at_spec(v: WmView, sw: int, sh: int, px: int, py: int) -> Option<usize> {
    let m = ctx_rect_spec(sw, sh, v.ctx_x, v.ctx_y);
    let y0 = m.1 + CTX_PAD_TOP;
    if v.ctx_open && m.0 + 3 <= px < m.0 + 3 + (CTX_W - 6) && py >= y0
        && (py - y0) / (CTX_ROW_H as int) < CTX_ITEM_COUNT
        && (py - y0) % (CTX_ROW_H as int) < CTX_ROW_H - 2 {
        Some(((py - y0) / (CTX_ROW_H as int)) as usize)
    } else {
        None
    }
}

pub fn ctx_item_at(wm: &WM, sw: usize, sh: usize, px: i32, py: i32) -> (r: Option<usize>)
    requires
        sw <= COORD_MAX,
        sh <= COORD_MAX,
        wm@.wf(),
    ensures
        r == ctx_item_at_spec(wm@, sw as int, sh as int, px as int, py as int),
{
    if !wm.ctx_open {
        return None;
    }
    let (mx, my, _mw, _mh) = ctx_rect(sw, sh, wm.ctx_x, wm.ctx_y);
    let rows_x = mx + 3;
    let rows_w = CTX_W as i32 - 6;
    let rows_y0 = my + CTX_PAD_TOP as i32;
    let mut i: usize = 0;
    while i < CTX_ITEM_COUNT
        invariant
            i <= CTX_ITEM_COUNT,
            wm@.ctx_open,
            (mx as int, my as int) == (ctx_rect_spec(sw as int, sh as int, wm@.ctx_x, wm@.ctx_y).0,
                ctx_rect_spec(sw as int, sh as int, wm@.ctx_x, wm@.ctx_y).1),
            0 <= mx <= COORD_MAX,
            0 <= my <= COORD_MAX,
            rows_x == mx + 3,
            rows_w == CTX_W - 6,
            rows_y0 == my + CTX_PAD_TOP,
            !(rows_x <= px < rows_x + rows_w && py >= rows_y0 && (py - rows_y0) / (CTX_ROW_H as int) < i
                && (py - rows_y0) % (CTX_ROW_H as int) < CTX_ROW_H - 2),
        decreases CTX_ITEM_COUNT - i,
    {
        let row_y = rows_y0 + (i * CTX_ROW_H) as i32;
        if px >= rows_x && py >= row_y && px < rows_x + rows_w && py < row_y + CTX_ROW_H as i32 - 2 {
            return Some(i);
        }
        i = i + 1;
    }
    None
}


/// Text of the About window: the welcome file when it was read and is valid
/// UTF-8, a fixed greeting otherwise.
pub open spec fn about_text(file: Option<Seq<u8>>) -> Seq<char> {
    match file {
        Some(b) => if vstd::utf8::valid_utf8(b) { vstd::utf8::decode_utf8(b) } else { "Welcome to MarX-OS."@ },
        None => "Welcome to MarX-OS."@,
    }
}

/// Title of the `id`-th window opened: the first About window has no number.
pub open spec fn about_title(id: int) -> Seq<char> {
    if id == 1 {
        "About MarX-OS"@
    } else {
        "About MarX-OS #"@ + crate::strings::decimal(id as nat)
    }
}

/// Cascade offset of the `n`-th window opened: +28 px per window, every 6.
pub open spec fn cascade(n: int) -> int {
    ((n - 1) % 6) * 28
}

/// A fresh window with no hover, press, drag or minimise state.
pub open spec fn fresh_window(x: int, y: int, w: int, h: int, title: Seq<char>, body: Seq<Seq<char>>, app_id: Option<WindowId>) -> WinView {
    WinView {
        x, y, w, h, title, body,
        close_hover: false,
        close_pressed: false,
        min_hover: false,
        min_pressed: false,
        minimized: false,
        dragging: false,
        drag_offset: (0, 0),
        app_id,
    }
}

/// The About window opened as window number `id` on a `sw`×`sh` screen:
/// 700×420, centred above the taskbar, then cascaded.
pub open spec fn about_window(id: int, file: Option<Seq<u8>>, sw: int, sh: int) -> WinView {
    let desktop_h = if sh > TASKBAR_H { sh - TASKBAR_H } else { 0 };
    fresh_window(
        (sw - 700) / 2 + cascade(id),
        (desktop_h - 420) / 2 + cascade(id),
        700,
        420,
        about_title(id),
        crate::strings::lines_of(about_text(file)),
        None,
    )
}

/// Chrome for an app window with a `cw`×`ch` content area, opened as window
/// number `n`: a title bar above the content, centred, then cascaded.
pub open spec fn app_window(app_id: WindowId, title: Seq<char>, cw: int, ch: int, n: int, sw: int, sh: int) -> WinView {
    let desktop_h = if sh > TASKBAR_H { sh - TASKBAR_H } else { 0 };
    let h = ch + TITLE_H;
    fresh_window(
        (if sw > cw { sw - cw } else { 0 }) / 2 + cascade(n),
        (if desktop_h > h { desktop_h - h } else { 0 }) / 2 + cascade(n),
        cw,
        h,
        title,
        Seq::empty(),
        Some(app_id),
    )
}

/// Windows without the chrome of app window `app_id`.
pub open spec fn without_app(ws: Seq<WinView>, app_id: WindowId) -> Seq<WinView> {
    ws.filter(|w: WinView| w.app_id != Some(app_id))
}

impl WM {
    /// Open a new About window whose body is the lines of the welcome file
    /// (`None` when it could not be read).
    pub fn open_about(&mut self, file: Option<&[u8]>, sw: usize, sh: usize)
        requires
            old(self)@.wf(),
            old(self)@.windows.len() < WINDOWS_MAX,
            old(self)@.n_opened < u32::MAX,
            700 <= sw <= COORD_MAX,
            TASKBAR_H + 420 <= sh <= COORD_MAX,
        ensures
            final(self)@.wf(),
            final(self)@ == (WmView {
                windows: old(self)@.windows.push(about_window(old(self)@.n_opened + 1, match file { Some(b) => Some(b@), None => None }, sw as int, sh as int)),
                n_opened: old(self)@.n_opened + 1,
                ..old(self)@
            }),
    {
        self.n_opened = self.n_opened + 1;
        let id = self.n_opened;
        let greeting = "Welcome to MarX-OS.";
        let text: &str = match file {
            Some(bytes) => match crate::strings::str_from_utf8(bytes) {
                Some(t) => t,
                None => greeting,
            },
            None => greeting,
        };
        let body = crate::strings::lines(text);
        let title = if id == 1 {
            string_from("About MarX-OS")
        } else {
            let mut t = string_from("About MarX-OS #");
            crate::strings::push_uint(&mut t, id);
            t
        };
        let desktop_h = sh.saturating_sub(TASKBAR_H);
        let w = 700usize;
        let h = 420usize;
        let base_x = ((sw - w) / 2) as i32;
        let base_y = ((desktop_h - h) / 2) as i32;
        let off = ((id - 1) % 6) as i32 * 28;
        let win = Window {
            x: base_x + off,
            y: base_y + off,
            w,
            h,
            title,
            body,
            close_hover: false,
            close_pressed: false,
            min_hover: false,
            min_pressed: false,
            minimized: false,
            dragging: false,
            drag_offset: (0, 0),
            app_id: None,
        };
        proof {
            let f = match file { Some(b) => Some(b@), None => None };
            assert(text@ == about_text(f));
            assert(win@ == about_window(id as int, f, sw as int, sh as int));
        }
        self.windows.push(win);
        assert(self@.windows =~= old(self)@.windows.push(self.windows@.last()@));
    }

    /// Open the chrome of an app window with a `content_w`×`content_h`
    /// content area.
    pub fn open_app_chrome(&mut self, app_id: WindowId, title: String, content_w: u32, content_h: u32, sw: usize, sh: usize)
        requires
            old(self)@.wf(),
            old(self)@.windows.len() < WINDOWS_MAX,
            old(self)@.n_opened < u32::MAX,
            content_w <= SIDE_MAX,
            content_h + TITLE_H <= SIDE_MAX,
            sw <= COORD_MAX,
            sh <= COORD_MAX,
        ensures
            final(self)@.wf(),
            final(self)@ == (WmView {
                windows: old(self)@.windows.push(app_window(app_id, title@, content_w as int, content_h as int,
                    old(self)@.n_opened + 1, sw as int, sh as int)),
                n_opened: old(self)@.n_opened + 1,
                ..old(self)@
            }),
    {
        self.n_opened = self.n_opened + 1;
        let desktop_h = sh.saturating_sub(TASKBAR_H);
        let w = content_w as usize;
        let h = content_h as usize + TITLE_H;
        let base_x = (sw.saturating_sub(w) / 2) as i32;
        let base_y = (desktop_h.saturating_sub(h) / 2) as i32;
        let off = ((self.n_opened - 1) % 6) as i32 * 28;
        let win = Window {
            x: base_x + off,
            y: base_y + off,
            w,
            h,
            title,
            body: Vec::new(),
            close_hover: false,
            close_pressed: false,
            min_hover: false,
            min_pressed: false,
            minimized: false,
            dragging: false,
            drag_offset: (0, 0),
            app_id: Some(app_id),
        };
        assert(win@.body =~= Seq::<Seq<char>>::empty());
        self.windows.push(win);
        assert(self@.windows =~= old(self)@.windows.push(self.windows@.last()@));
    }

    /// Drop the chrome of app window `app_id` (every window that carries it).
    pub fn remove_app_windows(&mut self, app_id: WindowId)
        requires
            old(self)@.wf(),
        ensures
            final(self)@.wf(),
            final(self)@ == (WmView { windows: without_app(old(self)@.windows, app_id), ..old(self)@ }),
    {
        let ghost ws = old(self)@.windows;
        let ghost pred = |w: WinView| w.app_id != Some(app_id);
        let mut i: usize = 0;
        let ghost mut k: int = 0;
        while i < self.windows.len()
            invariant
                0 <= i <= self.windows@.len(),
                0 <= k <= ws.len(),
                self@.windows.subrange(0, i as int) == ws.subrange(0, k).filter(pred),
                self@.windows.subrange(i as int, self@.windows.len() as int) == ws.subrange(k, ws.len() as int),
                self.windows@.len() - i == ws.len() - k,
                pred == (|w: WinView| w.app_id != Some(app_id)),
                ws == old(self)@.windows,
                self@ == (WmView { windows: self@.windows, ..old(self)@ }),
            decreases ws.len() - k,
        {
            let ghost before = self@.windows;
            assert(ws.subrange(0, k + 1) =~= ws.subrange(0, k).push(ws[k]));
            assert(before[i as int] == ws[k]) by {
                assert(before.subrange(i as int, before.len() as int)[0] == ws.subrange(k, ws.len() as int)[0]);
            }
            if self.windows[i].app_id == Some(app_id) {
                let _ = self.windows.remove(i);
                proof {
                    assert(ws.subrange(0, k).push(ws[k]).filter(pred) == ws.subrange(0, k).filter(pred)) by {
                        ws.subrange(0, k).lemma_filter_push(ws[k], pred);
                    }
                    assert(self@.windows.subrange(0, i as int) =~= before.subrange(0, i as int));
                    assert(self@.windows.subrange(i as int, self@.windows.len() as int) =~= before.subrange(i + 1, before.len() as int));
                    assert(ws.subrange(k + 1, ws.len() as int) =~= ws.subrange(k, ws.len() as int).subrange(1, ws.len() - k));
                    k = k + 1;
                }
            } else {
                proof {
                    ws.subrange(0, k).lemma_filter_push(ws[k], pred);
                    assert(self@.windows.subrange(0, i + 1) =~= before.subrange(0, i as int).push(before[i as int]));
                    assert(ws.subrange(k + 1, ws.len() as int) =~= ws.subrange(k, ws.len() as int).subrange(1, ws.len() - k));
                    assert(self@.windows.subrange(i + 1, self@.windows.len() as int) =~= before.subrange(i as int, before.len() as int).subrange(1, before.len() - i));
                    k = k + 1;
                }
                i = i + 1;
            }
        }
        proof {
            assert(ws.subrange(0, k) =~= ws);
            assert(self@.windows.subrange(0, i as int) =~= self@.windows);
            assert(self@.windows =~= without_app(ws, app_id));
            assert forall|j: int| 0 <= j < self@.windows.len() implies #[trigger] self@.windows[j].wf() by {
                let w = self@.windows[j];
                assert(ws.filter(pred).contains(w));
                ws.lemma_filter_contains_rev(pred, w);
            }
        }
    }
}


// ---- laws of the window manager ----

/// Click-to-raise focuses: raising a visible window puts it on top, where
/// it is the focused window, and keeps every other window in its order.
pub proof fn lemma_raise_focuses(ws: Seq<WinView>, idx: int)
    requires
        0 <= idx < ws.len(),
        ws.len() <= usize::MAX,
        !ws[idx].minimized,
    ensures
        raised(ws, idx).len() == ws.len(),
        raised(ws, idx).last() == ws[idx],
        raised(ws, idx).drop_last() == ws.remove(idx),
        focused(raised(ws, idx)) == Some((ws.len() - 1) as usize),
{
    if idx + 1 < ws.len() {
        assert(raised(ws, idx).drop_last() =~= ws.remove(idx));
    } else {
        assert(ws.drop_last() =~= ws.remove(idx));
    }
}

/// The focused window is the last visible one: every window above it is
/// minimized.
pub proof fn lemma_focused_is_last_visible(ws: Seq<WinView>)
    requires
        ws.len() <= usize::MAX,
    ensures
        focused(ws) matches Some(i) ==> i < ws.len() && !ws[i as int].minimized
            && forall|j: int| i < j < ws.len() ==> #[trigger] ws[j].minimized,
        focused(ws) is None ==> forall|j: int| 0 <= j < ws.len() ==> #[trigger] ws[j].minimized,
{
    lemma_focused_last(ws, ws.len() as int);
}

proof fn lemma_focused_last(ws: Seq<WinView>, n: int)
    requires
        0 <= n <= ws.len(),
        ws.len() <= usize::MAX,
    ensures
        focused_in(ws, n) matches Some(i) ==> i < n && !ws[i as int].minimized
            && forall|j: int| i < j < n ==> #[trigger] ws[j].minimized,
        focused_in(ws, n) is None ==> forall|j: int| 0 <= j < n ==> #[trigger] ws[j].minimized,
    decreases n,
{
    if n > 0 {
        lemma_focused_last(ws, n - 1);
    }
}

/// Minimise and restore: clicking the focused window's task button twice
/// brings it back, on top and focused.
pub proof fn lemma_toggle_twice(ws: Seq<WinView>, idx: int)
    requires
        0 <= idx < ws.len(),
        ws.len() <= usize::MAX,
        focused(ws) == Some(idx as usize),
    ensures
        toggled(ws, idx)[idx].minimized,
        focused(toggled(toggled(ws, idx), idx)) == Some((ws.len() - 1) as usize),
        toggled(toggled(ws, idx), idx).last() == (WinView {
            minimized: false,
            close_hover: false,
            close_pressed: false,
            min_hover: false,
            min_pressed: false,
            dragging: false,
            ..ws[idx]
        }),
        toggled(toggled(ws, idx), idx).len() == ws.len(),
{
    lemma_focused_is_last_visible(ws);
    let t1 = toggled(ws, idx);
    assert(!ws[idx].minimized);
    assert(t1[idx].minimized);
    let w2 = WinView { minimized: false, ..t1[idx] };
    let u = t1.update(idx, w2);
    lemma_raise_focuses(u, idx);
}

/// Every Start menu row lies inside the menu.
pub proof fn lemma_menu_rows_inside(sh: int, px: int, py: int)
    requires
        TASKBAR_H <= sh,
    ensures
        menu_item_at_spec(sh, px, py) is Some ==> menu_contains_spec(sh, px, py),
{
    let m = menu_rect_spec(sh);
    let y0 = m.1 + MENU_HDR_H + MENU_PAD_TOP;
    if menu_item_at_spec(sh, px, py) is Some {
        let k = (py - y0) / (MENU_ROW_H as int);
        assert(py - y0 == k * MENU_ROW_H + (py - y0) % (MENU_ROW_H as int));
        assert(k * MENU_ROW_H <= (MENU_ITEM_COUNT - 1) * MENU_ROW_H) by (nonlinear_arith)
            requires k < MENU_ITEM_COUNT;
    }
}

/// Every context menu row lies inside the context menu.
pub proof fn lemma_ctx_rows_inside(v: WmView, sw: int, sh: int, px: int, py: int)
    ensures
        ctx_item_at_spec(v, sw, sh, px, py) is Some ==> ctx_contains_spec(v, sw, sh, px, py),
{
    let m = ctx_rect_spec(sw, sh, v.ctx_x, v.ctx_y);
    let y0 = m.1 + CTX_PAD_TOP;
    if ctx_item_at_spec(v, sw, sh, px, py) is Some {
        let k = (py - y0) / (CTX_ROW_H as int);
        assert(py - y0 == k * CTX_ROW_H + (py - y0) % (CTX_ROW_H as int));
        assert(k * CTX_ROW_H <= (CTX_ITEM_COUNT - 1) * CTX_ROW_H) by (nonlinear_arith)
            requires k < CTX_ITEM_COUNT;
    }
}

} // verus!
