//! One iteration of the desktop event loop, as a function from the window
//! manager's state and what happened since the last iteration (mouse, clock,
//! keys, app requests) to the new state plus what the caller must do: which
//! app windows get which events, which menu actions run, whether to repaint.
//!
//! The iteration runs in stages; each is specified by a function on
//! [`StepView`] and the whole iteration by their composition, [`step_spec`].

use vstd::prelude::*;
use crate::sdk::{Event, WindowId};
use crate::mouse::MouseState;
use crate::app_wm::{AppOp, AppOpView};
use crate::desktop::{
    WM, WmView, WinView, Window, MenuAction, TASKBAR_H, TITLE_H, COORD_MAX, SIDE_MAX, WINDOWS_MAX,
    focused, topmost_at, raised, toggled, app_window, without_app, menu_contains_spec,
    start_contains_spec, ctx_contains_spec, task_btn_at_spec, menu_item_at_spec, menu_action_spec,
    ctx_item_at_spec, menu_contains, start_contains, ctx_contains, task_btn_at, menu_item_at, ctx_item_at,
    menu_invoke, topmost_in, focused_in, task_btn_from, lemma_topmost_in_range,
};

verus! {

/// What the caller must do to an app window's state.
#[derive(Copy, Clone, Debug, PartialEq, Eq, Structural)]
pub enum AppEffect {
    /// Deliver an event to the app.
    Push(WindowId, Event),
    /// The app closed its window: free its state.
    Destroy(WindowId),
    /// The user clicked the close button.
    MarkClosed(WindowId),
}

/// A menu action the caller must carry out.
#[derive(Copy, Clone, Debug, PartialEq, Eq, Structural)]
pub enum DeskAction {
    /// Start menu row.
    Menu(MenuAction),
    /// "About" row of the context menu: open an About window.
    About,
}

/// What happened since the previous iteration.
#[derive(Copy, Clone, Debug)]
pub struct StepInput {
    pub prev: MouseState,
    pub now: MouseState,
    pub prev_ticks: u64,
    pub ticks: u64,
    /// An app presented a new frame.
    pub app_dirty: bool,
    pub sw: usize,
    pub sh: usize,
}

pub struct StepOutput {
    /// The desktop must be repainted.
    pub dirty: bool,
    /// Effects on app window states, in order.
    pub effects: Vec<AppEffect>,
    /// Menu actions to carry out, in order.
    pub actions: Vec<DeskAction>,
}

/// State threaded through the stages.
pub struct StepView {
    pub wm: WmView,
    pub dirty: bool,
    pub effects: Seq<AppEffect>,
    pub actions: Seq<DeskAction>,
}

pub open spec fn pressed(i: StepInput) -> bool {
    !i.prev.left && i.now.left
}

pub open spec fn released(i: StepInput) -> bool {
    i.prev.left && !i.now.left
}

pub open spec fn rpressed(i: StepInput) -> bool {
    !i.prev.right && i.now.right
}

pub open spec fn in_taskbar(i: StepInput) -> bool {
    i.now.y >= i.sh - TASKBAR_H
}

/// Inputs the loop can receive: screen within the coordinate range and tall
/// enough for the taskbar and a title bar, mouse on the screen's range.
pub open spec fn input_ok(i: StepInput) -> bool {
    &&& i.sw <= COORD_MAX
    &&& TASKBAR_H + TITLE_H <= i.sh <= COORD_MAX
    &&& 0 <= i.prev.x <= COORD_MAX
    &&& 0 <= i.prev.y <= COORD_MAX
    &&& 0 <= i.now.x <= COORD_MAX
    &&& 0 <= i.now.y <= COORD_MAX
}

/// Requests from apps that the window manager can take.
pub open spec fn ops_ok(v: WmView, ops: Seq<AppOpView>) -> bool {
    &&& v.windows.len() + ops.len() <= WINDOWS_MAX
    &&& v.n_opened + ops.len() < u32::MAX
    &&& forall|k: int| 0 <= k < ops.len() ==> match #[trigger] ops[k] {
        AppOpView::Open { content_w, content_h, .. } => content_w <= SIDE_MAX && content_h + TITLE_H <= SIDE_MAX,
        AppOpView::Close { .. } => true,
    }
}

/// Whether request `op` can be taken after `m` others were.
pub open spec fn op_fits(v: WmView, m: nat, op: AppOpView) -> bool {
    &&& v.windows.len() + m + 1 <= WINDOWS_MAX
    &&& v.n_opened + m + 1 < u32::MAX
    &&& match op {
        AppOpView::Open { content_w, content_h, .. } => content_w <= SIDE_MAX && content_h + TITLE_H <= SIDE_MAX,
        AppOpView::Close { .. } => true,
    }
}

/// The requests the window manager takes, in order: each one that fits
/// after those taken before it.
pub open spec fn admitted(v: WmView, ops: Seq<AppOpView>) -> Seq<AppOpView>
    decreases ops.len(),
{
    if ops.len() == 0 {
        Seq::empty()
    } else {
        let prev = admitted(v, ops.drop_last());
        if op_fits(v, prev.len(), ops.last()) { prev.push(ops.last()) } else { prev }
    }
}

/// The views of a list of requests.
pub open spec fn op_views(ops: Seq<AppOp>) -> Seq<AppOpView> {
    ops.map_values(|o: AppOp| o@)
}

/// What is admitted can always be taken.
pub proof fn lemma_admitted_ok(v: WmView, ops: Seq<AppOpView>)
    requires
        v.windows.len() <= WINDOWS_MAX,
        v.n_opened < u32::MAX,
    ensures
        ops_ok(v, admitted(v, ops)),
    decreases ops.len(),
{
    if ops.len() > 0 {
        lemma_admitted_ok(v, ops.drop_last());
        let prev = admitted(v, ops.drop_last());
        if op_fits(v, prev.len(), ops.last()) {
            let a = prev.push(ops.last());
            assert forall|k: int| 0 <= k < a.len() implies match #[trigger] a[k] {
                AppOpView::Open { content_w, content_h, .. } => content_w <= SIDE_MAX && content_h + TITLE_H <= SIDE_MAX,
                AppOpView::Close { .. } => true,
            } by {
                if k < prev.len() {
                    assert(a[k] == prev[k]);
                } else {
                    assert(a[k] == ops.last());
                }
            }
        }
    }
}

// ---- stage specifications ----

/// Clock changed second or an app presented: repaint.
pub open spec fn s_clock(st: StepView, i: StepInput) -> StepView {
    StepView { dirty: st.dirty || i.ticks / 18 != i.prev_ticks / 18 || i.app_dirty, ..st }
}

/// The character a key event carries for a typed byte: printable ASCII
/// (0x20..=0x7E) as itself, anything else as 0.
pub open spec fn key_char(b: u8) -> u8 {
    if 0x20 <= b <= 0x7e { b } else { 0 }
}

/// The character a key event carries for typed byte `b` (see [`key_char`]).
pub fn key_char_of(b: u8) -> (c: u8)
    ensures
        c == key_char(b),
{
    if 0x20 <= b && b <= 0x7e { b } else { 0 }
}

/// Keys go to the focused window when it belongs to an app.
pub open spec fn s_keys(st: StepView, keys: Seq<u8>) -> StepView {
    match focused(st.wm.windows) {
        Some(idx) => match st.wm.windows[idx as int].app_id {
            Some(a) => StepView {
                effects: st.effects + keys.map_values(|b: u8| AppEffect::Push(a, Event::KeyDown { ch: key_char(b) })),
                ..st
            },
            None => st,
        },
        None => st,
    }
}

/// Apply one app request.
pub open spec fn s_op(st: StepView, op: AppOpView, sw: int, sh: int) -> StepView {
    match op {
        AppOpView::Open { app_id, title, content_w, content_h } => StepView {
            wm: WmView {
                windows: st.wm.windows.push(app_window(app_id, title, content_w as int, content_h as int, st.wm.n_opened + 1, sw, sh)),
                n_opened: st.wm.n_opened + 1,
                ..st.wm
            },
            dirty: true,
            ..st
        },
        AppOpView::Close { app_id } => StepView {
            wm: WmView { windows: without_app(st.wm.windows, app_id), ..st.wm },
            dirty: true,
            effects: st.effects.push(AppEffect::Destroy(app_id)),
            ..st
        },
    }
}

/// Apply app requests in order.
pub open spec fn s_ops(st: StepView, ops: Seq<AppOpView>, sw: int, sh: int) -> StepView
    decreases ops.len(),
{
    if ops.len() == 0 {
        st
    } else {
        s_ops(s_op(st, ops[0], sw, sh), ops.drop_first(), sw, sh)
    }
}

/// Clicks in the content area of the topmost app window under the mouse go
/// to the app, in content-local coordinates.
pub open spec fn s_route(st: StepView, i: StepInput) -> StepView {
    match topmost_at(st.wm.windows, i.now.x as int, i.now.y as int) {
        Some(idx) => {
            let w = st.wm.windows[idx as int];
            let top = w.y + TITLE_H + 1;
            match w.app_id {
                Some(a) => if i.now.y >= top {
                    let lx = (i.now.x - w.x) as i32;
                    let ly = (i.now.y - top) as i32;
                    let e1 = if pressed(i) { seq![AppEffect::Push(a, Event::MouseDown { x: lx, y: ly })] } else { Seq::empty() };
                    let e2 = if released(i) { seq![AppEffect::Push(a, Event::MouseUp { x: lx, y: ly })] } else { Seq::empty() };
                    StepView { effects: st.effects + e1 + e2, ..st }
                } else {
                    st
                },
                None => st,
            }
        },
        None => st,
    }
}

pub open spec fn closed_menu(v: WmView) -> WmView {
    WmView { menu_open: false, menu_hover: None, menu_pressed: None, ..v }
}

pub open spec fn closed_ctx(v: WmView) -> WmView {
    WmView { ctx_open: false, ctx_hover: None, ctx_pressed: None, ..v }
}

/// A press outside the Start menu (and not on Start) closes the menu.
pub open spec fn s_menu_outside(st: StepView, i: StepInput) -> StepView {
    if pressed(i) && st.wm.menu_open && !menu_contains_spec(i.sh as int, i.now.x as int, i.now.y as int)
        && !start_contains_spec(i.sh as int, i.now.x as int, i.now.y as int) {
        StepView { wm: closed_menu(st.wm), dirty: true, ..st }
    } else {
        st
    }
}

/// A press outside the context menu closes it.
pub open spec fn s_ctx_outside(st: StepView, i: StepInput) -> StepView {
    if pressed(i) && st.wm.ctx_open && !ctx_contains_spec(st.wm, i.sw as int, i.sh as int, i.now.x as int, i.now.y as int) {
        StepView { wm: closed_ctx(st.wm), dirty: true, ..st }
    } else {
        st
    }
}

/// Right press: close an open context menu, or open one on the bare desktop
/// (closing the Start menu).
pub open spec fn s_rclick(st: StepView, i: StepInput) -> StepView {
    if rpressed(i) {
        let on_menu = st.wm.menu_open && menu_contains_spec(i.sh as int, i.now.x as int, i.now.y as int);
        let on_window = topmost_at(st.wm.windows, i.now.x as int, i.now.y as int) is Some;
        if st.wm.ctx_open {
            StepView { wm: closed_ctx(st.wm), dirty: true, ..st }
        } else if !in_taskbar(i) && !on_menu && !on_window {
            let opened = WmView {
                ctx_open: true,
                ctx_x: i.now.x as int,
                ctx_y: i.now.y as int,
                ctx_hover: None,
                ctx_pressed: None,
                ..st.wm
            };
            StepView { wm: if opened.menu_open { closed_menu(opened) } else { opened }, dirty: true, ..st }
        } else {
            st
        }
    } else {
        st
    }
}

/// A press on a window (outside the open popups) raises it; on its title bar
/// but not on its buttons it starts a drag.
pub open spec fn s_press(st: StepView, i: StepInput) -> StepView {
    let press_in_menu = pressed(i) && st.wm.menu_open && menu_contains_spec(i.sh as int, i.now.x as int, i.now.y as int);
    let press_in_ctx = pressed(i) && st.wm.ctx_open && ctx_contains_spec(st.wm, i.sw as int, i.sh as int, i.now.x as int, i.now.y as int);
    if pressed(i) && !press_in_menu && !press_in_ctx {
        match topmost_at(st.wm.windows, i.now.x as int, i.now.y as int) {
            Some(idx) => StepView {
                wm: WmView { windows: grabbed(raised(st.wm.windows, idx as int), i.now.x as int, i.now.y as int), ..st.wm },
                dirty: st.dirty || idx + 1 < st.wm.windows.len(),
                ..st
            },
            None => st,
        }
    } else {
        st
    }
}

/// The topmost window starts a drag when (x, y) is on its title bar but not
/// on its buttons; the drag keeps the offset of the grab point.
pub open spec fn grabbed(ws: Seq<WinView>, x: int, y: int) -> Seq<WinView> {
    let last = ws.len() - 1;
    let w = ws[last];
    if w.title_bar_contains(x, y) && !w.close_contains(x, y) && !w.min_contains(x, y) {
        ws.update(last, WinView { dragging: true, drag_offset: (x - w.x, y - w.y), ..w })
    } else {
        ws
    }
}

/// Where a dragged window goes: the mouse minus the grab offset, kept on
/// screen and above the taskbar.
pub open spec fn drag_target(w: WinView, i: StepInput) -> (int, int) {
    let max_x = i.sw - w.w;
    let max_y = i.sh - TASKBAR_H - TITLE_H;
    let nx0 = i.now.x - w.drag_offset.0;
    let ny0 = i.now.y - w.drag_offset.1;
    let nx1 = if nx0 > 0 { nx0 } else { 0 };
    let ny1 = if ny0 > 0 { ny0 } else { 0 };
    (if nx1 < max_x { nx1 } else { max_x }, if ny1 < max_y { ny1 } else { max_y })
}

/// Release ends a drag; while dragging, the topmost window follows the
/// mouse, kept on screen above the taskbar.
pub open spec fn s_drag(st: StepView, i: StepInput) -> StepView {
    let ws = st.wm.windows;
    if ws.len() == 0 {
        st
    } else {
        let k = ws.len() - 1;
        let w = ws[k];
        let ended = released(i) && w.dragging;
        let w1 = if ended { WinView { dragging: false, ..w } } else { w };
        let d1 = st.dirty || ended;
        if w1.dragging {
            let nx = drag_target(w1, i).0;
            let ny = drag_target(w1, i).1;
            let moved = nx != w1.x || ny != w1.y;
            let w2 = if moved { WinView { x: nx, y: ny, ..w1 } } else { w1 };
            StepView { wm: WmView { windows: ws.update(k, w2), ..st.wm }, dirty: d1 || moved, ..st }
        } else {
            StepView { wm: WmView { windows: ws.update(k, w1), ..st.wm }, dirty: d1, ..st }
        }
    }
}

/// Hover / press flags of the close and minimise buttons of window `k`:
/// only the focused window under the mouse, when not dragging, shows them.
pub open spec fn button_flags(w: WinView, k: int, top: Option<usize>, foc: Option<usize>, i: StepInput) -> (bool, bool, bool, bool) {
    let is_top = top == Some(k as usize) && foc == Some(k as usize);
    let c_hov = is_top && !w.dragging && w.close_contains(i.now.x as int, i.now.y as int);
    let m_hov = is_top && !w.dragging && w.min_contains(i.now.x as int, i.now.y as int);
    (c_hov, c_hov && i.now.left, m_hov, m_hov && i.now.left)
}

pub open spec fn with_buttons(w: WinView, f: (bool, bool, bool, bool)) -> WinView {
    WinView { close_hover: f.0, close_pressed: f.1, min_hover: f.2, min_pressed: f.3, ..w }
}

pub open spec fn flags_changed(w: WinView, f: (bool, bool, bool, bool)) -> bool {
    f.0 != w.close_hover || f.1 != w.close_pressed || f.2 != w.min_hover || f.3 != w.min_pressed
}

/// Some window among the first `n` changes its button flags.
pub open spec fn any_flags_changed(ws: Seq<WinView>, n: int, top: Option<usize>, foc: Option<usize>, i: StepInput) -> bool
    decreases n,
{
    if n <= 0 {
        false
    } else {
        any_flags_changed(ws, n - 1, top, foc, i) || flags_changed(ws[n - 1], button_flags(ws[n - 1], n - 1, top, foc, i))
    }
}

pub open spec fn s_hover(st: StepView, i: StepInput) -> StepView {
    let ws = st.wm.windows;
    let top = topmost_at(ws, i.now.x as int, i.now.y as int);
    let foc = focused(ws);
    StepView {
        wm: WmView {
            windows: Seq::new(ws.len(), |k: int| with_buttons(ws[k], button_flags(ws[k], k, top, foc, i))),
            ..st.wm
        },
        dirty: st.dirty || any_flags_changed(ws, ws.len() as int, top, foc, i),
        ..st
    }
}

/// A click (press and release) on a window's close button closes it (an app
/// window is told); one on its minimise button minimises it.
pub open spec fn s_release_buttons(st: StepView, i: StepInput) -> StepView {
    let ws = st.wm.windows;
    if released(i) {
        match (topmost_at(ws, i.prev.x as int, i.prev.y as int), topmost_at(ws, i.now.x as int, i.now.y as int)) {
            (Some(p), Some(n)) => if p == n {
                let w = ws[p as int];
                if w.close_contains(i.prev.x as int, i.prev.y as int) && w.close_contains(i.now.x as int, i.now.y as int) {
                    StepView {
                        wm: WmView { windows: ws.remove(p as int), ..st.wm },
                        dirty: true,
                        effects: match w.app_id {
                            Some(a) => st.effects.push(AppEffect::MarkClosed(a)),
                            None => st.effects,
                        },
                        ..st
                    }
                } else if w.min_contains(i.prev.x as int, i.prev.y as int) && w.min_contains(i.now.x as int, i.now.y as int) {
                    StepView { wm: WmView { windows: toggled(ws, p as int), ..st.wm }, dirty: true, ..st }
                } else {
                    st
                }
            } else {
                st
            },
            _ => st,
        }
    } else {
        st
    }
}

pub open spec fn s_start_hover(st: StepView, i: StepInput) -> StepView {
    let hov = in_taskbar(i) && start_contains_spec(i.sh as int, i.now.x as int, i.now.y as int);
    let prs = hov && i.now.left;
    if hov != st.wm.start_hover || prs != st.wm.start_pressed {
        StepView { wm: WmView { start_hover: hov, start_pressed: prs, ..st.wm }, dirty: true, ..st }
    } else {
        st
    }
}

/// A click on Start toggles the Start menu.
pub open spec fn s_start_click(st: StepView, i: StepInput) -> StepView {
    if released(i) && start_contains_spec(i.sh as int, i.prev.x as int, i.prev.y as int)
        && start_contains_spec(i.sh as int, i.now.x as int, i.now.y as int) {
        StepView {
            wm: if st.wm.menu_open { closed_menu(st.wm) } else { WmView { menu_open: true, ..st.wm } },
            dirty: true,
            ..st
        }
    } else {
        st
    }
}

pub open spec fn s_task_hover(st: StepView, i: StepInput) -> StepView {
    let hov = if in_taskbar(i) { task_btn_at_spec(st.wm.windows.len() as int, i.sh as int, i.now.x as int, i.now.y as int) } else { None };
    let prs = if i.now.left { hov } else { None };
    if hov != st.wm.task_hover || prs != st.wm.task_pressed {
        StepView { wm: WmView { task_hover: hov, task_pressed: prs, ..st.wm }, dirty: true, ..st }
    } else {
        st
    }
}

/// A click on a task button minimises, restores or raises its window.
pub open spec fn s_task_click(st: StepView, i: StepInput) -> StepView {
    let n = st.wm.windows.len() as int;
    if released(i) {
        match (task_btn_at_spec(n, i.sh as int, i.prev.x as int, i.prev.y as int), task_btn_at_spec(n, i.sh as int, i.now.x as int, i.now.y as int)) {
            (Some(p), Some(q)) => if p == q {
                StepView {
                    wm: WmView {
                        windows: toggled(st.wm.windows, p as int),
                        task_hover: task_btn_at_spec(n, i.sh as int, i.now.x as int, i.now.y as int),
                        task_pressed: None,
                        ..st.wm
                    },
                    dirty: true,
                    ..st
                }
            } else {
                st
            },
            _ => st,
        }
    } else {
        st
    }
}

pub open spec fn s_menu_hover(st: StepView, i: StepInput) -> StepView {
    let hov = if st.wm.menu_open { menu_item_at_spec(i.sh as int, i.now.x as int, i.now.y as int) } else { None };
    let prs = if i.now.left { hov } else { None };
    if hov != st.wm.menu_hover || prs != st.wm.menu_pressed {
        StepView { wm: WmView { menu_hover: hov, menu_pressed: prs, ..st.wm }, dirty: true, ..st }
    } else {
        st
    }
}

/// A click on a Start menu row closes the menu and runs the row's action.
pub open spec fn s_menu_click(st: StepView, i: StepInput) -> StepView {
    if released(i) && st.wm.menu_open {
        match (menu_item_at_spec(i.sh as int, i.prev.x as int, i.prev.y as int), menu_item_at_spec(i.sh as int, i.now.x as int, i.now.y as int)) {
            (Some(p), Some(q)) => if p == q {
                StepView {
                    wm: closed_menu(st.wm),
                    dirty: true,
                    actions: match menu_action_spec(p as int) {
                        Some(a) => st.actions.push(DeskAction::Menu(a)),
                        None => st.actions,
                    },
                    ..st
                }
            } else {
                st
            },
            _ => st,
        }
    } else {
        st
    }
}

pub open spec fn s_ctx_hover(st: StepView, i: StepInput) -> StepView {
    let hov = if st.wm.ctx_open { ctx_item_at_spec(st.wm, i.sw as int, i.sh as int, i.now.x as int, i.now.y as int) } else { None };
    let prs = if i.now.left { hov } else { None };
    if hov != st.wm.ctx_hover || prs != st.wm.ctx_pressed {
        StepView { wm: WmView { ctx_hover: hov, ctx_pressed: prs, ..st.wm }, dirty: true, ..st }
    } else {
        st
    }
}

/// A click on a context menu row closes the menu; "Refresh" repaints,
/// "About" opens an About window.
pub open spec fn s_ctx_click(st: StepView, i: StepInput) -> StepView {
    if released(i) && st.wm.ctx_open {
        match (ctx_item_at_spec(st.wm, i.sw as int, i.sh as int, i.prev.x as int, i.prev.y as int),
            ctx_item_at_spec(st.wm, i.sw as int, i.sh as int, i.now.x as int, i.now.y as int)) {
            (Some(p), Some(q)) => if p == q {
                if p == 0 {
                    StepView { wm: closed_ctx(st.wm), dirty: true, ..st }
                } else if p == 1 {
                    StepView { wm: closed_ctx(st.wm), dirty: true, actions: st.actions.push(DeskAction::About), ..st }
                } else {
                    StepView { wm: closed_ctx(st.wm), ..st }
                }
            } else {
                st
            },
            _ => st,
        }
    } else {
        st
    }
}

/// One whole iteration of the event loop.
pub open spec fn step_spec(v: WmView, i: StepInput, keys: Seq<u8>, ops: Seq<AppOpView>) -> StepView {
    let s0 = StepView { wm: v, dirty: false, effects: Seq::empty(), actions: Seq::empty() };
    let s1 = s_keys(s_clock(s0, i), keys);
    let s2 = s_ops(s1, ops, i.sw as int, i.sh as int);
    let s3 = s_rclick(s_ctx_outside(s_menu_outside(s_route(s2, i), i), i), i);
    let s4 = s_release_buttons(s_hover(s_drag(s_press(s3, i), i), i), i);
    let s5 = s_task_click(s_task_hover(s_start_click(s_start_hover(s4, i), i), i), i);
    s_ctx_click(s_ctx_hover(s_menu_click(s_menu_hover(s5, i), i), i), i)
}


/// The stage state of a window manager and an output being built.
pub open spec fn sv(wm: WM, out: StepOutput) -> StepView {
    StepView { wm: wm@, dirty: out.dirty, effects: out.effects@, actions: out.actions@ }
}

proof fn lemma_wf_update(ws: Seq<WinView>, k: int, w: WinView)
    requires
        0 <= k < ws.len(),
        forall|j: int| 0 <= j < ws.len() ==> #[trigger] ws[j].wf(),
        w.wf(),
    ensures
        forall|j: int| 0 <= j < ws.update(k, w).len() ==> #[trigger] ws.update(k, w)[j].wf(),
{
    assert forall|j: int| 0 <= j < ws.update(k, w).len() implies #[trigger] ws.update(k, w)[j].wf() by {
        if j != k {
            assert(ws.update(k, w)[j] == ws[j]);
        }
    }
}

impl WM {
    /// Replace window `k` (same model except what the caller changes).
    fn put_window(&mut self, k: usize, w: Window)
        requires
            k < old(self).windows@.len(),
        ensures
            final(self)@ == (WmView { windows: old(self)@.windows.update(k as int, w@), ..old(self)@ }),
    {
        let _ = self.windows.remove(k);
        self.windows.insert(k, w);
        assert(self@.windows =~= old(self)@.windows.update(k as int, w@));
    }

    fn stage_keys(&mut self, out: &mut StepOutput, keys: &Vec<u8>)
        requires
            old(self)@.wf(),
        ensures
            final(self)@.wf(),
            sv(*final(self), *final(out)) == s_keys(sv(*old(self), *old(out)), keys@),
    {
        let foc = self.focused_idx();
        proof {
            crate::desktop::lemma_focused_in_range(self@.windows, self@.windows.len() as int);
        }
        match foc {
            Some(idx) => {
                assert(self@.windows[idx as int] == self.windows@[idx as int]@);
                match self.windows[idx].app_id {
                    Some(a) => {
                        let ghost e0 = out.effects@;
                        let mut k: usize = 0;
                        while k < keys.len()
                            invariant
                                k <= keys@.len(),
                                out.effects@ == e0 + keys@.subrange(0, k as int).map_values(|b: u8| AppEffect::Push(a, Event::KeyDown { ch: key_char(b) })),
                                out.dirty == old(out).dirty,
                                out.actions@ == old(out).actions@,
                                e0 == old(out).effects@,
                            decreases keys@.len() - k,
                        {
                            out.effects.push(AppEffect::Push(a, Event::KeyDown { ch: key_char_of(keys[k]) }));
                            k = k + 1;
                            assert(keys@.subrange(0, k as int).map_values(|b: u8| AppEffect::Push(a, Event::KeyDown { ch: key_char(b) }))
                                =~= keys@.subrange(0, k - 1).map_values(|b: u8| AppEffect::Push(a, Event::KeyDown { ch: key_char(b) })).push(AppEffect::Push(a, Event::KeyDown { ch: key_char(keys@[k - 1]) })));
                        }
                        assert(keys@.subrange(0, k as int) =~= keys@);
                    },
                    None => {},
                }
            },
            None => {},
        }
    }

    fn stage_ops(&mut self, out: &mut StepOutput, ops: Vec<AppOp>, sw: usize, sh: usize)
        requires
            old(self)@.wf(),
            sw <= COORD_MAX,
            sh <= COORD_MAX,
            ops_ok(old(self)@, ops@.map_values(|o: AppOp| o@)),
        ensures
            final(self)@.wf(),
            final(self)@.windows.len() <= old(self)@.windows.len() + ops@.len(),
            sv(*final(self), *final(out)) == s_ops(sv(*old(self), *old(out)), ops@.map_values(|o: AppOp| o@), sw as int, sh as int),
    {
        let mut ops = ops;
        let ghost all = ops@.map_values(|o: AppOp| o@);
        let ghost n0 = old(self)@.windows.len();
        while ops.len() > 0
            invariant
                self@.wf(),
                sw <= COORD_MAX,
                sh <= COORD_MAX,
                ops_ok(self@, ops@.map_values(|o: AppOp| o@)),
                self@.windows.len() + ops@.len() <= n0 + all.len(),
                s_ops(sv(*old(self), *old(out)), all, sw as int, sh as int)
                    == s_ops(sv(*self, *out), ops@.map_values(|o: AppOp| o@), sw as int, sh as int),
            decreases ops@.len(),
        {
            let ghost rest = ops@.map_values(|o: AppOp| o@);
            let op = ops.remove(0);
            let ghost st = sv(*self, *out);
            proof {
                assert(rest[0] == op@);
                assert(ops@.map_values(|o: AppOp| o@) =~= rest.drop_first());
            }
            match op {
                AppOp::OpenWindow { app_id, title, content_w, content_h } => {
                    proof {
                        assert(match rest[0] { AppOpView::Open { content_w, content_h, .. } => content_w <= SIDE_MAX && content_h + TITLE_H <= SIDE_MAX, AppOpView::Close { .. } => true });
                    }
                    self.open_app_chrome(app_id, title, content_w, content_h, sw, sh);
                    out.dirty = true;
                },
                AppOp::CloseWindow { app_id } => {
                    self.remove_app_windows(app_id);
                    out.effects.push(AppEffect::Destroy(app_id));
                    out.dirty = true;
                    proof {
                        let f = |w: WinView| w.app_id != Some(app_id);
                        st.wm.windows.lemma_filter_len(f);
                    }
                },
            }
            proof {
                assert(sv(*self, *out) == s_op(st, rest[0], sw as int, sh as int));
                let r2 = ops@.map_values(|o: AppOp| o@);
                assert forall|k: int| 0 <= k < r2.len() implies match #[trigger] r2[k] {
                    AppOpView::Open { content_w, content_h, .. } => content_w <= SIDE_MAX && content_h + TITLE_H <= SIDE_MAX,
                    AppOpView::Close { .. } => true,
                } by {
                    assert(r2[k] == rest[k + 1]);
                }
            }
        }
    }
}


impl WM {
    fn stage_route(&mut self, out: &mut StepOutput, i: &StepInput)
        requires
            old(self)@.wf(),
            input_ok(*i),
        ensures
            final(self)@ == old(self)@,
            sv(*final(self), *final(out)) == s_route(sv(*old(self), *old(out)), *i),
    {
        let t = self.topmost_at(i.now.x, i.now.y);
        proof {
            crate::desktop::lemma_topmost_in_range(self@.windows, self@.windows.len() as int, i.now.x as int, i.now.y as int);
        }
        match t {
            Some(idx) => {
                let w = &self.windows[idx];
                assert(self@.windows[idx as int] == w@);
                assert(self@.windows[idx as int].wf());
                match w.app_id {
                    Some(a) => {
                        let content_top = w.y + TITLE_H as i32 + 1;
                        if i.now.y >= content_top {
                            let lx = i.now.x - w.x;
                            let ly = i.now.y - content_top;
                            let ghost e0 = out.effects@;
                            if !i.prev.left && i.now.left {
                                out.effects.push(AppEffect::Push(a, Event::MouseDown { x: lx, y: ly }));
                            }
                            let ghost e1 = out.effects@;
                            if i.prev.left && !i.now.left {
                                out.effects.push(AppEffect::Push(a, Event::MouseUp { x: lx, y: ly }));
                            }
                            proof {
                                let d1 = if pressed(*i) { seq![AppEffect::Push(a, Event::MouseDown { x: lx, y: ly })] } else { Seq::empty() };
                                let d2 = if released(*i) { seq![AppEffect::Push(a, Event::MouseUp { x: lx, y: ly })] } else { Seq::empty() };
                                assert(out.effects@ =~= e0 + d1 + d2);
                            }
                        }
                    },
                    None => {},
                }
            },
            None => {},
        }
    }

    fn stage_popups(&mut self, out: &mut StepOutput, i: &StepInput)
        requires
            old(self)@.wf(),
            input_ok(*i),
        ensures
            final(self)@.wf(),
            final(self)@.windows == old(self)@.windows,
            sv(*final(self), *final(out)) == s_rclick(s_ctx_outside(s_menu_outside(sv(*old(self), *old(out)), *i), *i), *i),
    {
        let pressed_now = !i.prev.left && i.now.left;
        if pressed_now && self.menu_open && !menu_contains(i.sh, i.now.x, i.now.y) && !start_contains(i.sh, i.now.x, i.now.y) {
            self.close_menu();
            out.dirty = true;
        }
        if pressed_now && self.ctx_open && !ctx_contains(self, i.sw, i.sh, i.now.x, i.now.y) {
            self.close_ctx();
            out.dirty = true;
        }
        if !i.prev.right && i.now.right {
            let in_tb = i.now.y >= i.sh as i32 - TASKBAR_H as i32;
            let on_menu = self.menu_open && menu_contains(i.sh, i.now.x, i.now.y);
            let on_window = self.topmost_at(i.now.x, i.now.y).is_some();
            if self.ctx_open {
                self.close_ctx();
                out.dirty = true;
            } else if !in_tb && !on_menu && !on_window {
                self.ctx_open = true;
                self.ctx_x = i.now.x;
                self.ctx_y = i.now.y;
                self.ctx_hover = None;
                self.ctx_pressed = None;
                if self.menu_open {
                    self.close_menu();
                }
                out.dirty = true;
            }
        }
    }

    fn stage_press(&mut self, out: &mut StepOutput, i: &StepInput)
        requires
            old(self)@.wf(),
            input_ok(*i),
        ensures
            final(self)@.wf(),
            final(self)@.windows.len() == old(self)@.windows.len(),
            sv(*final(self), *final(out)) == s_press(sv(*old(self), *old(out)), *i),
    {
        let pressed_now = !i.prev.left && i.now.left;
        let press_in_menu = pressed_now && self.menu_open && menu_contains(i.sh, i.now.x, i.now.y);
        let press_in_ctx = pressed_now && self.ctx_open && ctx_contains(self, i.sw, i.sh, i.now.x, i.now.y);
        if pressed_now && !press_in_menu && !press_in_ctx {
            let t = self.topmost_at(i.now.x, i.now.y);
            proof {
                crate::desktop::lemma_topmost_in_range(self@.windows, self@.windows.len() as int, i.now.x as int, i.now.y as int);
            }
            match t {
                Some(idx) => {
                    let ghost ws0 = self@.windows;
                    if self.raise(idx) {
                        out.dirty = true;
                    }
                    proof {
                        lemma_raised_wf(ws0, idx as int);
                    }
                    self.grab_title(i.now.x, i.now.y);
                },
                None => {},
            }
        }
    }

    /// Start a drag of the topmost window when (x, y) is on its title bar.
    fn grab_title(&mut self, x: i32, y: i32)
        requires
            old(self)@.wf(),
            old(self)@.windows.len() > 0,
            0 <= x <= COORD_MAX,
            0 <= y <= COORD_MAX,
        ensures
            final(self)@.wf(),
            final(self)@ == (WmView { windows: grabbed(old(self)@.windows, x as int, y as int), ..old(self)@ }),
    {
        let ghost ws = self@.windows;
        let last_idx = self.windows.len() - 1;
        assert(ws[last_idx as int] == self.windows@[last_idx as int]@);
        assert(ws[last_idx as int].wf());
        let hit = {
            let last = &self.windows[last_idx];
            last.title_bar_contains(x, y) && !last.close_contains(x, y) && !last.min_contains(x, y)
        };
        if hit {
            let mut w = self.windows.remove(last_idx);
            let off = (x - w.x, y - w.y);
            w.dragging = true;
            w.drag_offset = off;
            self.windows.insert(last_idx, w);
            proof {
                assert(self@.windows =~= ws.update(last_idx as int, w@));
                lemma_wf_update(ws, last_idx as int, w@);
            }
        }
    }

    /// Where the dragged window `w` goes for this input.
    fn drag_target(w: &Window, i: &StepInput) -> (r: (i32, i32))
        requires
            w@.wf(),
            input_ok(*i),
        ensures
            r.0 == drag_target(w@, *i).0,
            r.1 == drag_target(w@, *i).1,
    {
        let max_x = i.sw as i32 - w.w as i32;
        let max_y = i.sh as i32 - TASKBAR_H as i32 - TITLE_H as i32;
        let nx0 = i.now.x - w.drag_offset.0;
        let ny0 = i.now.y - w.drag_offset.1;
        let nx1 = if nx0 > 0 { nx0 } else { 0 };
        let ny1 = if ny0 > 0 { ny0 } else { 0 };
        (if nx1 < max_x { nx1 } else { max_x }, if ny1 < max_y { ny1 } else { max_y })
    }

    fn stage_drag(&mut self, out: &mut StepOutput, i: &StepInput)
        requires
            old(self)@.wf(),
            input_ok(*i),
        ensures
            final(self)@.wf(),
            final(self)@.windows.len() == old(self)@.windows.len(),
            sv(*final(self), *final(out)) == s_drag(sv(*old(self), *old(out)), *i),
    {
        let n = self.windows.len();
        if n == 0 {
            return;
        }
        let k = n - 1;
        let ghost ws = self@.windows;
        let mut w = self.windows.remove(k);
        assert(w@ == ws[k as int]);
        assert(ws[k as int].wf());
        if i.prev.left && !i.now.left && w.dragging {
            w.dragging = false;
            out.dirty = true;
        }
        if w.dragging {
            let (nx, ny) = WM::drag_target(&w, i);
            if nx != w.x || ny != w.y {
                w.x = nx;
                w.y = ny;
                out.dirty = true;
            }
        }
        self.windows.insert(k, w);
        proof {
            assert(self@.windows =~= ws.update(k as int, w@));
            lemma_wf_update(ws, k as int, w@);
        }
    }

    fn stage_hover(&mut self, out: &mut StepOutput, i: &StepInput)
        requires
            old(self)@.wf(),
            input_ok(*i),
        ensures
            final(self)@.wf(),
            final(self)@.windows.len() == old(self)@.windows.len(),
            sv(*final(self), *final(out)) == s_hover(sv(*old(self), *old(out)), *i),
    {
        let ghost ws = self@.windows;
        let foc = self.focused_idx();
        let top = self.topmost_at(i.now.x, i.now.y);
        let n = self.windows.len();
        let mut k: usize = 0;
        while k < n
            invariant
                k <= n,
                n == ws.len(),
                self@.windows.len() == n,
                ws == old(self)@.windows,
                foc == focused(ws),
                top == topmost_at(ws, i.now.x as int, i.now.y as int),
                input_ok(*i),
                old(self)@.wf(),
                self@ == (WmView { windows: self@.windows, ..old(self)@ }),
                forall|j: int| 0 <= j < k ==> #[trigger] self@.windows[j] == with_buttons(ws[j], button_flags(ws[j], j, top, foc, *i)),
                forall|j: int| k <= j < n ==> #[trigger] self@.windows[j] == ws[j],
                out.dirty == (old(out).dirty || any_flags_changed(ws, k as int, top, foc, *i)),
                out.effects@ == old(out).effects@,
                out.actions@ == old(out).actions@,
            decreases n - k,
        {
            let ghost cur = self@.windows;
            assert(cur[k as int] == ws[k as int]);
            assert(ws[k as int].wf());
            let mut w = self.windows.remove(k);
            assert(w@ == ws[k as int]);
            let is_top = top == Some(k) && foc == Some(k);
            let c_hov = is_top && !w.dragging && w.close_contains(i.now.x, i.now.y);
            let c_prs = c_hov && i.now.left;
            let m_hov = is_top && !w.dragging && w.min_contains(i.now.x, i.now.y);
            let m_prs = m_hov && i.now.left;
            if c_hov != w.close_hover || c_prs != w.close_pressed || m_hov != w.min_hover || m_prs != w.min_pressed {
                w.close_hover = c_hov;
                w.close_pressed = c_prs;
                w.min_hover = m_hov;
                w.min_pressed = m_prs;
                out.dirty = true;
            }
            self.windows.insert(k, w);
            proof {
                assert(self@.windows =~= cur.update(k as int, w@));
                assert(w@ == with_buttons(ws[k as int], button_flags(ws[k as int], k as int, top, foc, *i)));
            }
            k = k + 1;
        }
        proof {
            assert(self@.windows =~= Seq::new(ws.len(), |j: int| with_buttons(ws[j], button_flags(ws[j], j, top, foc, *i))));
            assert forall|j: int| 0 <= j < self@.windows.len() implies #[trigger] self@.windows[j].wf() by {
                assert(ws[j].wf());
            }
        }
    }

    fn stage_release_buttons(&mut self, out: &mut StepOutput, i: &StepInput)
        requires
            old(self)@.wf(),
            input_ok(*i),
        ensures
            final(self)@.wf(),
            final(self)@.windows.len() <= old(self)@.windows.len(),
            sv(*final(self), *final(out)) == s_release_buttons(sv(*old(self), *old(out)), *i),
    {
        if !(i.prev.left && !i.now.left) {
            return;
        }
        let ghost ws = self@.windows;
        let prev_top = self.topmost_at(i.prev.x, i.prev.y);
        let now_top = self.topmost_at(i.now.x, i.now.y);
        proof {
            crate::desktop::lemma_topmost_in_range(ws, ws.len() as int, i.now.x as int, i.now.y as int);
        }
        match (prev_top, now_top) {
            (Some(p), Some(n)) => {
                if p == n {
                    assert(ws[p as int] == self.windows@[p as int]@);
                    let close_hit = self.windows[p].close_contains(i.prev.x, i.prev.y) && self.windows[n].close_contains(i.now.x, i.now.y);
                    if close_hit {
                        match self.windows[p].app_id {
                            Some(a) => {
                                out.effects.push(AppEffect::MarkClosed(a));
                            },
                            None => {},
                        }
                        let _ = self.windows.remove(p);
                        out.dirty = true;
                        proof {
                            assert(self@.windows =~= ws.remove(p as int));
                            assert forall|j: int| 0 <= j < self@.windows.len() implies #[trigger] self@.windows[j].wf() by {
                                if j < p {
                                    assert(self@.windows[j] == ws[j]);
                                } else {
                                    assert(self@.windows[j] == ws[j + 1]);
                                }
                            }
                        }
                    } else if self.windows[p].min_contains(i.prev.x, i.prev.y) && self.windows[n].min_contains(i.now.x, i.now.y) {
                        self.toggle_task(p);
                        out.dirty = true;
                        proof {
                            lemma_toggled_wf(ws, p as int);
                        }
                    }
                }
            },
            _ => {},
        }
    }
}

impl WM {
    fn stage_taskbar(&mut self, out: &mut StepOutput, i: &StepInput)
        requires
            old(self)@.wf(),
            input_ok(*i),
        ensures
            final(self)@.wf(),
            final(self)@.windows.len() == old(self)@.windows.len(),
            sv(*final(self), *final(out)) == s_task_click(s_task_hover(s_start_click(s_start_hover(sv(*old(self), *old(out)), *i), *i), *i), *i),
    {
        let in_tb = i.now.y >= i.sh as i32 - TASKBAR_H as i32;
        let start_hov = in_tb && start_contains(i.sh, i.now.x, i.now.y);
        let start_prs = start_hov && i.now.left;
        if start_hov != self.start_hover || start_prs != self.start_pressed {
            self.start_hover = start_hov;
            self.start_pressed = start_prs;
            out.dirty = true;
        }
        let released_now = i.prev.left && !i.now.left;
        if released_now && start_contains(i.sh, i.prev.x, i.prev.y) && start_contains(i.sh, i.now.x, i.now.y) {
            if self.menu_open {
                self.close_menu();
            } else {
                self.menu_open = true;
            }
            out.dirty = true;
        }
        let t_hov = if in_tb { task_btn_at(self, i.sh, i.now.x, i.now.y) } else { None };
        let t_prs = if i.now.left { t_hov } else { None };
        if t_hov != self.task_hover || t_prs != self.task_pressed {
            self.task_hover = t_hov;
            self.task_pressed = t_prs;
            out.dirty = true;
        }
        if released_now {
            let prev_t = task_btn_at(self, i.sh, i.prev.x, i.prev.y);
            let now_t = task_btn_at(self, i.sh, i.now.x, i.now.y);
            match (prev_t, now_t) {
                (Some(p), Some(n)) => {
                    if p == n {
                        let ghost ws = self@.windows;
                        self.toggle_task(p);
                        proof {
                            lemma_toggled_wf(ws, p as int);
                        }
                        self.task_hover = task_btn_at(self, i.sh, i.now.x, i.now.y);
                        self.task_pressed = None;
                        out.dirty = true;
                    }
                },
                _ => {},
            }
        }
    }

    fn stage_start_menu(&mut self, out: &mut StepOutput, i: &StepInput)
        requires
            old(self)@.wf(),
            input_ok(*i),
        ensures
            final(self)@.wf(),
            final(self)@.windows == old(self)@.windows,
            sv(*final(self), *final(out)) == s_menu_click(s_menu_hover(sv(*old(self), *old(out)), *i), *i),
    {
        let released_now = i.prev.left && !i.now.left;
        let m_hov = if self.menu_open { menu_item_at(i.sh, i.now.x, i.now.y) } else { None };
        let m_prs = if i.now.left { m_hov } else { None };
        if m_hov != self.menu_hover || m_prs != self.menu_pressed {
            self.menu_hover = m_hov;
            self.menu_pressed = m_prs;
            out.dirty = true;
        }
        if released_now && self.menu_open {
            let p_item = menu_item_at(i.sh, i.prev.x, i.prev.y);
            let n_item = menu_item_at(i.sh, i.now.x, i.now.y);
            match (p_item, n_item) {
                (Some(p), Some(n)) => {
                    if p == n {
                        self.close_menu();
                        match menu_invoke(p) {
                            Some(a) => out.actions.push(DeskAction::Menu(a)),
                            None => {},
                        }
                        out.dirty = true;
                    }
                },
                _ => {},
            }
        }
    }

    fn stage_ctx_menu(&mut self, out: &mut StepOutput, i: &StepInput)
        requires
            old(self)@.wf(),
            input_ok(*i),
        ensures
            final(self)@.wf(),
            final(self)@.windows == old(self)@.windows,
            sv(*final(self), *final(out)) == s_ctx_click(s_ctx_hover(sv(*old(self), *old(out)), *i), *i),
    {
        let released_now = i.prev.left && !i.now.left;
        let c_hov = if self.ctx_open { ctx_item_at(self, i.sw, i.sh, i.now.x, i.now.y) } else { None };
        let c_prs = if i.now.left { c_hov } else { None };
        if c_hov != self.ctx_hover || c_prs != self.ctx_pressed {
            self.ctx_hover = c_hov;
            self.ctx_pressed = c_prs;
            out.dirty = true;
        }
        if released_now && self.ctx_open {
            let p_item = ctx_item_at(self, i.sw, i.sh, i.prev.x, i.prev.y);
            let n_item = ctx_item_at(self, i.sw, i.sh, i.now.x, i.now.y);
            match (p_item, n_item) {
                (Some(p), Some(n)) => {
                    if p == n {
                        self.close_ctx();
                        if p == 0 {
                            out.dirty = true;
                        } else if p == 1 {
                            out.actions.push(DeskAction::About);
                            out.dirty = true;
                        }
                    }
                },
                _ => {},
            }
        }
    }

    /// One iteration of the desktop loop: apply the input, the keys typed
    /// and the app requests to the window manager, and say what the caller
    /// must do (deliver events, free app windows, run menu actions, repaint).
    pub fn step(&mut self, i: &StepInput, keys: &Vec<u8>, ops: Vec<AppOp>) -> (out: StepOutput)
        requires
            old(self)@.wf(),
            input_ok(*i),
            ops_ok(old(self)@, ops@.map_values(|o: AppOp| o@)),
        ensures
            final(self)@.wf(),
            sv(*final(self), out) == step_spec(old(self)@, *i, keys@, ops@.map_values(|o: AppOp| o@)),
    {
        let mut out = StepOutput { dirty: false, effects: Vec::new(), actions: Vec::new() };
        assert(sv(*self, out) == (StepView { wm: old(self)@, dirty: false, effects: Seq::empty(), actions: Seq::empty() }));
        if i.ticks / 18 != i.prev_ticks / 18 || i.app_dirty {
            out.dirty = true;
        }
        self.stage_keys(&mut out, keys);
        self.stage_ops(&mut out, ops, i.sw, i.sh);
        self.stage_route(&mut out, i);
        self.stage_popups(&mut out, i);
        self.stage_press(&mut out, i);
        self.stage_drag(&mut out, i);
        self.stage_hover(&mut out, i);
        self.stage_release_buttons(&mut out, i);
        self.stage_taskbar(&mut out, i);
        self.stage_start_menu(&mut out, i);
        self.stage_ctx_menu(&mut out, i);
        out
    }
}

proof fn lemma_toggled_wf(ws: Seq<WinView>, idx: int)
    requires
        forall|j: int| 0 <= j < ws.len() ==> #[trigger] ws[j].wf(),
        ws.len() <= WINDOWS_MAX,
    ensures
        toggled(ws, idx).len() == ws.len(),
        forall|j: int| 0 <= j < toggled(ws, idx).len() ==> #[trigger] toggled(ws, idx)[j].wf(),
{
    if 0 <= idx < ws.len() {
        assert(ws[idx].wf());
        let ws1 = ws.update(idx, WinView { minimized: false, ..ws[idx] });
        lemma_wf_update(ws, idx, WinView { minimized: false, ..ws[idx] });
        lemma_raised_wf(ws1, idx);
        lemma_raised_wf(ws, idx);
        lemma_wf_update(ws, idx, WinView {
            minimized: true,
            close_hover: false,
            close_pressed: false,
            min_hover: false,
            min_pressed: false,
            dragging: false,
            ..ws[idx]
        });
    }
}

proof fn lemma_raised_wf(ws: Seq<WinView>, idx: int)
    requires
        forall|j: int| 0 <= j < ws.len() ==> #[trigger] ws[j].wf(),
        0 <= idx,
    ensures
        raised(ws, idx).len() == ws.len(),
        forall|j: int| 0 <= j < raised(ws, idx).len() ==> #[trigger] raised(ws, idx)[j].wf(),
{
    if idx + 1 < ws.len() {
        assert forall|j: int| 0 <= j < raised(ws, idx).len() implies #[trigger] raised(ws, idx)[j].wf() by {
            if j < idx {
                assert(raised(ws, idx)[j] == ws[j]);
            } else if j < ws.len() - 1 {
                assert(raised(ws, idx)[j] == ws[j + 1]);
            } else {
                assert(raised(ws, idx)[j] == ws[idx]);
            }
        }
    }
}


/// Dragging keeps a window on screen: while the topmost window is dragged,
/// it stays right of and below the origin and, when it fits, inside the
/// screen with its title bar above the taskbar.
pub proof fn lemma_drag_stays_on_screen(st: StepView, i: StepInput)
    requires
        input_ok(i),
        st.wm.windows.len() > 0,
        st.wm.windows.last().w <= i.sw,
    ensures
        ({
            let ws = s_drag(st, i).wm.windows;
            let w = ws.last();
            w.dragging ==> 0 <= w.x <= i.sw - w.w && 0 <= w.y <= i.sh - TASKBAR_H - TITLE_H
        }),
{
}

/// The two window lists agree on what decides which window is under the
/// mouse and which is focused: position, size and minimised state.
pub open spec fn same_layout(a: Seq<WinView>, b: Seq<WinView>) -> bool {
    &&& a.len() == b.len()
    &&& forall|k: int| 0 <= k < a.len() ==> {
        &&& #[trigger] a[k].x == b[k].x
        &&& a[k].y == b[k].y
        &&& a[k].w == b[k].w
        &&& a[k].h == b[k].h
        &&& a[k].minimized == b[k].minimized
    }
}

proof fn lemma_same_layout_lookup(a: Seq<WinView>, b: Seq<WinView>, n: int, px: int, py: int)
    requires
        same_layout(a, b),
        0 <= n <= a.len(),
    ensures
        topmost_in(a, n, px, py) == topmost_in(b, n, px, py),
        focused_in(a, n) == focused_in(b, n),
    decreases n,
{
    if n > 0 {
        assert(a[n - 1].x == b[n - 1].x);
        lemma_same_layout_lookup(a, b, n - 1, px, py);
    }
}

proof fn lemma_no_task_btn_above(k: int, n: int, sh: int, px: int, py: int)
    requires
        py < sh - TASKBAR_H,
    ensures
        task_btn_from(k, n, sh, px, py) is None,
    decreases n - k,
{
    if k < n {
        lemma_no_task_btn_above(k + 1, n, sh, px, py);
    }
}

proof fn lemma_release_front(v: WmView, i: StepInput, keys: Seq<u8>)
    requires
        released(i),
    ensures
        ({
            let s0 = StepView { wm: v, dirty: false, effects: Seq::empty(), actions: Seq::empty() };
            let s1 = s_keys(s_clock(s0, i), keys);
            let s2 = s_ops(s1, Seq::<AppOpView>::empty(), i.sw as int, i.sh as int);
            let s3 = s_rclick(s_ctx_outside(s_menu_outside(s_route(s2, i), i), i), i);
            &&& s3.wm.windows == v.windows
            &&& s_press(s3, i) == s3
        }),
{
    let s0 = StepView { wm: v, dirty: false, effects: Seq::empty(), actions: Seq::empty() };
    let s1 = s_keys(s_clock(s0, i), keys);
    assert(s1.wm == v);
    let s2 = s_ops(s1, Seq::<AppOpView>::empty(), i.sw as int, i.sh as int);
    assert(s2 == s1);
}

proof fn lemma_release_middle(st: StepView, i: StepInput)
    requires
        released(i),
    ensures
        same_layout(st.wm.windows, s_hover(s_drag(st, i), i).wm.windows),
{
    let b = s_drag(st, i);
    assert(same_layout(st.wm.windows, b.wm.windows));
    let c = s_hover(b, i);
    assert(same_layout(b.wm.windows, c.wm.windows));
}

proof fn lemma_release_back(st: StepView, i: StepInput)
    requires
        i.now.y < i.sh - TASKBAR_H,
    ensures
        s_ctx_click(s_ctx_hover(s_menu_click(s_menu_hover(
            s_task_click(s_task_hover(s_start_click(s_start_hover(st, i), i), i), i), i), i), i), i).wm.windows
            == st.wm.windows,
{
    let s5 = s_task_click(s_task_hover(s_start_click(s_start_hover(st, i), i), i), i);
    lemma_no_task_btn_above(0, st.wm.windows.len() as int, i.sh as int, i.now.x as int, i.now.y as int);
    assert(s5.wm.windows == st.wm.windows);
}

/// Clicking a window's minimise button minimises it: when the left button
/// is released inside the minimise button of the focused window, having
/// been pressed inside it too (that window being the topmost one under the
/// mouse both times), the window is minimised after the step, in its place
/// and with its position and size, and no window is added or removed. The
/// mouse is above the taskbar, and no app request comes in that step.
pub proof fn lemma_min_click_minimises(v: WmView, i: StepInput, keys: Seq<u8>, p: int)
    requires
        v.wf(),
        released(i),
        i.now.y < i.sh - TASKBAR_H,
        0 <= p < v.windows.len(),
        topmost_at(v.windows, i.prev.x as int, i.prev.y as int) == Some(p as usize),
        topmost_at(v.windows, i.now.x as int, i.now.y as int) == Some(p as usize),
        focused(v.windows) == Some(p as usize),
        v.windows[p].min_contains(i.prev.x as int, i.prev.y as int),
        v.windows[p].min_contains(i.now.x as int, i.now.y as int),
    ensures
        ({
            let ws = step_spec(v, i, keys, Seq::empty()).wm.windows;
            &&& ws.len() == v.windows.len()
            &&& ws[p].minimized
            &&& ws[p].x == v.windows[p].x
            &&& ws[p].y == v.windows[p].y
            &&& ws[p].w == v.windows[p].w
            &&& ws[p].h == v.windows[p].h
        }),
{
    let s0 = StepView { wm: v, dirty: false, effects: Seq::empty(), actions: Seq::empty() };
    let s1 = s_keys(s_clock(s0, i), keys);
    let s2 = s_ops(s1, Seq::<AppOpView>::empty(), i.sw as int, i.sh as int);
    let s3 = s_rclick(s_ctx_outside(s_menu_outside(s_route(s2, i), i), i), i);
    lemma_release_front(v, i, keys);
    lemma_release_middle(s3, i);
    let c = s_hover(s_drag(s_press(s3, i), i), i);
    let ws = c.wm.windows;
    assert(same_layout(v.windows, ws));
    lemma_same_layout_lookup(v.windows, ws, v.windows.len() as int, i.prev.x as int, i.prev.y as int);
    lemma_same_layout_lookup(v.windows, ws, v.windows.len() as int, i.now.x as int, i.now.y as int);
    lemma_topmost_in_range(v.windows, v.windows.len() as int, i.now.x as int, i.now.y as int);
    assert(ws[p].x == v.windows[p].x);
    let w = ws[p];
    assert(!w.minimized);
    assert(!w.close_contains(i.now.x as int, i.now.y as int));
    let s4 = s_release_buttons(c, i);
    assert(s4.wm.windows == toggled(ws, p));
    assert(s4.wm.windows.len() == v.windows.len());
    assert(s4.wm.windows[p].minimized);
    lemma_release_back(s4, i);
}

/// A step never loses an app's request: each closed app window is freed
/// and each opened one gets chrome, in order.
pub proof fn lemma_ops_effects(st: StepView, ops: Seq<AppOpView>, sw: int, sh: int)
    ensures
        s_ops(st, ops, sw, sh).effects == st.effects + ops.filter(|o: AppOpView| o is Close).map_values(
            |o: AppOpView| match o {
                AppOpView::Close { app_id } => AppEffect::Destroy(app_id),
                AppOpView::Open { app_id, .. } => AppEffect::Destroy(app_id),
            }),
        s_ops(st, ops, sw, sh).wm.windows.len() <= st.wm.windows.len() + ops.len(),
    decreases ops.len(),
{
    let f = |o: AppOpView| o is Close;
    let g = |o: AppOpView| match o {
        AppOpView::Close { app_id } => AppEffect::Destroy(app_id),
        AppOpView::Open { app_id, .. } => AppEffect::Destroy(app_id),
    };
    if ops.len() == 0 {
        assert(ops.filter(f) =~= Seq::<AppOpView>::empty());
        assert(st.effects + Seq::<AppOpView>::empty().map_values(g) =~= st.effects);
    } else {
        let st1 = s_op(st, ops[0], sw, sh);
        lemma_ops_effects(st1, ops.drop_first(), sw, sh);
        assert(ops =~= seq![ops[0]] + ops.drop_first());
        Seq::filter_distributes_over_add(seq![ops[0]], ops.drop_first(), f);
        assert(seq![ops[0]].filter(f) == if f(ops[0]) { seq![ops[0]] } else { Seq::<AppOpView>::empty() }) by {
            reveal_with_fuel(Seq::filter, 2);
        }
        assert((seq![ops[0]].filter(f) + ops.drop_first().filter(f)).map_values(g)
            =~= seq![ops[0]].filter(f).map_values(g) + ops.drop_first().filter(f).map_values(g));
        match ops[0] {
            AppOpView::Close { app_id } => {
                assert(seq![ops[0]].filter(f).map_values(g) =~= seq![AppEffect::Destroy(app_id)]);
                assert(st1.effects == st.effects.push(AppEffect::Destroy(app_id)));
                assert(st.effects.push(AppEffect::Destroy(app_id)) + ops.drop_first().filter(f).map_values(g)
                    =~= st.effects + (seq![AppEffect::Destroy(app_id)] + ops.drop_first().filter(f).map_values(g)));
                st.wm.windows.lemma_filter_len(|w: WinView| w.app_id != Some(app_id));
            },
            AppOpView::Open { .. } => {
                assert(seq![ops[0]].filter(f).map_values(g) =~= Seq::<AppEffect>::empty());
                assert(st.effects + (Seq::<AppEffect>::empty() + ops.drop_first().filter(f).map_values(g))
                    =~= st.effects + ops.drop_first().filter(f).map_values(g));
            },
        }
    }
}


// ---- dragging over a whole run ----

/// A dragged window is on screen: right of the origin and, when it fits,
/// inside the screen's width; below the top and its title bar above the
/// taskbar.
pub open spec fn drag_ok(w: WinView, sw: int, sh: int) -> bool {
    &&& w.w <= sw ==> 0 <= w.x <= sw - w.w
    &&& TASKBAR_H + TITLE_H <= sh ==> 0 <= w.y <= sh - TASKBAR_H - TITLE_H
}

/// Every window being dragged is on screen.
pub open spec fn drags_on_screen(ws: Seq<WinView>, sw: int, sh: int) -> bool {
    forall|k: int| 0 <= k < ws.len() && (#[trigger] ws[k]).dragging ==> drag_ok(ws[k], sw, sh)
}

proof fn lemma_drags_raised(ws: Seq<WinView>, idx: int, sw: int, sh: int)
    requires
        drags_on_screen(ws, sw, sh),
        0 <= idx < ws.len(),
    ensures
        drags_on_screen(raised(ws, idx), sw, sh),
{
    let r = raised(ws, idx);
    if idx + 1 < ws.len() {
        assert forall|k: int| 0 <= k < r.len() && (#[trigger] r[k]).dragging implies drag_ok(r[k], sw, sh) by {
            if k < idx {
                assert(r[k] == ws[k]);
            } else if k < ws.len() - 1 {
                assert(r[k] == ws[k + 1]);
            } else {
                assert(r[k] == ws[idx]);
            }
        }
    }
}

proof fn lemma_drags_update(ws: Seq<WinView>, k0: int, w: WinView, sw: int, sh: int)
    requires
        drags_on_screen(ws, sw, sh),
        0 <= k0 < ws.len(),
        w.dragging ==> drag_ok(w, sw, sh),
    ensures
        drags_on_screen(ws.update(k0, w), sw, sh),
{
    let u = ws.update(k0, w);
    assert forall|k: int| 0 <= k < u.len() && (#[trigger] u[k]).dragging implies drag_ok(u[k], sw, sh) by {
        if k != k0 {
            assert(u[k] == ws[k]);
        }
    }
}

proof fn lemma_drags_toggled(ws: Seq<WinView>, idx: int, sw: int, sh: int)
    requires
        drags_on_screen(ws, sw, sh),
    ensures
        drags_on_screen(toggled(ws, idx), sw, sh),
{
    if 0 <= idx < ws.len() {
        if ws[idx].minimized {
            lemma_drags_update(ws, idx, WinView { minimized: false, ..ws[idx] }, sw, sh);
            lemma_drags_raised(ws.update(idx, WinView { minimized: false, ..ws[idx] }), idx, sw, sh);
        } else if focused(ws) == Some(idx as usize) {
            lemma_drags_update(ws, idx, WinView {
                minimized: true,
                close_hover: false,
                close_pressed: false,
                min_hover: false,
                min_pressed: false,
                dragging: false,
                ..ws[idx]
            }, sw, sh);
        } else {
            lemma_drags_raised(ws, idx, sw, sh);
        }
    }
}

proof fn lemma_drags_op(st: StepView, op: AppOpView, sw: int, sh: int)
    requires
        drags_on_screen(st.wm.windows, sw, sh),
    ensures
        drags_on_screen(s_op(st, op, sw, sh).wm.windows, sw, sh),
{
    let ws = st.wm.windows;
    match op {
        AppOpView::Open { app_id, title, content_w, content_h } => {
            let nw = app_window(app_id, title, content_w as int, content_h as int, st.wm.n_opened + 1, sw, sh);
            let p = ws.push(nw);
            assert forall|k: int| 0 <= k < p.len() && (#[trigger] p[k]).dragging implies drag_ok(p[k], sw, sh) by {
                if k < ws.len() {
                    assert(p[k] == ws[k]);
                }
            }
        },
        AppOpView::Close { app_id } => {
            let f = without_app(ws, app_id);
            assert forall|k: int| 0 <= k < f.len() && (#[trigger] f[k]).dragging implies drag_ok(f[k], sw, sh) by {
                let pred = |w: WinView| w.app_id != Some(app_id);
                assert(f.contains(f[k]));
                ws.lemma_filter_contains_rev(pred, f[k]);
                let j = choose|j: int| 0 <= j < ws.len() && ws[j] == f[k];
                assert(ws[j].dragging);
            }
        },
    }
}

proof fn lemma_drags_ops(st: StepView, ops: Seq<AppOpView>, sw: int, sh: int)
    requires
        drags_on_screen(st.wm.windows, sw, sh),
    ensures
        drags_on_screen(s_ops(st, ops, sw, sh).wm.windows, sw, sh),
    decreases ops.len(),
{
    if ops.len() > 0 {
        lemma_drags_op(st, ops[0], sw, sh);
        lemma_drags_ops(s_op(st, ops[0], sw, sh), ops.drop_first(), sw, sh);
    }
}

proof fn lemma_drags_press_drag(st: StepView, i: StepInput)
    requires
        drags_on_screen(st.wm.windows, i.sw as int, i.sh as int),
        st.wm.windows.len() <= WINDOWS_MAX,
    ensures
        drags_on_screen(s_drag(s_press(st, i), i).wm.windows, i.sw as int, i.sh as int),
{
    let sw = i.sw as int;
    let sh = i.sh as int;
    let ws = st.wm.windows;
    let p = s_press(st, i);
    let pw = p.wm.windows;
    // after the press, every window but the topmost is as it was (up to order)
    assert(forall|k: int| 0 <= k < pw.len() - 1 && (#[trigger] pw[k]).dragging ==> drag_ok(pw[k], sw, sh)) by {
        let press_in_menu = pressed(i) && st.wm.menu_open && menu_contains_spec(i.sh as int, i.now.x as int, i.now.y as int);
        let press_in_ctx = pressed(i) && st.wm.ctx_open && ctx_contains_spec(st.wm, i.sw as int, i.sh as int, i.now.x as int, i.now.y as int);
        if pressed(i) && !press_in_menu && !press_in_ctx {
            match topmost_at(ws, i.now.x as int, i.now.y as int) {
                Some(idx) => {
                    crate::desktop::lemma_topmost_in_range(ws, ws.len() as int, i.now.x as int, i.now.y as int);
                    lemma_drags_raised(ws, idx as int, sw, sh);
                    let r = raised(ws, idx as int);
                    assert(r.len() == ws.len());
                    assert forall|k: int| 0 <= k < pw.len() - 1 && (#[trigger] pw[k]).dragging implies drag_ok(pw[k], sw, sh) by {
                        assert(pw[k] == r[k]);
                    }
                },
                None => {},
            }
        }
    }
    if pw.len() > 0 {
        let k = pw.len() - 1;
        let w = pw[k];
        let ended = released(i) && w.dragging;
        let w1 = if ended { WinView { dragging: false, ..w } } else { w };
        let d = s_drag(p, i).wm.windows;
        assert forall|j: int| 0 <= j < d.len() && (#[trigger] d[j]).dragging implies drag_ok(d[j], sw, sh) by {
            if j < k {
                assert(d[j] == pw[j]);
            } else {
                assert(j == k);
                if w1.dragging {
                    let t = drag_target(w1, i);
                    assert(d[j].x == t.0 && d[j].y == t.1 && d[j].w == w.w);
                }
            }
        }
    }
}

proof fn lemma_ops_len(st: StepView, ops: Seq<AppOpView>, sw: int, sh: int)
    ensures
        s_ops(st, ops, sw, sh).wm.windows.len() <= st.wm.windows.len() + ops.len(),
    decreases ops.len(),
{
    if ops.len() > 0 {
        let s1 = s_op(st, ops[0], sw, sh);
        match ops[0] {
            AppOpView::Close { app_id } => {
                st.wm.windows.lemma_filter_len(|w: WinView| w.app_id != Some(app_id));
            },
            _ => {},
        }
        lemma_ops_len(s1, ops.drop_first(), sw, sh);
    }
}

/// Dragging keeps windows on screen over a step: if every window being
/// dragged is on screen before a loop iteration, it is after.
pub proof fn lemma_step_keeps_drags(v: WmView, i: StepInput, keys: Seq<u8>, ops: Seq<AppOpView>)
    requires
        v.wf(),
        ops_ok(v, ops),
        drags_on_screen(v.windows, i.sw as int, i.sh as int),
    ensures
        drags_on_screen(step_spec(v, i, keys, ops).wm.windows, i.sw as int, i.sh as int),
{
    let sw = i.sw as int;
    let sh = i.sh as int;
    let s0 = StepView { wm: v, dirty: false, effects: Seq::empty(), actions: Seq::empty() };
    let s1 = s_keys(s_clock(s0, i), keys);
    assert(s1.wm.windows == v.windows);
    let s2 = s_ops(s1, ops, sw, sh);
    lemma_drags_ops(s1, ops, sw, sh);
    lemma_ops_len(s1, ops, sw, sh);
    let s3 = s_rclick(s_ctx_outside(s_menu_outside(s_route(s2, i), i), i), i);
    assert(s3.wm.windows == s2.wm.windows);
    lemma_drags_press_drag(s3, i);
    let sd = s_drag(s_press(s3, i), i);
    let sh1 = s_hover(sd, i);
    let hw = sh1.wm.windows;
    assert(s_press(s3, i).wm.windows.len() == s3.wm.windows.len());
    assert(hw.len() <= WINDOWS_MAX);
    assert forall|k: int| 0 <= k < hw.len() && (#[trigger] hw[k]).dragging implies drag_ok(hw[k], sw, sh) by {
        assert(sd.wm.windows[k].dragging);
    }
    let s4 = s_release_buttons(sh1, i);
    assert(drags_on_screen(s4.wm.windows, sw, sh)) by {
        if released(i) {
            match (topmost_at(hw, i.prev.x as int, i.prev.y as int), topmost_at(hw, i.now.x as int, i.now.y as int)) {
                (Some(p), Some(n)) => if p == n {
                    let w = hw[p as int];
                    if w.close_contains(i.prev.x as int, i.prev.y as int) && w.close_contains(i.now.x as int, i.now.y as int) {
                        crate::desktop::lemma_topmost_in_range(hw, hw.len() as int, i.prev.x as int, i.prev.y as int);
                        let r = hw.remove(p as int);
                        assert forall|k: int| 0 <= k < r.len() && (#[trigger] r[k]).dragging implies drag_ok(r[k], sw, sh) by {
                            if k < p {
                                assert(r[k] == hw[k]);
                            } else {
                                assert(r[k] == hw[k + 1]);
                            }
                        }
                    } else if w.min_contains(i.prev.x as int, i.prev.y as int) && w.min_contains(i.now.x as int, i.now.y as int) {
                        lemma_drags_toggled(hw, p as int, sw, sh);
                    }
                },
                _ => {},
            }
        }
    }
    let sa = s_start_click(s_start_hover(s4, i), i);
    assert(sa.wm.windows == s4.wm.windows);
    let sb = s_task_hover(sa, i);
    assert(sb.wm.windows == s4.wm.windows);
    let s5 = s_task_click(sb, i);
    assert(drags_on_screen(s5.wm.windows, sw, sh)) by {
        let n = sb.wm.windows.len() as int;
        if released(i) {
            match (task_btn_at_spec(n, i.sh as int, i.prev.x as int, i.prev.y as int), task_btn_at_spec(n, i.sh as int, i.now.x as int, i.now.y as int)) {
                (Some(p), Some(q)) => if p == q {
                    lemma_drags_toggled(sb.wm.windows, p as int, sw, sh);
                },
                _ => {},
            }
        }
    }
    let s6 = s_ctx_click(s_ctx_hover(s_menu_click(s_menu_hover(s5, i), i), i), i);
    assert(s6.wm.windows == s5.wm.windows);
}

/// A run of loop iterations: each step's input, typed keys and app
/// requests.
pub open spec fn run_steps(v: WmView, steps: Seq<(StepInput, Seq<u8>, Seq<AppOpView>)>) -> WmView
    decreases steps.len(),
{
    if steps.len() == 0 {
        v
    } else {
        run_steps(step_spec(v, steps[0].0, steps[0].1, steps[0].2).wm, steps.drop_first())
    }
}

/// A run the loop can take on a `sw`×`sh` screen: every step sees that
/// screen, starts from a valid state and gets requests it can take.
pub open spec fn run_ok(v: WmView, steps: Seq<(StepInput, Seq<u8>, Seq<AppOpView>)>, sw: usize, sh: usize) -> bool
    decreases steps.len(),
{
    steps.len() == 0 || {
        &&& v.wf()
        &&& ops_ok(v, steps[0].2)
        &&& steps[0].0.sw == sw
        &&& steps[0].0.sh == sh
        &&& run_ok(step_spec(v, steps[0].0, steps[0].1, steps[0].2).wm, steps.drop_first(), sw, sh)
    }
}

/// Dragging keeps a window on screen over a whole run: starting with no
/// window dragged off screen (as on an empty desktop), after any run of
/// iterations every window being dragged, the topmost in particular, is
/// right of and below the origin, inside the screen's width when it fits,
/// and has its title bar above the taskbar.
pub proof fn lemma_drag_run(v: WmView, steps: Seq<(StepInput, Seq<u8>, Seq<AppOpView>)>, sw: usize, sh: usize)
    requires
        drags_on_screen(v.windows, sw as int, sh as int),
        run_ok(v, steps, sw, sh),
    ensures
        drags_on_screen(run_steps(v, steps).windows, sw as int, sh as int),
        ({
            let ws = run_steps(v, steps).windows;
            ws.len() > 0 && ws.last().dragging ==> drag_ok(ws.last(), sw as int, sh as int)
        }),
    decreases steps.len(),
{
    if steps.len() > 0 {
        lemma_step_keeps_drags(v, steps[0].0, steps[0].1, steps[0].2);
        lemma_drag_run(step_spec(v, steps[0].0, steps[0].1, steps[0].2).wm, steps.drop_first(), sw, sh);
    }
    let ws = run_steps(v, steps).windows;
    if ws.len() > 0 && ws.last().dragging {
        assert(ws[ws.len() - 1].dragging);
    }
}

/// Keep the app requests the window manager can take in one step (see
/// [`admitted`]); the others are dropped.
pub fn admissible_ops(wm: &WM, ops: Vec<AppOp>) -> (kept: Vec<AppOp>)
    requires
        wm@.wf(),
    ensures
        op_views(kept@) == admitted(wm@, op_views(ops@)),
        wm@.n_opened < u32::MAX ==> ops_ok(wm@, kept@.map_values(|o: AppOp| o@)),
{
    let total = ops.len();
    let ghost v = wm@;
    let ghost orig = op_views(ops@);
    let ghost n = ops@.len();
    let mut rest = ops;
    let mut kept: Vec<AppOp> = Vec::new();
    let mut i: usize = 0;
    assert(op_views(rest@) =~= orig.subrange(0, n as int));
    assert(orig.subrange(0, 0) =~= Seq::<AppOpView>::empty());
    while rest.len() > 0
        invariant
            v == wm@,
            wm@.wf(),
            n == orig.len(),
            i + rest@.len() == n,
            op_views(rest@) == orig.subrange(i as int, n as int),
            op_views(kept@) == admitted(v, orig.subrange(0, i as int)),
            n == total,
            wm@.windows.len() + kept@.len() <= WINDOWS_MAX,
        decreases rest@.len(),
    {
        let ghost before = rest@;
        let op = rest.remove(0);
        proof {
            assert(op@ == orig[i as int]) by {
                assert(op_views(before)[0] == orig.subrange(i as int, n as int)[0]);
            }
            assert(op_views(rest@) =~= orig.subrange(i + 1, n as int)) by {
                assert forall|k: int| 0 <= k < rest@.len() implies #[trigger] op_views(rest@)[k] == orig.subrange(i + 1, n as int)[k] by {
                    assert(rest@[k] == before[k + 1]);
                    assert(op_views(before)[k + 1] == orig.subrange(i as int, n as int)[k + 1]);
                }
            }
            assert(orig.subrange(0, i + 1).drop_last() =~= orig.subrange(0, i as int));
            assert(orig.subrange(0, i + 1).last() == orig[i as int]);
        }
        let m = kept.len();
        let room = wm.windows.len() + m < WINDOWS_MAX && (wm.n_opened as u64) + (m as u64) + 1 < u32::MAX as u64;
        let fits = match &op {
            AppOp::OpenWindow { content_w, content_h, .. } => (*content_w as u64) <= SIDE_MAX as u64 && (*content_h as u64) + TITLE_H as u64 <= SIDE_MAX as u64,
            AppOp::CloseWindow { .. } => true,
        };
        if room && fits {
            let ghost kv = op_views(kept@);
            kept.push(op);
            assert(op_views(kept@) =~= kv.push(orig[i as int]));
        }
        i = i + 1;
    }
    assert(orig.subrange(0, n as int) =~= orig);
    assert(kept@.map_values(|o: AppOp| o@) =~= op_views(kept@));
    proof {
        if v.n_opened < u32::MAX {
            lemma_admitted_ok(v, orig);
        }
    }
    kept
}

} // verus!
