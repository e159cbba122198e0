//! Per-app-window state: the pixel content an app draws into and the queue
//! of events waiting for the app, plus the operations apps ask the desktop
//! to apply to its window manager.
//!
//! Everything lives in one [`AppWindows`] registry; the kernel keeps it
//! behind a lock and apps reach it through their services table.

use vstd::prelude::*;
use std::collections::BTreeMap;
use crate::sdk::{Event, WindowId};
use crate::framebuffer::{Color, blend, blend_exec, lemma_cell_index, lemma_cell_of};

verus! {

/// Operations apps ask the desktop to apply to its window manager.
pub enum AppOp {
    /// Create chrome (title bar and frame) around a content area.
    OpenWindow { app_id: WindowId, title: String, content_w: u32, content_h: u32 },
    /// Remove the chrome and free the window state.
    CloseWindow { app_id: WindowId },
}

/// Model of an [`AppOp`].
pub enum AppOpView {
    Open { app_id: WindowId, title: Seq<char>, content_w: u32, content_h: u32 },
    Close { app_id: WindowId },
}

impl View for AppOp {
    type V = AppOpView;

    open spec fn view(&self) -> AppOpView {
        match self {
            AppOp::OpenWindow { app_id, title, content_w, content_h } =>
                AppOpView::Open { app_id: *app_id, title: title@, content_w: *content_w, content_h: *content_h },
            AppOp::CloseWindow { app_id } => AppOpView::Close { app_id: *app_id },
        }
    }
}

pub struct AppWindowState {
    pub content_w: usize,
    pub content_h: usize,
    /// Row-major RGB pixels of the content area (`content_w * content_h * 3` bytes).
    pub content: Vec<u8>,
    /// Events waiting for the app, oldest first.
    pub events: Vec<Event>,
    /// Set once the user closed the window; the app still owns the state
    /// until it closes the window itself.
    pub closed_by_user: bool,
}

/// Model of an app window.
pub struct AppWinView {
    pub content_w: int,
    pub content_h: int,
    pub content: Seq<u8>,
    pub events: Seq<Event>,
    pub closed_by_user: bool,
}

impl View for AppWindowState {
    type V = AppWinView;

    open spec fn view(&self) -> AppWinView {
        AppWinView {
            content_w: self.content_w as int,
            content_h: self.content_h as int,
            content: self.content@,
            events: self.events@,
            closed_by_user: self.closed_by_user,
        }
    }
}

impl AppWinView {
    pub open spec fn wf(self) -> bool {
        &&& self.content.len() == self.content_w * self.content_h * 3
        &&& self.content_w <= 0x7fff_ffff
        &&& self.content_h <= 0x7fff_ffff
    }
}

/// A white `w`×`h` content area with no pending event.
pub open spec fn fresh_app_window(w: int, h: int) -> AppWinView {
    AppWinView {
        content_w: w,
        content_h: h,
        content: Seq::new((w * h * 3) as nat, |i: int| 0xFFu8),
        events: Seq::empty(),
        closed_by_user: false,
    }
}

impl AppWindowState {
    pub fn new(w: usize, h: usize) -> (s: Self)
        requires
            w * h * 3 <= usize::MAX,
        ensures
            s@ == fresh_app_window(w as int, h as int),
    {
        let s = AppWindowState {
            content_w: w,
            content_h: h,
            content: vec![0xFFu8; w * h * 3],
            events: Vec::new(),
            closed_by_user: false,
        };
        assert(s@.content =~= fresh_app_window(w as int, h as int).content);
        assert(s@.events =~= Seq::<Event>::empty());
        s
    }
}

/// Registry of app windows, the next handle to give out, the operations
/// waiting for the desktop, and whether an app presented a new frame.
pub struct AppWindows {
    windows: BTreeMap<WindowId, AppWindowState>,
    next_id: WindowId,
    pending_ops: Vec<AppOp>,
    dirty: bool,
}

impl AppWindows {
    pub closed spec fn windows(&self) -> Map<WindowId, AppWinView> {
        self.windows@.map_values(|s: AppWindowState| s@)
    }

    /// Every window of a well-formed registry is well formed.
    pub proof fn lemma_windows_wf(&self)
        requires
            self.wf(),
        ensures
            forall|id: WindowId| #[trigger] self.windows().contains_key(id) ==> self.windows()[id].wf(),
    {
        assert forall|id: WindowId| #[trigger] self.windows().contains_key(id) implies self.windows()[id].wf() by {
            assert(self.windows@.contains_key(id));
        }
    }

    pub closed spec fn next_id(&self) -> WindowId {
        self.next_id
    }

    pub closed spec fn ops(&self) -> Seq<AppOpView> {
        self.pending_ops@.map_values(|o: AppOp| o@)
    }

    pub closed spec fn dirty(&self) -> bool {
        self.dirty
    }

    pub closed spec fn wf(&self) -> bool {
        forall|id: WindowId| #[trigger] self.windows@.contains_key(id) ==> self.windows@[id]@.wf()
    }

    /// Empty registry; the first handle given out is 1.
    pub fn new() -> (r: Self)
        ensures
            r.wf(),
            r.windows() == Map::<WindowId, AppWinView>::empty(),
            r.next_id() == 1,
            r.ops() == Seq::<AppOpView>::empty(),
            !r.dirty(),
    {
        let r = AppWindows { windows: BTreeMap::new(), next_id: 1, pending_ops: Vec::new(), dirty: false };
        assert(r.windows() =~= Map::<WindowId, AppWinView>::empty());
        assert(r.ops() =~= Seq::<AppOpView>::empty());
        r
    }

    /// Note that an app presented a frame.
    pub fn set_dirty(&mut self)
        ensures
            final(self).dirty(),
            final(self).windows() == old(self).windows(),
            final(self).next_id() == old(self).next_id(),
            final(self).ops() == old(self).ops(),
            final(self).wf() == old(self).wf(),
    {
        self.dirty = true;
    }

    /// Read and clear the "app presented a frame" flag.
    pub fn take_dirty(&mut self) -> (was: bool)
        ensures
            was == old(self).dirty(),
            !final(self).dirty(),
            final(self).windows() == old(self).windows(),
            final(self).next_id() == old(self).next_id(),
            final(self).ops() == old(self).ops(),
            final(self).wf() == old(self).wf(),
    {
        let was = self.dirty;
        self.dirty = false;
        was
    }

    /// Remove window `id`'s state and give it back.
    fn take_window(&mut self, id: WindowId) -> (s: Option<AppWindowState>)
        requires
            old(self).wf(),
        ensures
            final(self).wf(),
            final(self).windows() == old(self).windows().remove(id),
            final(self).next_id() == old(self).next_id(),
            final(self).ops() == old(self).ops(),
            final(self).dirty() == old(self).dirty(),
            match s {
                Some(st) => old(self).windows().contains_key(id) && st@ == old(self).windows()[id],
                None => !old(self).windows().contains_key(id),
            },
    {
        let s = self.windows.remove(&id);
        assert(self.windows() =~= old(self).windows().remove(id));
        s
    }

    /// Put window `id`'s state back.
    fn put_window(&mut self, id: WindowId, s: AppWindowState)
        requires
            old(self).wf(),
            s@.wf(),
        ensures
            final(self).wf(),
            final(self).windows() == old(self).windows().insert(id, s@),
            final(self).next_id() == old(self).next_id(),
            final(self).ops() == old(self).ops(),
            final(self).dirty() == old(self).dirty(),
    {
        let _ = self.windows.insert(id, s);
        assert(self.windows() =~= old(self).windows().insert(id, s@));
    }
}

/// Queue an operation for the desktop.
pub fn enqueue_op(reg: &mut AppWindows, op: AppOp)
    ensures
        final(reg).ops() == old(reg).ops().push(op@),
        final(reg).windows() == old(reg).windows(),
        final(reg).next_id() == old(reg).next_id(),
        final(reg).dirty() == old(reg).dirty(),
        final(reg).wf() == old(reg).wf(),
{
    let ghost v = op@;
    reg.pending_ops.push(op);
    assert(reg.ops() =~= old(reg).ops().push(v));
}

/// Take every queued operation, in submission order.
pub fn drain_ops(reg: &mut AppWindows) -> (ops: Vec<AppOp>)
    ensures
        ops@.map_values(|o: AppOp| o@) == old(reg).ops(),
        final(reg).ops() == Seq::<AppOpView>::empty(),
        final(reg).windows() == old(reg).windows(),
        final(reg).next_id() == old(reg).next_id(),
        final(reg).dirty() == old(reg).dirty(),
        final(reg).wf() == old(reg).wf(),
{
    let mut ops = Vec::new();
    core::mem::swap(&mut ops, &mut reg.pending_ops);
    assert(reg.ops() =~= Seq::<AppOpView>::empty());
    ops
}

/// Create a white `w`×`h` window state and return its handle; handles are
/// given out in sequence, wrapping around.
pub fn create(reg: &mut AppWindows, w: usize, h: usize) -> (id: WindowId)
    requires
        old(reg).wf(),
        w <= 0x7fff_ffff,
        h <= 0x7fff_ffff,
        w * h * 3 <= usize::MAX,
    ensures
        final(reg).wf(),
        id == old(reg).next_id(),
        final(reg).next_id() == (if old(reg).next_id() == u32::MAX { 0 } else { old(reg).next_id() + 1 }),
        final(reg).windows() == old(reg).windows().insert(id, fresh_app_window(w as int, h as int)),
        final(reg).ops() == old(reg).ops(),
        final(reg).dirty() == old(reg).dirty(),
{
    let id = reg.next_id;
    reg.next_id = id.wrapping_add(1);
    let s = AppWindowState::new(w, h);
    reg.put_window(id, s);
    id
}

/// Drop window `id`'s state (when the app closes its window).
pub fn destroy(reg: &mut AppWindows, id: WindowId)
    requires
        old(reg).wf(),
    ensures
        final(reg).wf(),
        final(reg).windows() == old(reg).windows().remove(id),
        final(reg).next_id() == old(reg).next_id(),
        final(reg).ops() == old(reg).ops(),
        final(reg).dirty() == old(reg).dirty(),
{
    let _ = reg.take_window(id);
}

/// Append an event to window `id`'s queue; nothing happens for an unknown window.
pub fn push_event(reg: &mut AppWindows, id: WindowId, evt: Event)
    requires
        old(reg).wf(),
    ensures
        final(reg).wf(),
        final(reg).windows() == if old(reg).windows().contains_key(id) {
            old(reg).windows().insert(id, AppWinView { events: old(reg).windows()[id].events.push(evt), ..old(reg).windows()[id] })
        } else {
            old(reg).windows()
        },
        final(reg).next_id() == old(reg).next_id(),
        final(reg).ops() == old(reg).ops(),
        final(reg).dirty() == old(reg).dirty(),
{
    match reg.take_window(id) {
        Some(mut st) => {
            st.events.push(evt);
            reg.put_window(id, st);
            assert(reg.windows() =~= old(reg).windows().insert(id, AppWinView { events: old(reg).windows()[id].events.push(evt), ..old(reg).windows()[id] }));
        },
        None => {
            assert(reg.windows() =~= old(reg).windows());
        },
    }
}

/// Pop the oldest event of window `id`; `None` if the queue is empty or the
/// window unknown.
pub fn take_event(reg: &mut AppWindows, id: WindowId) -> (e: Option<Event>)
    requires
        old(reg).wf(),
    ensures
        final(reg).wf(),
        old(reg).windows().contains_key(id) && old(reg).windows()[id].events.len() > 0 ==> {
            &&& e == Some(old(reg).windows()[id].events[0])
            &&& final(reg).windows() == old(reg).windows().insert(id, AppWinView { events: old(reg).windows()[id].events.drop_first(), ..old(reg).windows()[id] })
        },
        !(old(reg).windows().contains_key(id) && old(reg).windows()[id].events.len() > 0) ==> {
            &&& e is None
            &&& final(reg).windows() == old(reg).windows()
        },
        final(reg).next_id() == old(reg).next_id(),
        final(reg).ops() == old(reg).ops(),
        final(reg).dirty() == old(reg).dirty(),
{
    match reg.take_window(id) {
        Some(mut st) => {
            if st.events.len() == 0 {
                reg.put_window(id, st);
                assert(reg.windows() =~= old(reg).windows());
                return None;
            }
            let e = st.events.remove(0);
            reg.put_window(id, st);
            assert(st@.events =~= old(reg).windows()[id].events.drop_first());
            assert(reg.windows() =~= old(reg).windows().insert(id, AppWinView { events: old(reg).windows()[id].events.drop_first(), ..old(reg).windows()[id] }));
            Some(e)
        },
        None => {
            assert(reg.windows() =~= old(reg).windows());
            None
        },
    }
}

/// The user closed window `id`: the first time, mark it and queue
/// `CloseRequested` for the app.
pub fn mark_closed_by_user(reg: &mut AppWindows, id: WindowId)
    requires
        old(reg).wf(),
    ensures
        final(reg).wf(),
        final(reg).windows() == if old(reg).windows().contains_key(id) && !old(reg).windows()[id].closed_by_user {
            old(reg).windows().insert(id, AppWinView {
                closed_by_user: true,
                events: old(reg).windows()[id].events.push(Event::CloseRequested),
                ..old(reg).windows()[id]
            })
        } else {
            old(reg).windows()
        },
        final(reg).next_id() == old(reg).next_id(),
        final(reg).ops() == old(reg).ops(),
        final(reg).dirty() == old(reg).dirty(),
{
    match reg.take_window(id) {
        Some(mut st) => {
            if !st.closed_by_user {
                st.closed_by_user = true;
                st.events.push(Event::CloseRequested);
            }
            reg.put_window(id, st);
            assert(reg.windows() =~= (if !old(reg).windows()[id].closed_by_user {
                old(reg).windows().insert(id, AppWinView {
                    closed_by_user: true,
                    events: old(reg).windows()[id].events.push(Event::CloseRequested),
                    ..old(reg).windows()[id]
                })
            } else {
                old(reg).windows()
            }));
        },
        None => {
            assert(reg.windows() =~= old(reg).windows());
        },
    }
}

/// Content bytes after writing `col` to every pixel (px, py) where `f` holds,
/// in a `w`-pixel-wide RGB buffer.
pub open spec fn content_paint(c: Seq<u8>, w: int, f: spec_fn(int, int) -> Option<Color>) -> Seq<u8> {
    Seq::new(c.len(), |i: int| {
        let px = (i / 3) % w;
        let py = (i / 3) / w;
        match f(px, py) {
            Some(col) => crate::framebuffer::component(col, i % 3),
            None => c[i],
        }
    })
}

/// RGB colour of pixel (x, y) of a content buffer `w` pixels wide.
pub open spec fn content_rgb(c: Seq<u8>, w: int, x: int, y: int) -> Color {
    let o = (y * w + x) * 3;
    (c[o], c[o + 1], c[o + 2])
}

fn paint_pixel(st: &mut AppWindowState, xu: usize, yu: usize, col: Color)
    requires
        old(st)@.wf(),
        xu < old(st).content_w,
        yu < old(st).content_h,
    ensures
        final(st)@ == (AppWinView {
            content: content_paint(old(st)@.content, old(st)@.content_w,
                |px: int, py: int| if px == xu && py == yu { Some(col) } else { None }),
            ..old(st)@
        }),
{
    proof {
        lemma_cell_index(st.content_w as int, st.content_h as int, xu as int, yu as int, 2);
        crate::framebuffer::lemma_image_index(st.content_w as int, st.content_h as int, xu as int, yu as int, 3);
    }
    let ghost old_c = st.content@;
    let _n = st.content.len();
    let off = (yu * st.content_w + xu) * 3;
    st.content.set(off, col.0);
    st.content.set(off + 1, col.1);
    st.content.set(off + 2, col.2);
    proof {
        let w = old(st)@.content_w;
        let h = old(st)@.content_h;
        let f = |px: int, py: int| if px == xu && py == yu { Some(col) } else { None };
        assert forall|i: int| 0 <= i < old_c.len() implies #[trigger] st.content@[i] == content_paint(old_c, w, f)[i] by {
            lemma_cell_of(w, h, i);
            if off <= i < off + 3 {
                lemma_cell_index(w, h, xu as int, yu as int, i - off);
            } else {
                let px = (i / 3) % w;
                let py = (i / 3) / w;
                if px == xu && py == yu {
                    assert(i == off + i % 3);
                }
            }
        }
        assert(st.content@ =~= content_paint(old_c, w, f));
    }
}

/// Alpha-blend one pixel into window `id`'s content (window-local coordinates).
/// Unknown windows, alpha 0 and pixels outside the content are ignored.
pub fn blend_pixel(reg: &mut AppWindows, id: WindowId, x: i32, y: i32, color: Color, alpha: u8)
    requires
        old(reg).wf(),
    ensures
        final(reg).wf(),
        final(reg).windows() == if alpha != 0 && old(reg).windows().contains_key(id) {
            let s = old(reg).windows()[id];
            old(reg).windows().insert(id, AppWinView {
                content: content_paint(s.content, s.content_w, |px: int, py: int|
                    if px == x && py == y && 0 <= x < s.content_w && 0 <= y < s.content_h {
                        blend(color, content_rgb(s.content, s.content_w, px, py), alpha)
                    } else {
                        None
                    }),
                ..s
            })
        } else {
            old(reg).windows()
        },
        final(reg).next_id() == old(reg).next_id(),
        final(reg).ops() == old(reg).ops(),
        final(reg).dirty() == old(reg).dirty(),
{
    if alpha == 0 {
        return;
    }
    let ghost m = old(reg).windows();
    match reg.take_window(id) {
        Some(mut st) => {
            let ghost s = st@;
            let ghost f = |px: int, py: int|
                if px == x && py == y && 0 <= x < s.content_w && 0 <= y < s.content_h {
                    blend(color, content_rgb(s.content, s.content_w, px, py), alpha)
                } else {
                    None
                };
            if x < 0 || y < 0 || x as usize >= st.content_w || y as usize >= st.content_h {
                reg.put_window(id, st);
                proof {
                    assert(content_paint(s.content, s.content_w, f) =~= s.content) by {
                        assert forall|i: int| 0 <= i < s.content.len() implies #[trigger] content_paint(s.content, s.content_w, f)[i] == s.content[i] by {}
                    }
                    assert(reg.windows() =~= m.insert(id, AppWinView { content: content_paint(s.content, s.content_w, f), ..s }));
                }
                return;
            }
            let xu = x as usize;
            let yu = y as usize;
            proof {
                lemma_cell_index(st.content_w as int, st.content_h as int, xu as int, yu as int, 2);
                crate::framebuffer::lemma_image_index(st.content_w as int, st.content_h as int, xu as int, yu as int, 3);
            }
            let _n = st.content.len();
            let off = (yu * st.content_w + xu) * 3;
            let dst = (st.content[off], st.content[off + 1], st.content[off + 2]);
            match blend_exec(color, dst, alpha) {
                Some(c) => {
                    paint_pixel(&mut st, xu, yu, c);
                    proof {
                        let g = |px: int, py: int| if px == xu && py == yu { Some(c) } else { None };
                        assert(content_paint(s.content, s.content_w, g) =~= content_paint(s.content, s.content_w, f));
                    }
                },
                None => {},
            }
            reg.put_window(id, st);
            assert(reg.windows() =~= m.insert(id, AppWinView { content: content_paint(s.content, s.content_w, f), ..s }));
        },
        None => {
            assert(reg.windows() =~= m);
        },
    }
}

/// The pixels a `w`×`h` rectangle at (x, y) covers inside a content area
/// `cw`×`ch` (window-local coordinates).
pub open spec fn rect_cover(x: int, y: int, w: int, h: int, cw: int, ch: int) -> spec_fn(int, int) -> bool {
    |px: int, py: int| {
        let x0 = if x > 0 { x } else { 0 };
        let y0 = if y > 0 { y } else { 0 };
        let x1 = if x + w < cw { x + w } else { cw };
        let y1 = if y + h < ch { y + h } else { ch };
        x0 <= px < x1 && y0 <= py < y1
    }
}

/// Fill a rectangle of window `id`'s content with a colour, clipped to the
/// content area. Unknown windows are ignored.
pub fn draw_rect(reg: &mut AppWindows, id: WindowId, x: i32, y: i32, w: u32, h: u32, rgb: Color)
    requires
        old(reg).wf(),
        i32::MIN <= x + (w as i32) <= i32::MAX,
        i32::MIN <= y + (h as i32) <= i32::MAX,
    ensures
        final(reg).wf(),
        final(reg).windows() == if old(reg).windows().contains_key(id) {
            let s = old(reg).windows()[id];
            old(reg).windows().insert(id, AppWinView {
                content: content_paint(s.content, s.content_w, |px: int, py: int|
                    if rect_cover(x as int, y as int, (w as i32) as int, (h as i32) as int, s.content_w, s.content_h)(px, py) {
                        Some(rgb)
                    } else {
                        None
                    }),
                ..s
            })
        } else {
            old(reg).windows()
        },
        final(reg).next_id() == old(reg).next_id(),
        final(reg).ops() == old(reg).ops(),
        final(reg).dirty() == old(reg).dirty(),
{
    let ghost m = old(reg).windows();
    match reg.take_window(id) {
        Some(mut st) => {
            let ghost s = st@;
            let ghost cover = rect_cover(x as int, y as int, (w as i32) as int, (h as i32) as int, s.content_w, s.content_h);
            let ghost full = |px: int, py: int| if cover(px, py) { Some(rgb) } else { None };
            let cw = st.content_w as i32;
            let ch = st.content_h as i32;
            let x0 = if x > 0 { x } else { 0 };
            let y0 = if y > 0 { y } else { 0 };
            let x1 = if x + (w as i32) < cw { x + (w as i32) } else { cw };
            let y1 = if y + (h as i32) < ch { y + (h as i32) } else { ch };
            if x1 <= x0 || y1 <= y0 {
                reg.put_window(id, st);
                proof {
                    assert(content_paint(s.content, s.content_w, full) =~= s.content);
                    assert(reg.windows() =~= m.insert(id, AppWinView { content: content_paint(s.content, s.content_w, full), ..s }));
                }
                return;
            }
            let mut yy = y0;
            proof {
                assert(content_paint(s.content, s.content_w, |px: int, py: int| if cover(px, py) && py < yy { Some(rgb) } else { None }) =~= s.content);
            }
            while yy < y1
                invariant
                    0 <= y0 <= yy <= y1 <= ch,
                    0 <= x0 < x1 <= cw,
                    st@.content_w == s.content_w,
                    st@.content_h == s.content_h,
                    st@.events == s.events,
                    st@.closed_by_user == s.closed_by_user,
                    st@.wf(),
                    cw == s.content_w,
                    ch == s.content_h,
                    s.wf(),
                    forall|px: int, py: int| #[trigger] cover(px, py) <==> (x0 <= px < x1 && y0 <= py < y1),
                    st@.content == content_paint(s.content, s.content_w, |px: int, py: int| if cover(px, py) && py < yy { Some(rgb) } else { None }),
                decreases y1 - yy,
            {
                let mut xx = x0;
                proof {
                    assert(content_paint(s.content, s.content_w, |px: int, py: int| if cover(px, py) && py < yy { Some(rgb) } else { None })
                        =~= content_paint(s.content, s.content_w, |px: int, py: int| if cover(px, py) && (py < yy || (py == yy && px < xx)) { Some(rgb) } else { None }));
                }
                while xx < x1
                    invariant
                        0 <= y0 <= yy < y1 <= ch,
                        0 <= x0 <= xx <= x1 <= cw,
                        st@.content_w == s.content_w,
                        st@.content_h == s.content_h,
                        st@.events == s.events,
                        st@.closed_by_user == s.closed_by_user,
                        st@.wf(),
                        cw == s.content_w,
                        ch == s.content_h,
                        s.wf(),
                        forall|px: int, py: int| #[trigger] cover(px, py) <==> (x0 <= px < x1 && y0 <= py < y1),
                        st@.content == content_paint(s.content, s.content_w, |px: int, py: int| if cover(px, py) && (py < yy || (py == yy && px < xx)) { Some(rgb) } else { None }),
                    decreases x1 - xx,
                {
                    let ghost before = st@.content;
                    paint_pixel(&mut st, xx as usize, yy as usize, rgb);
                    proof {
                        let prev = |px: int, py: int| if cover(px, py) && (py < yy || (py == yy && px < xx)) { Some(rgb) } else { None };
                        let next = |px: int, py: int| if cover(px, py) && (py < yy || (py == yy && px < xx + 1)) { Some(rgb) } else { None };
                        let one = |px: int, py: int| if px == xx && py == yy { Some(rgb) } else { None };
                        assert(content_paint(content_paint(s.content, s.content_w, prev), s.content_w, one)
                            =~= content_paint(s.content, s.content_w, next));
                    }
                    xx = xx + 1;
                }
                proof {
                    assert(content_paint(s.content, s.content_w, |px: int, py: int| if cover(px, py) && (py < yy || (py == yy && px < xx)) { Some(rgb) } else { None })
                        =~= content_paint(s.content, s.content_w, |px: int, py: int| if cover(px, py) && py < yy + 1 { Some(rgb) } else { None }));
                }
                yy = yy + 1;
            }
            proof {
                assert(content_paint(s.content, s.content_w, |px: int, py: int| if cover(px, py) && py < yy { Some(rgb) } else { None })
                    =~= content_paint(s.content, s.content_w, full));
            }
            reg.put_window(id, st);
            assert(reg.windows() =~= m.insert(id, AppWinView { content: content_paint(s.content, s.content_w, full), ..s }));
        },
        None => {
            assert(reg.windows() =~= m);
        },
    }
}

/// Window `id`'s content and size, if the window exists.
pub fn with_content(reg: &AppWindows, id: WindowId) -> (r: Option<(&Vec<u8>, usize, usize)>)
    ensures
        match r {
            Some((c, w, h)) => reg.windows().contains_key(id) && c@ == reg.windows()[id].content
                && w == reg.windows()[id].content_w && h == reg.windows()[id].content_h,
            None => !reg.windows().contains_key(id),
        },
{
    match reg.windows.get(&id) {
        Some(st) => Some((&st.content, st.content_w, st.content_h)),
        None => None,
    }
}


/// Drawing the same rectangle twice is drawing it once.
pub proof fn lemma_draw_twice(c: Seq<u8>, w: int, f: spec_fn(int, int) -> Option<Color>)
    ensures
        content_paint(content_paint(c, w, f), w, f) == content_paint(c, w, f),
{
    assert(content_paint(content_paint(c, w, f), w, f) =~= content_paint(c, w, f));
}

/// An app reads its events in the order they were queued: after queueing
/// `e` behind the pending events `q`, taking from the queue yields the
/// oldest pending event, or `e` when none was pending.
pub proof fn lemma_events_fifo(q: Seq<Event>, e: Event)
    ensures
        q.push(e)[0] == (if q.len() == 0 { e } else { q[0] }),
        q.len() == 0 ==> q.push(e).drop_first() == Seq::<Event>::empty(),
        q.len() > 0 ==> q.push(e).drop_first() == q.drop_first().push(e),
{
    if q.len() == 0 {
        assert(q.push(e).drop_first() =~= Seq::<Event>::empty());
    } else {
        assert(q.push(e).drop_first() =~= q.drop_first().push(e));
    }
}

} // verus!
