use marx_os::app_wm::AppOp;
use marx_os::desktop::{
    ctx_item_at, format_uptime, launch_target, lighten, menu_invoke, menu_item_at, start_contains,
    task_btn_at, MenuAction, WM,
};
use marx_os::events::{admissible_ops, key_char_of, AppEffect, DeskAction, StepInput};
use marx_os::mouse::MouseState;
use marx_os::sdk::Event;

const SW: usize = 1280;
const SH: usize = 720;

fn mouse(x: i32, y: i32, left: bool, right: bool) -> MouseState {
    MouseState { x, y, left, right, middle: false }
}

fn input(prev: MouseState, now: MouseState) -> StepInput {
    StepInput { prev, now, prev_ticks: 0, ticks: 0, app_dirty: false, sw: SW, sh: SH }
}

#[test]
fn about_windows_cascade_and_are_numbered() {
    let mut wm = WM::new();
    wm.open_about(None, SW, SH);
    assert_eq!(wm.windows.len(), 1);
    assert_eq!(wm.windows[0].title, "About MarX-OS");
    assert_eq!(wm.windows[0].body, vec!["Welcome to MarX-OS.".to_string()]);
    assert_eq!((wm.windows[0].x, wm.windows[0].y), (290, 130));
    assert_eq!((wm.windows[0].w, wm.windows[0].h), (700, 420));
    wm.open_about(Some(b"line one\r\nline two\n"), SW, SH);
    assert_eq!(wm.windows[1].title, "About MarX-OS #2");
    assert_eq!(wm.windows[1].body, vec!["line one".to_string(), "line two".to_string()]);
    assert_eq!((wm.windows[1].x, wm.windows[1].y), (318, 158));
    assert_eq!(wm.focused_idx(), Some(1));
}

#[test]
fn raise_and_focus() {
    let mut wm = WM::new();
    wm.open_about(None, SW, SH);
    wm.open_about(None, SW, SH);
    assert_eq!(wm.topmost_at(300, 140), Some(0));
    assert_eq!(wm.topmost_at(400, 300), Some(1));
    assert!(wm.raise(0));
    assert_eq!(wm.windows[1].title, "About MarX-OS");
    assert!(!wm.raise(1));
    assert_eq!(wm.focused_idx(), Some(1));
}

#[test]
fn task_button_minimises_restores_and_raises() {
    let mut wm = WM::new();
    wm.open_about(None, SW, SH);
    wm.open_about(None, SW, SH);
    wm.toggle_task(1);
    assert!(wm.windows[1].minimized);
    assert_eq!(wm.focused_idx(), Some(0));
    wm.toggle_task(1);
    assert!(!wm.windows[1].minimized);
    assert_eq!(wm.focused_idx(), Some(1));
    wm.toggle_task(0);
    assert_eq!(wm.windows[1].title, "About MarX-OS");
}

#[test]
fn uptime_is_formatted_as_hours_minutes_seconds() {
    assert_eq!(format_uptime(0), "00:00:00");
    assert_eq!(format_uptime(18 * 3661), "01:01:01");
    assert_eq!(format_uptime(18 * 59 + 17), "00:00:59");
}

#[test]
fn lighten_saturates() {
    assert_eq!(lighten((250, 10, 0), 10), (255, 20, 10));
}

#[test]
fn taskbar_and_menu_geometry() {
    assert!(start_contains(SH, 10, 690));
    assert!(!start_contains(SH, 10, 600));
    let mut wm = WM::new();
    wm.open_about(None, SW, SH);
    assert_eq!(task_btn_at(&wm, SH, 115, 690), Some(0));
    assert_eq!(task_btn_at(&wm, SH, 300, 690), None);
    assert_eq!(menu_item_at(SH, 50, 510), Some(0));
    assert_eq!(menu_item_at(SH, 50, 545), Some(1));
    assert_eq!(menu_item_at(SH, 50, 536), None);
    assert_eq!(menu_invoke(2), Some(MenuAction::LaunchCalculator));
    assert_eq!(menu_invoke(7), None);
    assert_eq!(launch_target(MenuAction::LaunchHello), Some("hello.elf"));
    assert_eq!(launch_target(MenuAction::Reboot), None);
    wm.ctx_open = true;
    wm.ctx_x = 100;
    wm.ctx_y = 100;
    assert_eq!(ctx_item_at(&wm, SW, SH, 110, 106), Some(0));
    assert_eq!(ctx_item_at(&wm, SW, SH, 110, 134), Some(1));
}

#[test]
fn dragging_the_title_bar_moves_the_window() {
    let mut wm = WM::new();
    wm.open_about(None, SW, SH);
    let up = mouse(300, 140, false, false);
    let down = mouse(300, 140, true, false);
    let out = wm.step(&input(up, down), &Vec::new(), Vec::new());
    assert!(wm.windows[0].dragging);
    assert_eq!(wm.windows[0].drag_offset, (10, 10));
    assert!(out.effects.is_empty());
    let moved = mouse(400, 200, true, false);
    let out = wm.step(&input(down, moved), &Vec::new(), Vec::new());
    assert_eq!((wm.windows[0].x, wm.windows[0].y), (390, 190));
    assert!(out.dirty);
    let released = mouse(400, 200, false, false);
    wm.step(&input(moved, released), &Vec::new(), Vec::new());
    assert!(!wm.windows[0].dragging);
}

#[test]
fn drag_is_kept_above_the_taskbar() {
    let mut wm = WM::new();
    wm.open_about(None, SW, SH);
    let up = mouse(300, 140, false, false);
    let down = mouse(300, 140, true, false);
    wm.step(&input(up, down), &Vec::new(), Vec::new());
    let far = mouse(5, 715, true, false);
    wm.step(&input(down, far), &Vec::new(), Vec::new());
    assert_eq!((wm.windows[0].x, wm.windows[0].y), (0, 720 - 40 - 30));
}

#[test]
fn click_on_close_removes_the_window() {
    let mut wm = WM::new();
    wm.open_about(None, SW, SH);
    let at = mouse(970, 140, false, false);
    let down = mouse(970, 140, true, false);
    wm.step(&input(at, down), &Vec::new(), Vec::new());
    assert!(wm.windows[0].close_pressed);
    let out = wm.step(&input(down, at), &Vec::new(), Vec::new());
    assert!(wm.windows.is_empty());
    assert!(out.dirty);
}

#[test]
fn start_button_opens_the_menu_and_rows_run_actions() {
    let mut wm = WM::new();
    let up = mouse(20, 690, false, false);
    let down = mouse(20, 690, true, false);
    wm.step(&input(up, down), &Vec::new(), Vec::new());
    wm.step(&input(down, up), &Vec::new(), Vec::new());
    assert!(wm.menu_open);
    let row_up = mouse(50, 510, false, false);
    let row_down = mouse(50, 510, true, false);
    wm.step(&input(up, row_up), &Vec::new(), Vec::new());
    assert_eq!(wm.menu_hover, Some(0));
    wm.step(&input(row_up, row_down), &Vec::new(), Vec::new());
    let out = wm.step(&input(row_down, row_up), &Vec::new(), Vec::new());
    assert!(!wm.menu_open);
    assert_eq!(out.actions, vec![DeskAction::Menu(MenuAction::OpenAbout)]);
}

#[test]
fn right_click_on_the_desktop_opens_the_context_menu() {
    let mut wm = WM::new();
    let up = mouse(100, 100, false, false);
    let r = mouse(100, 100, false, true);
    let out = wm.step(&input(up, r), &Vec::new(), Vec::new());
    assert!(wm.ctx_open);
    assert_eq!((wm.ctx_x, wm.ctx_y), (100, 100));
    assert!(out.dirty);
    let out = wm.step(&input(r, up), &Vec::new(), Vec::new());
    assert!(out.actions.is_empty());
    let r2 = mouse(100, 100, false, true);
    wm.step(&input(up, r2), &Vec::new(), Vec::new());
    assert!(!wm.ctx_open);
}

#[test]
fn keys_and_clicks_reach_the_focused_app_window() {
    let mut wm = WM::new();
    let ops = vec![AppOp::OpenWindow { app_id: 7, title: "Hello".to_string(), content_w: 380, content_h: 200 }];
    let idle = mouse(0, 0, false, false);
    let out = wm.step(&input(idle, idle), &vec![b'h', b'i'], ops);
    assert_eq!(wm.windows.len(), 1);
    assert_eq!(wm.windows[0].app_id, Some(7));
    assert_eq!((wm.windows[0].w, wm.windows[0].h), (380, 230));
    assert!(out.dirty);
    assert!(out.effects.is_empty());
    let out = wm.step(&input(idle, idle), &vec![b'h', b'i', b'\n', 0x1B], Vec::new());
    assert_eq!(out.effects, vec![
        AppEffect::Push(7, Event::KeyDown { ch: b'h' }),
        AppEffect::Push(7, Event::KeyDown { ch: b'i' }),
        // keys without a printable character arrive as 0
        AppEffect::Push(7, Event::KeyDown { ch: 0 }),
        AppEffect::Push(7, Event::KeyDown { ch: 0 }),
    ]);
    let (x, y) = (wm.windows[0].x, wm.windows[0].y);
    let over = mouse(x + 10, y + 31 + 5, false, false);
    let press = mouse(x + 10, y + 31 + 5, true, false);
    let out = wm.step(&input(over, press), &Vec::new(), Vec::new());
    assert_eq!(out.effects, vec![AppEffect::Push(7, Event::MouseDown { x: 10, y: 5 })]);
    let out = wm.step(&input(idle, idle), &Vec::new(), vec![AppOp::CloseWindow { app_id: 7 }]);
    assert!(wm.windows.is_empty());
    assert_eq!(out.effects, vec![AppEffect::Destroy(7)]);
}

#[test]
fn clock_second_change_requests_a_repaint() {
    let mut wm = WM::new();
    let idle = mouse(0, 0, false, false);
    let mut i = input(idle, idle);
    i.prev_ticks = 17;
    i.ticks = 18;
    assert!(wm.step(&i, &Vec::new(), Vec::new()).dirty);
    i.prev_ticks = 18;
    i.ticks = 19;
    assert!(!wm.step(&i, &Vec::new(), Vec::new()).dirty);
}

#[test]
fn key_events_carry_printable_ascii_or_zero() {
    assert_eq!(key_char_of(b'a'), b'a');
    assert_eq!(key_char_of(b' '), b' ');
    assert_eq!(key_char_of(b'~'), b'~');
    assert_eq!(key_char_of(0x08), 0);
    assert_eq!(key_char_of(b'\r'), 0);
    assert_eq!(key_char_of(0x7F), 0);
}

#[test]
fn oversized_app_windows_are_not_admitted() {
    let wm = WM::new();
    let ops = vec![
        AppOp::OpenWindow { app_id: 1, title: "ok".to_string(), content_w: 100, content_h: 100 },
        AppOp::OpenWindow { app_id: 2, title: "huge".to_string(), content_w: 0x2000_0000, content_h: 10 },
        AppOp::CloseWindow { app_id: 1 },
    ];
    let kept = admissible_ops(&wm, ops);
    assert_eq!(kept.len(), 2);
    assert!(matches!(kept[0], AppOp::OpenWindow { app_id: 1, .. }));
    assert!(matches!(kept[1], AppOp::CloseWindow { app_id: 1 }));
}
