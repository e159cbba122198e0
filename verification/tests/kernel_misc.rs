use marx_os::app::{fs_read_count, launch, open_window, window_title, write_hex};
use marx_os::app_wm::{
    create, destroy, drain_ops, draw_rect, mark_closed_by_user, push_event, take_event, with_content, AppOp,
    AppWindows,
};
use marx_os::ata::{data_ready, drive_byte, lba_bytes, not_busy, word_bytes, AtaError, Drive};
use marx_os::bytes::read_le;
use marx_os::fs::FsError;
use marx_os::interrupts::{ascii_of, keyboard_byte, queue_decoded, ticks, InterruptIndex, KeyDecoder, Ticks};
use marx_os::input::{try_pop, Ring};
use marx_os::mouse::Mouse;
use marx_os::sdk::{Event, Rgb};
use marx_os::strings::{lines, push_uint};
use marx_os::memory::{BootInfoFrameAllocator, MemoryRegion};
use marx_os::task::{init, Task, STACK_SIZE};

#[test]
fn ata_register_values() {
    assert_eq!(drive_byte(Drive::Master, 0x0A12_3456), 0xEA);
    assert_eq!(drive_byte(Drive::Slave, 5), 0xF0);
    // Bits above the 28th are masked off.
    assert_eq!(drive_byte(Drive::Master, 0xFA12_3456), 0xEA);
    assert_eq!(drive_byte(Drive::Slave, 0xF000_0000), 0xF0);
    assert_eq!(lba_bytes(0x0A12_3456), (0x56, 0x34, 0x12));
    assert_eq!(word_bytes(0xBEEF), (0xEF, 0xBE));
    assert!(not_busy(0x08));
    assert!(!not_busy(0x88));
}

#[test]
fn ata_status_decisions() {
    assert_eq!(data_ready(0x01), Some(Err(AtaError::Error)));
    assert_eq!(data_ready(0x20), Some(Err(AtaError::DriveFault)));
    assert_eq!(data_ready(0x08), Some(Ok(())));
    assert_eq!(data_ready(0x88), None);
    assert_eq!(data_ready(0x00), None);
}

#[test]
fn interrupt_vectors() {
    assert_eq!(InterruptIndex::Timer.as_u8(), 32);
    assert_eq!(InterruptIndex::Keyboard.as_u8(), 33);
    assert_eq!(InterruptIndex::Mouse.as_u8(), 44);
    assert_eq!(InterruptIndex::IdePrimary.as_u8(), 46);
    assert_eq!(InterruptIndex::IdeSecondary.as_u8(), 47);
}

#[test]
fn ticks_count_timer_interrupts() {
    let mut t = Ticks::new();
    assert_eq!(ticks(&t), 0);
    t.tick();
    t.tick();
    assert_eq!(ticks(&t), 2);
}

#[test]
fn only_ascii_reaches_the_input_ring() {
    assert_eq!(ascii_of('a'), Some(b'a'));
    assert_eq!(ascii_of('\u{7f}'), Some(0x7f));
    assert_eq!(ascii_of('é'), None);
}

#[test]
fn decoded_characters_are_queued_when_ascii() {
    let mut ring = Ring::new();
    queue_decoded(&mut ring, Some('z'));
    queue_decoded(&mut ring, Some('é'));
    queue_decoded(&mut ring, None);
    queue_decoded(&mut ring, Some('1'));
    assert_eq!(try_pop(&mut ring), Some(b'z'));
    assert_eq!(try_pop(&mut ring), Some(b'1'));
    assert_eq!(try_pop(&mut ring), None);
}

#[test]
fn keyboard_extended_and_release_bytes_give_nothing() {
    let mut kb = KeyDecoder::new();
    let mut ring = Ring::new();
    // 0xE0 starts an extended sequence; 0xE0 0x48 is the up arrow (a raw key).
    assert_eq!(keyboard_byte(&mut kb, &mut ring, 0xE0), None);
    assert_eq!(keyboard_byte(&mut kb, &mut ring, 0x48), None);
    // '1' make code.
    assert_eq!(keyboard_byte(&mut kb, &mut ring, 0x02), Some('1'));
    assert_eq!(try_pop(&mut ring), Some(b'1'));
    assert_eq!(try_pop(&mut ring), None);
}

#[test]
fn keyboard_scancodes_become_ascii() {
    let mut kb = KeyDecoder::new();
    let mut ring = Ring::new();
    // Set 1: 'a' make 0x1E, break 0x9E; shift 0x2A then 'a' gives 'A'.
    assert_eq!(keyboard_byte(&mut kb, &mut ring, 0x1E), Some('a'));
    assert_eq!(keyboard_byte(&mut kb, &mut ring, 0x9E), None);
    assert_eq!(keyboard_byte(&mut kb, &mut ring, 0x2A), None);
    assert_eq!(keyboard_byte(&mut kb, &mut ring, 0x1E), Some('A'));
    assert_eq!(try_pop(&mut ring), Some(b'a'));
    assert_eq!(try_pop(&mut ring), Some(b'A'));
    assert_eq!(try_pop(&mut ring), None);
}

#[test]
fn mouse_packets_move_the_cursor() {
    let mut m = Mouse::init(100, 50);
    let s0 = m.state();
    assert_eq!((s0.x, s0.y), (50, 25));
    m.handle_byte(0x09);
    m.handle_byte(10);
    m.handle_byte(5);
    let s = m.state();
    assert_eq!((s.x, s.y), (60, 20));
    assert!(s.left);
    // Negative X (bit 4) and clamping at the edge.
    m.handle_byte(0x18);
    m.handle_byte(0x80);
    m.handle_byte(0);
    assert_eq!(m.state().x, 0);
    assert!(!m.state().left);
}

#[test]
fn little_endian_reads() {
    let b = [0x78, 0x56, 0x34, 0x12, 0xff];
    assert_eq!(read_le(&b, 0, 4), 0x1234_5678);
    assert_eq!(read_le(&b, 3, 2), 0xff12);
    assert_eq!(read_le(&b, 1, 0), 0);
}

#[test]
fn strings_helpers() {
    let mut s = String::from("n=");
    push_uint(&mut s, 0);
    push_uint(&mut s, 1234);
    assert_eq!(s, "n=01234");
    assert_eq!(lines("a\r\nb\n\nc"), vec!["a".to_string(), "b".to_string(), "".to_string(), "c".to_string()]);
    assert!(lines("").is_empty());
}

#[test]
fn hex_log_format() {
    assert_eq!(write_hex(0x1234_ABCD), "000000001234ABCD");
    assert_eq!(write_hex(u64::MAX), "FFFFFFFFFFFFFFFF");
}

#[test]
fn service_helpers() {
    assert_eq!(window_title(b"Calculator"), "Calculator");
    assert_eq!(window_title(&[0xff, 0x41]), "(invalid utf-8)");
    assert_eq!(fs_read_count(10, 100), 10);
    assert_eq!(fs_read_count(1000, 100), 100);
}

#[test]
fn open_window_service_creates_state_and_requests_chrome() {
    let mut reg = AppWindows::new();
    let id = open_window(&mut reg, "Hello".to_string(), 4, 2);
    assert_eq!(id, 1);
    let (content, w, h) = with_content(&reg, id).unwrap();
    assert_eq!((w, h), (4, 2));
    assert!(content.iter().all(|&b| b == 0xFF));
    let ops = drain_ops(&mut reg);
    assert_eq!(ops.len(), 1);
    assert!(matches!(&ops[0], AppOp::OpenWindow { app_id: 1, content_w: 4, content_h: 2, .. }));
    assert!(drain_ops(&mut reg).is_empty());
}

#[test]
fn app_window_events_are_queued_in_order() {
    let mut reg = AppWindows::new();
    let id = create(&mut reg, 2, 2);
    assert_eq!(take_event(&mut reg, id), None);
    push_event(&mut reg, id, Event::KeyDown { ch: b'x' });
    mark_closed_by_user(&mut reg, id);
    assert_eq!(take_event(&mut reg, id), Some(Event::KeyDown { ch: b'x' }));
    assert_eq!(take_event(&mut reg, id), Some(Event::CloseRequested));
    mark_closed_by_user(&mut reg, id);
    assert_eq!(take_event(&mut reg, id), None);
    destroy(&mut reg, id);
    assert!(with_content(&reg, id).is_none());
}

#[test]
fn draw_rect_clips_to_the_content() {
    let mut reg = AppWindows::new();
    let id = create(&mut reg, 3, 2);
    draw_rect(&mut reg, id, 1, -5, 10, 6, (1, 2, 3));
    let (content, _, _) = with_content(&reg, id).unwrap();
    assert_eq!(&content[0..3], &[0xFF, 0xFF, 0xFF]);
    assert_eq!(&content[3..6], &[1, 2, 3]);
    assert_eq!(&content[6..9], &[1, 2, 3]);
    assert_eq!(&content[9..12], &[0xFF, 0xFF, 0xFF]);
}

#[test]
fn launch_parks_the_loaded_app() {
    let mut pending = None;
    assert_eq!(launch(&mut pending, Err(FsError::NotFound)), Err("fs::read failed"));
    assert_eq!(launch(&mut pending, Ok(vec![1, 2, 3])), Err("elf::load failed"));
    assert!(pending.is_none());
    let mut b = vec![0u8; 200];
    b[0..4].copy_from_slice(&[0x7f, b'E', b'L', b'F']);
    b[4] = 2;
    b[5] = 1;
    b[18] = 0x3E;
    b[32] = 64;
    b[54] = 56;
    b[56] = 1;
    b[64] = 1;
    b[64 + 40] = 16;
    assert_eq!(launch(&mut pending, Ok(b.clone())), Ok(()));
    assert_eq!(pending.as_ref().unwrap().memory.len(), 16 + 16);
    assert_eq!(launch(&mut pending, Ok(b)), Err("another app launch is already pending"));
}

#[test]
fn new_task_stack_is_primed_for_the_first_switch() {
    let stack = vec![0u8; STACK_SIZE];
    let t = Task::new_with_arg(3, 0xAAAA, 0xBBBB, 0xCCCC, stack, 0x10_0000);
    let top = 0x10_0000 + STACK_SIZE as u64 - 16;
    assert_eq!(t.rsp, top - 56);
    let at = |a: u64| {
        let o = (a - 0x10_0000) as usize;
        u64::from_le_bytes(t.stack[o..o + 8].try_into().unwrap())
    };
    assert_eq!(at(top), 0xCCCC);
    assert_eq!(at(top - 8), 0x202);
    assert_eq!(at(top - 32), 0xAAAA);
    assert_eq!(at(top - 40), 0xBBBB);
    assert_eq!(at(top - 56), 0);
}

#[test]
fn scheduler_round_robin_and_abandon() {
    let mut s = init();
    assert_eq!(s.switch(), None);
    let id1 = s.take_id();
    s.spawn(Task::new(id1, 1, 2, vec![0u8; STACK_SIZE], 0x1000));
    let id2 = s.take_id();
    s.spawn(Task::new(id2, 1, 2, vec![0u8; STACK_SIZE], 0x9_0000));
    assert_eq!((id1, id2), (1, 2));
    assert_eq!(s.switch(), Some((0, 1)));
    assert_eq!(s.switch(), Some((1, 2)));
    assert_eq!(s.switch(), Some((2, 0)));
    s.current = 1;
    let (rsp, removed) = s.abandon_current(2);
    assert_eq!(removed.id, 1);
    assert_eq!(s.tasks.len(), 2);
    assert_eq!(s.tasks[s.current].id, 2);
    assert_eq!(rsp, s.tasks[s.current].rsp);
}

#[test]
fn rgb_constructor() {
    assert_eq!(Rgb::new(1, 2, 3), Rgb { r: 1, g: 2, b: 3 });
}

#[test]
fn frame_allocator_walks_usable_regions() {
    let regions = vec![
        MemoryRegion { start: 0, end: 0x1000, usable: false },
        MemoryRegion { start: 0x2000, end: 0x5000, usable: true },
        MemoryRegion { start: 0x6000, end: 0x6000, usable: true },
        MemoryRegion { start: 0x10010, end: 0x11000, usable: true },
    ];
    let mut fa = BootInfoFrameAllocator::new();
    assert_eq!(fa.allocate_frame(&regions), Some(0x2000));
    assert_eq!(fa.allocate_frame(&regions), Some(0x3000));
    assert_eq!(fa.allocate_frame(&regions), Some(0x4000));
    // an unaligned region start yields the frame containing it
    assert_eq!(fa.allocate_frame(&regions), Some(0x10000));
    assert_eq!(fa.allocate_frame(&regions), None);
    assert_eq!(fa.next, 5);
    assert_eq!(BootInfoFrameAllocator::usable_frame(&regions, 1), Some(0x3000));
}

#[test]
fn frames_from_an_ordered_map_are_never_repeated() {
    let regions = vec![
        MemoryRegion { start: 0x1000, end: 0x3000, usable: true },
        MemoryRegion { start: 0x3000, end: 0x8000, usable: false },
        MemoryRegion { start: 0x8000, end: 0xA800, usable: true },
    ];
    let mut fa = BootInfoFrameAllocator::new();
    let mut got = Vec::new();
    while let Some(f) = fa.allocate_frame(&regions) {
        got.push(f);
    }
    assert_eq!(got, vec![0x1000, 0x2000, 0x8000, 0x9000, 0xA000]);
    assert!(got.windows(2).all(|w| w[0] < w[1]));
}
