use marx_os::input::{drain, push, try_pop, Ring, CAP};

#[test]
fn ring_is_first_in_first_out() {
    let mut r = Ring::new();
    push(&mut r, b'a');
    push(&mut r, b'b');
    push(&mut r, b'c');
    assert_eq!(try_pop(&mut r), Some(b'a'));
    assert_eq!(try_pop(&mut r), Some(b'b'));
    push(&mut r, b'd');
    assert_eq!(try_pop(&mut r), Some(b'c'));
    assert_eq!(try_pop(&mut r), Some(b'd'));
    assert_eq!(try_pop(&mut r), None);
}

#[test]
fn empty_ring_pops_nothing() {
    let mut r = Ring::new();
    assert_eq!(try_pop(&mut r), None);
    assert_eq!(r.pop(), None);
}

#[test]
fn ring_holds_cap_minus_one_and_drops_the_rest() {
    let mut r = Ring::new();
    for i in 0..CAP - 1 {
        assert!(r.push((i % 256) as u8));
    }
    assert!(!r.push(0xEE));
    push(&mut r, 0xEF);
    for i in 0..CAP - 1 {
        assert_eq!(try_pop(&mut r), Some((i % 256) as u8));
    }
    assert_eq!(try_pop(&mut r), None);
}

#[test]
fn ring_wraps_around() {
    let mut r = Ring::new();
    for round in 0..3u32 {
        for i in 0..200u32 {
            push(&mut r, ((i + round) % 256) as u8);
        }
        for i in 0..200u32 {
            assert_eq!(try_pop(&mut r), Some(((i + round) % 256) as u8));
        }
    }
}

#[test]
fn drain_forgets_everything() {
    let mut r = Ring::new();
    push(&mut r, 1);
    push(&mut r, 2);
    drain(&mut r);
    assert_eq!(try_pop(&mut r), None);
    push(&mut r, 3);
    assert_eq!(try_pop(&mut r), Some(3));
}
