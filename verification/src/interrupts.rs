//! Interrupt bookkeeping: the hardware interrupt vectors, the timer tick
//! counter and the keyboard path from scancodes to the input ring. Loading
//! the descriptor table and talking to the interrupt controllers is done by
//! the caller.

use vstd::prelude::*;
use pc_keyboard::{Keyboard, KeyEvent, DecodedKey, ScancodeSet1, HandleControl};
use pc_keyboard::layouts::Us104Key;
use crate::input::{Ring, CAP};

verus! {

/// The state of the PS/2 keyboard decoder of the `pc_keyboard` crate, for
/// scancode set 1 and the US 104-key layout with Ctrl combinations left as
/// letters, together with the key event it completed last and has not yet
/// handed on. Its contents (the partial scancode sequence and the modifier
/// keys) are opaque.
#[verifier::external_body]
pub struct KeyDecoderState {
    kb: Keyboard<Us104Key, ScancodeSet1>,
    event: Option<KeyEvent>,
}

/// The keyboard decoder with the history of scancode bytes it was fed since
/// it was made. Everything the decoder does is a function of that history.
pub struct KeyDecoder {
    state: KeyDecoderState,
    fed: Ghost<Seq<u8>>,
    pending: Ghost<bool>,
}

/// Whether the last byte of `fed` completes a key event, when the bytes of
/// `fed` are handed one by one to `pc_keyboard::Keyboard::add_byte` of a
/// decoder made by `Keyboard::new` (set 1, US 104-key layout, Ctrl
/// combinations left as letters), each completed event being handed to
/// `Keyboard::process_keyevent` before the next byte. A function of the
/// byte history alone: the decoder reads nothing else.
pub uninterp spec fn completes(fed: Seq<u8>) -> bool;

/// The character that `pc_keyboard::Keyboard::process_keyevent` gives for
/// the key event completed by the last byte of `fed`, fed as for
/// `completes`; `None` where it gives no Unicode character. A function of
/// the byte history alone.
pub uninterp spec fn decoded(fed: Seq<u8>) -> Option<char>;

impl KeyDecoder {
    /// The bytes fed to the decoder since it was made.
    pub closed spec fn fed(&self) -> Seq<u8> {
        self.fed@
    }

    /// No completed key event is waiting to be processed.
    pub closed spec fn wf(&self) -> bool {
        !self.pending@
    }

    /// Calls `pc_keyboard::Keyboard::new` with scancode set 1, the US
    /// 104-key layout and `HandleControl::Ignore`; no event is held.
    #[verifier::external_body]
    fn fresh() -> KeyDecoderState {
        KeyDecoderState {
            kb: Keyboard::new(ScancodeSet1::new(), Us104Key, HandleControl::Ignore),
            event: None,
        }
    }

    /// A decoder with no key pressed and no scancode sequence under way.
    pub fn new() -> (d: KeyDecoder)
        ensures
            d.fed() == Seq::<u8>::empty(),
            d.wf(),
    {
        KeyDecoder { state: KeyDecoder::fresh(), fed: Ghost(Seq::empty()), pending: Ghost(false) }
    }
}

/// Vector of the first interrupt of the primary controller.
pub const PIC_1_OFFSET: u8 = 32;
/// Vector of the first interrupt of the secondary controller.
pub const PIC_2_OFFSET: u8 = 40;

/// Hardware interrupts the system handles.
#[derive(Copy, Clone, Debug, PartialEq, Eq, Structural)]
pub enum InterruptIndex {
    /// IRQ 0.
    Timer,
    /// IRQ 1.
    Keyboard,
    /// IRQ 12, on the secondary controller.
    Mouse,
    /// IRQ 14.
    IdePrimary,
    /// IRQ 15.
    IdeSecondary,
}

/// The vector of an interrupt: `PIC_1_OFFSET` plus its IRQ line.
pub open spec fn vector(i: InterruptIndex) -> u8 {
    match i {
        InterruptIndex::Timer => 32,
        InterruptIndex::Keyboard => 33,
        InterruptIndex::Mouse => 44,
        InterruptIndex::IdePrimary => 46,
        InterruptIndex::IdeSecondary => 47,
    }
}

impl InterruptIndex {
    pub fn as_u8(self) -> (v: u8)
        ensures
            v == vector(self),
    {
        match self {
            InterruptIndex::Timer => PIC_1_OFFSET,
            InterruptIndex::Keyboard => PIC_1_OFFSET + 1,
            InterruptIndex::Mouse => PIC_1_OFFSET + 12,
            InterruptIndex::IdePrimary => PIC_1_OFFSET + 14,
            InterruptIndex::IdeSecondary => PIC_1_OFFSET + 15,
        }
    }
}

/// Timer interrupts since boot.
pub struct Ticks {
    count: u64,
}

impl Ticks {
    pub closed spec fn count(&self) -> u64 {
        self.count
    }

    pub fn new() -> (t: Ticks)
        ensures
            t.count() == 0,
    {
        Ticks { count: 0 }
    }

    /// One more timer interrupt (the counter wraps, as an atomic add does).
    pub fn tick(&mut self)
        ensures
            final(self).count() == (if old(self).count() == u64::MAX { 0 } else { old(self).count() + 1 }),
    {
        self.count = self.count.wrapping_add(1);
    }
}

/// Timer interrupts counted so far.
pub fn ticks(t: &Ticks) -> (n: u64)
    ensures
        n == t.count(),
{
    t.count
}

/// The byte the input ring gets for a decoded character: ASCII only.
pub fn ascii_of(c: char) -> (r: Option<u8>)
    ensures
        (c as u32) < 128 ==> r == Some((c as u32) as u8) && (c as u32) as u8 == c as u32,
        (c as u32) >= 128 ==> r is None,
{
    let v = c as u32;
    if v < 128 {
        Some(v as u8)
    } else {
        None
    }
}

/// Calls `pc_keyboard::Keyboard::add_byte` on the decoder with one more
/// scancode byte, and keeps the key event it completes, if any, for
/// `kb_process` (a decoding error completes nothing). The decoder has been
/// fed `fed` before, each completed event processed, so whether this byte
/// completes an event is `completes` of the history with the byte added.
/// The ghost history is left for the caller to extend.
#[verifier::external_body]
fn kb_add_byte(kb: &mut KeyDecoder, byte: u8) -> (done: bool)
    requires
        !old(kb).pending@,
    ensures
        done == completes(old(kb).fed@.push(byte)),
        final(kb).fed == old(kb).fed,
        final(kb).pending == old(kb).pending,
{
    kb.state.event = match kb.state.kb.add_byte(byte) {
        Ok(ev) => ev,
        Err(_) => None,
    };
    kb.state.event.is_some()
}

/// Calls `pc_keyboard::Keyboard::process_keyevent` on the key event that
/// the last byte of the history completed, which updates the modifier
/// state, and returns the Unicode character it decodes to, if any (a raw
/// key gives none): that is `decoded` of the history.
#[verifier::external_body]
fn kb_process(kb: &mut KeyDecoder) -> (c: Option<char>)
    requires
        old(kb).pending@,
        completes(old(kb).fed@),
    ensures
        c == decoded(old(kb).fed@),
        final(kb).fed == old(kb).fed,
        final(kb).pending == old(kb).pending,
{
    match kb.state.event.take() {
        Some(ev) => match kb.state.kb.process_keyevent(ev) {
            Some(DecodedKey::Unicode(ch)) => Some(ch),
            Some(DecodedKey::RawKey(_)) => None,
            None => None,
        },
        None => None,
    }
}

/// What the input ring holds after the decoder produced `c`: the
/// character's byte appended when it is ASCII and the ring has room, the
/// ring unchanged otherwise.
pub open spec fn queued(before: Seq<u8>, c: Option<char>) -> Seq<u8> {
    match c {
        Some(ch) => if (ch as u32) < 128 && before.len() < CAP - 1 { before.push((ch as u32) as u8) } else { before },
        None => before,
    }
}

/// Queues the character the decoder produced: its byte goes into the ring
/// when it is ASCII and the ring has room.
pub fn queue_decoded(ring: &mut Ring, c: Option<char>)
    requires
        old(ring).wf(),
    ensures
        final(ring).wf(),
        final(ring).contents() == queued(old(ring).contents(), c),
{
    match c {
        Some(ch) => match ascii_of(ch) {
            Some(b) => {
                crate::input::push(ring, b);
            },
            None => {},
        },
        None => {},
    }
}

/// A scancode byte arrived: feed it to the decoder, and queue the character
/// it completes when that is ASCII. Returns the character the decoder
/// produced, if any.
pub fn keyboard_byte(kb: &mut KeyDecoder, ring: &mut Ring, scancode: u8) -> (c: Option<char>)
    requires
        old(kb).wf(),
        old(ring).wf(),
    ensures
        final(kb).wf(),
        final(kb).fed() == old(kb).fed().push(scancode),
        c == (if completes(final(kb).fed()) { decoded(final(kb).fed()) } else { None }),
        final(ring).wf(),
        final(ring).contents() == queued(old(ring).contents(), c),
{
    let done = kb_add_byte(kb, scancode);
    proof {
        kb.fed = Ghost(kb.fed@.push(scancode));
    }
    let c = if done {
        proof {
            kb.pending = Ghost(true);
        }
        let c = kb_process(kb);
        proof {
            kb.pending = Ghost(false);
        }
        c
    } else {
        None
    };
    queue_decoded(ring, c);
    c
}

} // verus!
