//! Keyboard input buffer: a fixed ring of `CAP` bytes that never touches
//! the allocator after it is made, so the keyboard interrupt can feed it.
//! One slot stays empty to tell a full ring from an empty one, so it holds
//! at most `CAP - 1` bytes; a byte pushed into a full ring is dropped.

use vstd::prelude::*;

verus! {

/// Slots in the ring.
pub const CAP: usize = 256;

pub struct Ring {
    buf: Vec<u8>,
    /// Next slot to write.
    head: usize,
    /// Next slot to read.
    tail: usize,
}

impl Ring {
    pub closed spec fn wf(&self) -> bool {
        &&& self.buf@.len() == CAP
        &&& self.head < CAP
        &&& self.tail < CAP
    }

    /// Number of queued bytes.
    pub closed spec fn count(&self) -> nat {
        ((self.head + CAP - self.tail) % (CAP as int)) as nat
    }

    /// The queued bytes, oldest first.
    pub closed spec fn contents(&self) -> Seq<u8> {
        Seq::new(self.count(), |k: int| self.buf@[(self.tail + k) % (CAP as int)])
    }

    /// An empty ring.
    pub fn new() -> (r: Ring)
        ensures
            r.wf(),
            r.contents() == Seq::<u8>::empty(),
    {
        let mut buf: Vec<u8> = Vec::new();
        let mut k: usize = 0;
        while k < CAP
            invariant
                k <= CAP,
                buf@.len() == k,
            decreases CAP - k,
        {
            buf.push(0u8);
            k = k + 1;
        }
        let r = Ring { buf, head: 0, tail: 0 };
        assert(r.contents() =~= Seq::<u8>::empty());
        r
    }

    /// Append `b`; `false` (and nothing queued) when the ring is full.
    pub fn push(&mut self, b: u8) -> (ok: bool)
        requires
            old(self).wf(),
        ensures
            final(self).wf(),
            ok == (old(self).contents().len() < CAP - 1),
            ok ==> final(self).contents() == old(self).contents().push(b),
            !ok ==> final(self).contents() == old(self).contents(),
    {
        let next = (self.head + 1) % CAP;
        if next == self.tail {
            return false;
        }
        let ghost old_c = self.contents();
        self.buf.set(self.head, b);
        self.head = next;
        proof {
            assert(self.contents().len() == old_c.len() + 1);
            assert forall|k: int| 0 <= k < old_c.len() implies #[trigger] self.contents()[k] == old_c[k] by {
                assert((self.tail + k) % (CAP as int) != old(self).head as int);
            }
            assert(self.contents()[old_c.len() as int] == b) by {
                assert((self.tail + old_c.len()) % (CAP as int) == old(self).head as int);
            }
            assert(self.contents() =~= old_c.push(b));
        }
        true
    }

    /// Take the oldest byte.
    pub fn pop(&mut self) -> (r: Option<u8>)
        requires
            old(self).wf(),
        ensures
            final(self).wf(),
            old(self).contents().len() == 0 ==> r is None && final(self).contents() == old(self).contents(),
            old(self).contents().len() > 0 ==> r == Some(old(self).contents()[0])
                && final(self).contents() == old(self).contents().drop_first(),
    {
        if self.tail == self.head {
            return None;
        }
        let ghost old_c = self.contents();
        let b = self.buf[self.tail];
        self.tail = (self.tail + 1) % CAP;
        proof {
            assert(old_c[0] == b);
            assert(self.contents().len() == old_c.len() - 1);
            assert forall|k: int| 0 <= k < self.contents().len() implies #[trigger] self.contents()[k] == old_c[k + 1] by {
                assert((self.tail + k) % (CAP as int) == (old(self).tail + (k + 1)) % (CAP as int));
            }
            assert(self.contents() =~= old_c.drop_first());
        }
        Some(b)
    }

    /// Forget every queued byte.
    pub fn clear(&mut self)
        requires
            old(self).wf(),
        ensures
            final(self).wf(),
            final(self).contents() == Seq::<u8>::empty(),
    {
        self.tail = self.head;
        assert(self.contents() =~= Seq::<u8>::empty());
    }
}

/// Append a byte from the keyboard; dropped when the ring is full.
pub fn push(ring: &mut Ring, b: u8)
    requires
        old(ring).wf(),
    ensures
        final(ring).wf(),
        old(ring).contents().len() < CAP - 1 ==> final(ring).contents() == old(ring).contents().push(b),
        old(ring).contents().len() >= CAP - 1 ==> final(ring).contents() == old(ring).contents(),
{
    let _ = ring.push(b);
}

/// Discard every buffered keystroke.
pub fn drain(ring: &mut Ring)
    requires
        old(ring).wf(),
    ensures
        final(ring).wf(),
        final(ring).contents() == Seq::<u8>::empty(),
{
    ring.clear();
}

/// The oldest buffered keystroke, if any.
pub fn try_pop(ring: &mut Ring) -> (r: Option<u8>)
    requires
        old(ring).wf(),
    ensures
        final(ring).wf(),
        old(ring).contents().len() == 0 ==> r is None && final(ring).contents() == old(ring).contents(),
        old(ring).contents().len() > 0 ==> r == Some(old(ring).contents()[0])
            && final(ring).contents() == old(ring).contents().drop_first(),
{
    ring.pop()
}

/// A ring never holds more than `CAP - 1` bytes.
pub proof fn lemma_capacity(r: &Ring)
    requires
        r.wf(),
    ensures
        r.contents().len() <= CAP - 1,
{
}

/// What is pushed comes out first-in first-out: pushing `b` onto a ring
/// holding `s` (with room) and then popping `s.len() + 1` times yields `s`
/// followed by `b`.
pub proof fn lemma_fifo(s: Seq<u8>, b: u8)
    requires
        s.len() < CAP - 1,
    ensures
        s.push(b)[s.len() as int] == b,
        s.push(b).drop_first() == (if s.len() == 0 { Seq::<u8>::empty() } else { s.drop_first().push(b) }),
        s.len() > 0 ==> s.push(b)[0] == s[0],
{
    if s.len() == 0 {
        assert(s.push(b).drop_first() =~= Seq::<u8>::empty());
    } else {
        assert(s.push(b).drop_first() =~= s.drop_first().push(b));
    }
}

} // verus!
