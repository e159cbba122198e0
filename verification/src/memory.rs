//! Physical frame allocation from the boot memory map.
//!
//! The allocator walks the memory map in order and hands out, one after the
//! other, the 4 KiB frames that contain the addresses `start`, `start +
//! 4096`, ... below `end` of each usable region. It never gives a frame
//! back; the n-th call returns the n-th such frame.

use vstd::prelude::*;

verus! {

/// Size of a physical frame.
pub const FRAME_SIZE: u64 = 4096;

/// One entry of the boot memory map: physical `[start, end)`, and whether
/// the firmware marked it usable RAM.
#[derive(Clone, Copy, Debug, PartialEq, Eq, Structural)]
pub struct MemoryRegion {
    pub start: u64,
    pub end: u64,
    pub usable: bool,
}

/// Start of the frame that contains `addr`.
pub open spec fn frame_of(addr: int) -> int {
    addr - addr % 4096
}

/// How many addresses `start + 4096 * i` lie below `end`.
pub open spec fn step_count(start: int, end: int) -> nat {
    if start < end { ((end - start - 1) / 4096 + 1) as nat } else { 0 }
}

/// The frames a region contributes, in order.
pub open spec fn region_frames(r: MemoryRegion) -> Seq<int> {
    if r.usable {
        Seq::new(step_count(r.start as int, r.end as int), |i: int| frame_of(r.start + 4096 * i))
    } else {
        Seq::empty()
    }
}

/// All usable frames of a memory map, region after region.
pub open spec fn usable_frames(regions: Seq<MemoryRegion>) -> Seq<int>
    decreases regions.len(),
{
    if regions.len() == 0 {
        Seq::empty()
    } else {
        region_frames(regions[0]) + usable_frames(regions.drop_first())
    }
}

/// The `n`-th usable frame, if there are that many.
pub open spec fn nth_frame(regions: Seq<MemoryRegion>, n: int) -> Option<int> {
    if 0 <= n < usable_frames(regions).len() {
        Some(usable_frames(regions)[n])
    } else {
        None
    }
}

/// Bump allocator over the usable frames of the boot memory map. The map
/// itself is handed to each call: it lives where the boot loader put it,
/// and the allocator is needed before there is a heap to copy it to.
pub struct BootInfoFrameAllocator {
    /// How many frames were handed out so far.
    pub next: usize,
}

proof fn lemma_nth_frame_step(s: Seq<MemoryRegion>, k: int)
    requires
        s.len() > 0,
        0 <= k,
    ensures
        nth_frame(s, k) == (if k < region_frames(s[0]).len() {
            Some(region_frames(s[0])[k])
        } else {
            nth_frame(s.drop_first(), k - region_frames(s[0]).len())
        }),
{
    let a = region_frames(s[0]);
    let b = usable_frames(s.drop_first());
    assert(usable_frames(s) == a + b);
}

impl BootInfoFrameAllocator {
    /// An allocator that has handed out nothing yet.
    pub fn new() -> (a: Self)
        ensures
            a.next == 0,
    {
        BootInfoFrameAllocator { next: 0 }
    }

    /// The `n`-th usable frame of the map.
    pub fn usable_frame(regions: &[MemoryRegion], n: usize) -> (r: Option<u64>)
        ensures
            match r {
                Some(f) => nth_frame(regions@, n as int) == Some(f as int),
                None => nth_frame(regions@, n as int) is None,
            },
    {
        let mut i: usize = 0;
        let mut rem: u64 = n as u64;
        proof {
            assert(regions@.subrange(0, regions@.len() as int) == regions@);
        }
        while i < regions.len()
            invariant
                i <= regions@.len(),
                rem <= n,
                nth_frame(regions@.subrange(i as int, regions@.len() as int), rem as int)
                    == nth_frame(regions@, n as int),
            decreases regions@.len() - i,
        {
            let ghost s = regions@.subrange(i as int, regions@.len() as int);
            let r = regions[i];
            proof {
                assert(s[0] == r);
                assert(s.drop_first() == regions@.subrange(i + 1, regions@.len() as int));
                lemma_nth_frame_step(s, rem as int);
            }
            if r.usable && r.start < r.end {
                let count: u64 = (r.end - r.start - 1) / FRAME_SIZE + 1;
                if rem < count {
                    let addr: u64 = r.start + FRAME_SIZE * rem;
                    proof {
                        assert(FRAME_SIZE * rem <= r.end - r.start - 1) by (nonlinear_arith)
                            requires
                                rem < (r.end - r.start - 1) / 4096 + 1,
                                FRAME_SIZE == 4096,
                                r.start < r.end;
                    }
                    let frame = addr - addr % FRAME_SIZE;
                    return Some(frame);
                }
                rem = rem - count;
            }
            i = i + 1;
        }
        proof {
            assert(regions@.subrange(i as int, regions@.len() as int).len() == 0);
            assert(usable_frames(regions@.subrange(i as int, regions@.len() as int)) == Seq::<int>::empty());
        }
        None
    }

    /// Hand out the next usable frame (`None` once the map is exhausted; the
    /// count still advances, as each call asks for the following frame).
    pub fn allocate_frame(&mut self, regions: &[MemoryRegion]) -> (r: Option<u64>)
        requires
            old(self).next < usize::MAX,
        ensures
            final(self).next == old(self).next + 1,
            match r {
                Some(f) => nth_frame(regions@, old(self).next as int) == Some(f as int),
                None => nth_frame(regions@, old(self).next as int) is None,
            },
    {
        let frame = Self::usable_frame(regions, self.next);
        self.next = self.next + 1;
        frame
    }
}

/// Every frame handed out is frame-aligned and lies in a usable region.
pub proof fn lemma_frames_usable(regions: Seq<MemoryRegion>, n: int)
    requires
        0 <= n < usable_frames(regions).len(),
    ensures
        usable_frames(regions)[n] % 4096 == 0,
        exists|j: int| 0 <= j < regions.len() && (#[trigger] regions[j]).usable
            && regions[j].start - 4095 <= usable_frames(regions)[n] < regions[j].end,
    decreases regions.len(),
{
    let a = region_frames(regions[0]);
    let rest = regions.drop_first();
    assert(usable_frames(regions) == a + usable_frames(rest));
    if n < a.len() {
        let i = n;
        let addr = regions[0].start + 4096 * i;
        assert(a[n] == frame_of(addr));
        assert(4096 * i <= regions[0].end - regions[0].start - 1) by (nonlinear_arith)
            requires
                0 <= i < (regions[0].end - regions[0].start - 1) / 4096 + 1,
                regions[0].start < regions[0].end;
        assert(regions[0].usable);
    } else {
        lemma_frames_usable(rest, n - a.len());
        let j = choose|j: int| 0 <= j < rest.len() && (#[trigger] rest[j]).usable
            && rest[j].start - 4095 <= usable_frames(rest)[n - a.len()] < rest[j].end;
        assert(regions[j + 1] == rest[j]);
    }
}


/// A memory map whose regions come in address order without overlapping,
/// with every usable region starting on a frame boundary.
pub open spec fn map_ordered(regions: Seq<MemoryRegion>) -> bool {
    &&& forall|i: int, j: int| 0 <= i < j < regions.len() ==> (#[trigger] regions[i]).end <= (#[trigger] regions[j]).start
    &&& forall|i: int| 0 <= i < regions.len() && (#[trigger] regions[i]).usable ==> regions[i].start % 4096 == 0
}

/// Frame `i` of an aligned usable region is `start + 4096 i`, inside it.
proof fn lemma_region_frame(r: MemoryRegion, i: int)
    requires
        r.usable,
        r.start % 4096 == 0,
        0 <= i < region_frames(r).len(),
    ensures
        region_frames(r)[i] == r.start + 4096 * i,
        r.start <= region_frames(r)[i] < r.end,
{
    vstd::arithmetic::div_mod::lemma_mod_multiples_vanish(i, r.start as int, 4096);
    assert(4096 * i + r.start == r.start + 4096 * i);
    assert(4096 * i <= r.end - r.start - 1) by (nonlinear_arith)
        requires
            0 <= i < (r.end - r.start - 1) / 4096 + 1,
            r.start < r.end;
}

/// In an ordered map whose regions all start at or above `lo`, every
/// usable frame is at or above `lo`.
proof fn lemma_frames_at_least(s: Seq<MemoryRegion>, lo: int, k: int)
    requires
        map_ordered(s),
        forall|j: int| 0 <= j < s.len() ==> (#[trigger] s[j]).start >= lo,
        0 <= k < usable_frames(s).len(),
    ensures
        usable_frames(s)[k] >= lo,
    decreases s.len(),
{
    let fr = region_frames(s[0]);
    let rest = s.drop_first();
    assert(usable_frames(s) == fr + usable_frames(rest));
    if k < fr.len() {
        assert(s[0].usable);
        lemma_region_frame(s[0], k);
    } else {
        assert forall|j: int| 0 <= j < rest.len() implies (#[trigger] rest[j]).start >= lo by {
            assert(rest[j] == s[j + 1]);
        }
        assert forall|a: int, b: int| 0 <= a < b < rest.len() implies (#[trigger] rest[a]).end <= (#[trigger] rest[b]).start by {
            assert(rest[a] == s[a + 1] && rest[b] == s[b + 1]);
        }
        assert forall|a: int| 0 <= a < rest.len() && (#[trigger] rest[a]).usable implies rest[a].start % 4096 == 0 by {
            assert(rest[a] == s[a + 1]);
        }
        lemma_frames_at_least(rest, lo, k - fr.len());
    }
}

/// No frame is handed out twice: on an ordered map the usable frames
/// strictly increase.
pub proof fn lemma_frames_distinct(regions: Seq<MemoryRegion>, a: int, b: int)
    requires
        map_ordered(regions),
        0 <= a < b < usable_frames(regions).len(),
    ensures
        usable_frames(regions)[a] < usable_frames(regions)[b],
    decreases regions.len(),
{
    let fr = region_frames(regions[0]);
    let rest = regions.drop_first();
    assert(usable_frames(regions) == fr + usable_frames(rest));
    assert forall|x: int, y: int| 0 <= x < y < rest.len() implies (#[trigger] rest[x]).end <= (#[trigger] rest[y]).start by {
        assert(rest[x] == regions[x + 1] && rest[y] == regions[y + 1]);
    }
    assert forall|x: int| 0 <= x < rest.len() && (#[trigger] rest[x]).usable implies rest[x].start % 4096 == 0 by {
        assert(rest[x] == regions[x + 1]);
    }
    if b < fr.len() {
        assert(regions[0].usable);
        lemma_region_frame(regions[0], a);
        lemma_region_frame(regions[0], b);
    } else if a < fr.len() {
        assert(regions[0].usable);
        lemma_region_frame(regions[0], a);
        assert forall|j: int| 0 <= j < rest.len() implies (#[trigger] rest[j]).start >= regions[0].end by {
            assert(rest[j] == regions[j + 1]);
        }
        lemma_frames_at_least(rest, regions[0].end as int, b - fr.len());
    } else {
        lemma_frames_distinct(rest, a - fr.len(), b - fr.len());
    }
}

} // verus!
