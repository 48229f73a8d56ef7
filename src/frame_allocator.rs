use vstd::prelude::*;

verus! {

/// Size of one physical frame, in bytes.
pub const FRAME_SIZE: u64 = 4096;

/// How the boot memory map classifies a range of physical memory.
#[derive(Debug, Clone, Copy, PartialEq, Eq, Structural)]
pub enum MemoryRegionType {
    Usable,
    Reserved,
    Reclaimable,
}

/// One entry of the boot memory map: `length` bytes from `start`.
#[derive(Debug, Clone, Copy, PartialEq, Eq, Structural)]
pub struct MemoryRegion {
    pub start: u64,
    pub length: u64,
    pub kind: MemoryRegionType,
}

/// A 4 KiB physical frame, named by its start address.
#[derive(Debug, Clone, Copy, PartialEq, Eq, Structural)]
pub struct PhysFrame {
    pub start_address: u64,
}

/// Why a memory map was refused: `index` is the first region that either
/// runs past the end of the address space or starts before its predecessor
/// ends.
#[derive(Debug, Clone, Copy, PartialEq, Eq, Structural)]
pub enum MemoryMapError {
    InvalidRegion { index: usize },
}

pub open spec fn region_end(r: MemoryRegion) -> int {
    r.start as int + r.length as int
}

pub open spec fn is_usable(r: MemoryRegion) -> bool {
    r.kind == MemoryRegionType::Usable
}

/// The least multiple of the frame size at or above `a`.
pub open spec fn align_up(a: int) -> int {
    if a % 4096 == 0 {
        a
    } else {
        a - a % 4096 + 4096
    }
}

/// The frame starts `a`, `a + 4096`, ... whose whole frame ends by `end`.
pub open spec fn frames_between(a: int, end: int) -> Seq<u64>
    decreases end - a,
{
    if a + 4096 <= end {
        seq![a as u64] + frames_between(a + 4096, end)
    } else {
        Seq::empty()
    }
}

/// The aligned frames that lie wholly inside a usable region; none for
/// another kind.
pub open spec fn region_frames(r: MemoryRegion) -> Seq<u64> {
    if is_usable(r) {
        frames_between(align_up(r.start as int), region_end(r))
    } else {
        Seq::empty()
    }
}

/// The frames of regions `i..` in map order.
pub open spec fn frames_from(regions: Seq<MemoryRegion>, i: int) -> Seq<u64>
    decreases regions.len() - i,
{
    if 0 <= i < regions.len() {
        region_frames(regions[i]) + frames_from(regions, i + 1)
    } else {
        Seq::empty()
    }
}

/// Every frame that the memory map makes available, in the order in which
/// they are handed out.
pub open spec fn usable_frames(regions: Seq<MemoryRegion>) -> Seq<u64> {
    frames_from(regions, 0)
}

/// How many whole aligned frames a region offers.
pub open spec fn frame_count(r: MemoryRegion) -> nat {
    if is_usable(r) && align_up(r.start as int) + 4096 <= region_end(r) {
        ((region_end(r) - align_up(r.start as int)) / 4096) as nat
    } else {
        0
    }
}

/// Total usable capacity of regions `i..`, in frames.
pub open spec fn capacity_from(regions: Seq<MemoryRegion>, i: int) -> nat
    decreases regions.len() - i,
{
    if 0 <= i < regions.len() {
        frame_count(regions[i]) + capacity_from(regions, i + 1)
    } else {
        0
    }
}

pub open spec fn capacity(regions: Seq<MemoryRegion>) -> nat {
    capacity_from(regions, 0)
}

/// Region `i` fits in the address space and starts no earlier than the end
/// of region `i - 1`.
pub open spec fn region_ok(regions: Seq<MemoryRegion>, i: int) -> bool {
    &&& region_end(regions[i]) <= u64::MAX
    &&& (i == 0 || region_end(regions[i - 1]) <= regions[i].start)
}

/// The regions are in ascending order, disjoint, and inside the address space.
pub open spec fn memory_map_wf(regions: Seq<MemoryRegion>) -> bool {
    forall|i: int| 0 <= i < regions.len() ==> #[trigger] region_ok(regions, i)
}

/// The frame starting at `f` lies wholly inside a usable region.
pub open spec fn in_usable_region(regions: Seq<MemoryRegion>, f: int) -> bool {
    exists|k: int|
        0 <= k < regions.len() && is_usable(#[trigger] regions[k]) && regions[k].start <= f && f
            + 4096 <= region_end(regions[k])
}

/// What one `allocate_frame` call does: it hands out the next frame of
/// `usable_frames` while any is left, and `None` from then on.
pub open spec fn allocate_post(
    before: BootInfoFrameAllocator,
    after: BootInfoFrameAllocator,
    r: Option<PhysFrame>,
) -> bool {
    let frames = usable_frames(before.memory_map());
    &&& after.inv()
    &&& after.memory_map() == before.memory_map()
    &&& before.issued() < frames.len() ==> {
        &&& r == Some(PhysFrame { start_address: frames[before.issued() as int] })
        &&& after.issued() == before.issued() + 1
    }
    &&& before.issued() >= frames.len() ==> {
        &&& r is None
        &&& after.issued() == before.issued()
    }
}

/// Hands out the frames of a boot memory map's usable regions, each once,
/// in map order.
pub struct BootInfoFrameAllocator {
    regions: Vec<MemoryRegion>,
    region: usize,
    next: u64,
    issued: Ghost<nat>,
}

impl BootInfoFrameAllocator {
    /// The memory map that the allocator was made from.
    pub closed spec fn memory_map(&self) -> Seq<MemoryRegion> {
        self.regions@
    }

    /// How many frames have been handed out so far.
    pub closed spec fn issued(&self) -> nat {
        self.issued@
    }

    /// The frames not yet handed out, as the cursor sees them.
    closed spec fn remaining(&self) -> Seq<u64> {
        if self.region < self.regions@.len() {
            let r = self.regions@[self.region as int];
            (if is_usable(r) {
                frames_between(self.next as int, region_end(r))
            } else {
                Seq::empty()
            }) + frames_from(self.regions@, self.region + 1)
        } else {
            Seq::empty()
        }
    }

    pub closed spec fn inv(&self) -> bool {
        let all = usable_frames(self.regions@);
        &&& memory_map_wf(self.regions@)
        &&& self.region <= self.regions@.len()
        &&& self.issued@ <= all.len()
        &&& all.subrange(self.issued@ as int, all.len() as int) == self.remaining()
    }

    /// Wraps a boot memory map; refuses one whose regions overflow the
    /// address space or are out of order or overlap.
    pub fn init(regions: Vec<MemoryRegion>) -> (r: Result<BootInfoFrameAllocator, MemoryMapError>)
        ensures
            match r {
                Ok(a) => {
                    &&& memory_map_wf(regions@)
                    &&& a.inv()
                    &&& a.memory_map() == regions@
                    &&& a.issued() == 0
                },
                Err(MemoryMapError::InvalidRegion { index }) => {
                    &&& index < regions@.len()
                    &&& !region_ok(regions@, index as int)
                    &&& forall|j: int| 0 <= j < index ==> #[trigger] region_ok(regions@, j)
                },
            },
            r is Err <==> !memory_map_wf(regions@),
    {
        let mut i: usize = 0;
        while i < regions.len()
            invariant
                i <= regions@.len(),
                forall|j: int| 0 <= j < i ==> #[trigger] region_ok(regions@, j),
            decreases regions@.len() - i,
        {
            let r = regions[i];
            if r.length > u64::MAX - r.start {
                assert(!region_ok(regions@, i as int));
                return Err(MemoryMapError::InvalidRegion { index: i });
            }
            if i > 0 {
                let p = regions[i - 1];
                assert(region_ok(regions@, i - 1));
                if p.start + p.length > r.start {
                    assert(!region_ok(regions@, i as int));
                    return Err(MemoryMapError::InvalidRegion { index: i });
                }
            }
            i = i + 1;
        }
        let next = if regions.len() > 0 {
            assert(region_ok(regions@, 0));
            first_candidate(regions[0])
        } else {
            0
        };
        let a = BootInfoFrameAllocator { regions, region: 0, next, issued: Ghost(0) };
        proof {
            let all = usable_frames(a.regions@);
            assert(all.subrange(0, all.len() as int) =~= all);
        }
        Ok(a)
    }

    /// The next frame never handed out before, or `None` once every usable
    /// frame has been handed out.
    pub fn allocate_frame(&mut self) -> (r: Option<PhysFrame>)
        requires
            old(self).inv(),
        ensures
            allocate_post(*old(self), *final(self), r),
    {
        let ghost all = usable_frames(self.regions@);
        while self.region < self.regions.len()
            invariant
                self.inv(),
                self.regions@ == old(self).regions@,
                self.issued@ == old(self).issued@,
                all == usable_frames(self.regions@),
            decreases self.regions@.len() - self.region,
        {
            let r = self.regions[self.region];
            assert(region_ok(self.regions@, self.region as int));
            if r.kind == MemoryRegionType::Usable {
                let end = r.start + r.length;
                if self.next <= end && end - self.next >= FRAME_SIZE {
                    let f = self.next;
                    proof {
                        assert(frames_between(f as int, end as int) == seq![f] + frames_between(
                            f + 4096,
                            end as int,
                        ));
                        let i = self.issued@ as int;
                        assert(self.remaining()[0] == f);
                        assert(all.subrange(i, all.len() as int).len() > 0);
                        assert(all.subrange(i + 1, all.len() as int) =~= all.subrange(
                            i,
                            all.len() as int,
                        ).subrange(1, all.len() - i));
                        assert(all[i] == all.subrange(i, all.len() as int)[0]);
                    }
                    self.next = f + FRAME_SIZE;
                    self.issued = Ghost(self.issued@ + 1);
                    proof {
                        let rest = frames_from(self.regions@, self.region + 1);
                        let whole = seq![f] + frames_between(f + 4096, end as int) + rest;
                        assert(self.remaining() =~= whole.subrange(1, whole.len() as int));
                    }
                    return Some(PhysFrame { start_address: f });
                }
                proof {
                    assert(frames_between(self.next as int, end as int) =~= Seq::<u64>::empty());
                }
            }
            self.region = self.region + 1;
            if self.region < self.regions.len() {
                assert(region_ok(self.regions@, self.region as int));
                self.next = first_candidate(self.regions[self.region]);
            }
            proof {
                let k = self.region as int;
                if k < self.regions@.len() {
                    assert(region_ok(self.regions@, k));
                    assert(frames_from(self.regions@, k) == region_frames(self.regions@[k])
                        + frames_from(self.regions@, k + 1));
                }
                assert(self.remaining() =~= frames_from(self.regions@, k));
            }
        }
        proof {
            let i = self.issued@ as int;
            assert(all.subrange(i, all.len() as int).len() == 0);
        }
        None
    }
}

/// A start address for the cursor in a fresh region: its aligned start, or
/// its end where no whole frame fits.
fn first_candidate(r: MemoryRegion) -> (a: u64)
    requires
        region_end(r) <= u64::MAX,
    ensures
        frames_between(a as int, region_end(r)) == frames_between(
            align_up(r.start as int),
            region_end(r),
        ),
{
    let end = r.start + r.length;
    let rem = r.start % FRAME_SIZE;
    if rem == 0 {
        r.start
    } else {
        let base = r.start - rem;
        if end - base >= 2 * FRAME_SIZE {
            base + FRAME_SIZE
        } else {
            proof {
                assert(frames_between(align_up(r.start as int), end as int) =~= Seq::<u64>::empty());
                assert(frames_between(end as int, end as int) =~= Seq::<u64>::empty());
            }
            end
        }
    }
}

proof fn lemma_frames_between(a: int, end: int)
    requires
        0 <= a,
        end <= u64::MAX,
    ensures
        forall|k: int|
            0 <= k < frames_between(a, end).len() ==> {
                &&& #[trigger] frames_between(a, end)[k] == a + 4096 * k
                &&& frames_between(a, end)[k] + 4096 <= end
            },
        frames_between(a, end).len() == if a + 4096 <= end {
            (end - a) / 4096
        } else {
            0
        },
    decreases end - a,
{
    if a + 4096 <= end {
        lemma_frames_between(a + 4096, end);
        let s = frames_between(a, end);
        let t = frames_between(a + 4096, end);
        assert(s == seq![a as u64] + t);
        assert forall|k: int| 0 <= k < s.len() implies #[trigger] s[k] == a + 4096 * k && s[k] + 4096
            <= end by {
            if k > 0 {
                assert(s[k] == t[k - 1]);
            }
        }
    }
}

proof fn lemma_frames_from(regions: Seq<MemoryRegion>, i: int)
    requires
        memory_map_wf(regions),
        0 <= i <= regions.len(),
    ensures
        forall|k: int|
            0 <= k < frames_from(regions, i).len() ==> {
                &&& #[trigger] frames_from(regions, i)[k] % 4096 == 0
                &&& in_usable_region(regions, frames_from(regions, i)[k] as int)
                &&& i < regions.len() ==> frames_from(regions, i)[k] >= regions[i].start
            },
        forall|k1: int, k2: int|
            0 <= k1 < k2 < frames_from(regions, i).len() ==> #[trigger] frames_from(regions, i)[k1]
                < #[trigger] frames_from(regions, i)[k2],
        frames_from(regions, i).len() == capacity_from(regions, i),
    decreases regions.len() - i,
{
    if i < regions.len() {
        lemma_frames_from(regions, i + 1);
        let r = regions[i];
        assert(region_ok(regions, i));
        if i + 1 < regions.len() {
            assert(region_ok(regions, i + 1));
        }
        let a = region_frames(r);
        let b = frames_from(regions, i + 1);
        let s = frames_from(regions, i);
        assert(s == a + b);
        if is_usable(r) {
            lemma_frames_between(align_up(r.start as int), region_end(r));
        }
        assert(a.len() == frame_count(r));
        assert forall|k: int| 0 <= k < s.len() implies {
            &&& #[trigger] s[k] % 4096 == 0
            &&& in_usable_region(regions, s[k] as int)
            &&& s[k] >= r.start
        } by {
            if k < a.len() {
                assert(s[k] == a[k]);
                assert(regions[i] == r);
            } else {
                assert(s[k] == b[k - a.len()]);
            }
        }
        assert forall|k1: int, k2: int| 0 <= k1 < k2 < s.len() implies #[trigger] s[k1]
            < #[trigger] s[k2] by {
            if k2 < a.len() {
                assert(s[k1] == a[k1] && s[k2] == a[k2]);
            } else if k1 < a.len() {
                assert(s[k1] == a[k1] && s[k2] == b[k2 - a.len()]);
            } else {
                assert(s[k1] == b[k1 - a.len()] && s[k2] == b[k2 - a.len()]);
            }
        }
    }
}

/// Over a well-formed memory map, the frames handed out are strictly
/// ascending (so no frame is handed out twice), aligned to the frame size,
/// and each lies wholly inside a usable region.
pub proof fn lemma_frames_distinct_and_usable(regions: Seq<MemoryRegion>)
    requires
        memory_map_wf(regions),
    ensures
        forall|i: int, j: int|
            0 <= i < j < usable_frames(regions).len() ==> #[trigger] usable_frames(regions)[i]
                < #[trigger] usable_frames(regions)[j],
        forall|i: int|
            0 <= i < usable_frames(regions).len() ==> #[trigger] usable_frames(regions)[i] % 4096 == 0
                && in_usable_region(regions, usable_frames(regions)[i] as int),
{
    lemma_frames_from(regions, 0);
}

/// The allocator runs dry exactly when the usable capacity, counted in whole
/// aligned frames, has been handed out.
pub proof fn lemma_capacity(regions: Seq<MemoryRegion>)
    requires
        memory_map_wf(regions),
    ensures
        usable_frames(regions).len() == capacity(regions),
{
    lemma_frames_from(regions, 0);
}

/// Two successive successful allocations return different frames, the
/// second above the first, each wholly inside a usable region.
pub proof fn lemma_consecutive_allocations_distinct(
    a0: BootInfoFrameAllocator,
    a1: BootInfoFrameAllocator,
    a2: BootInfoFrameAllocator,
    f1: PhysFrame,
    f2: PhysFrame,
)
    requires
        a0.inv(),
        allocate_post(a0, a1, Some(f1)),
        allocate_post(a1, a2, Some(f2)),
    ensures
        f1.start_address < f2.start_address,
        in_usable_region(a0.memory_map(), f1.start_address as int),
        in_usable_region(a0.memory_map(), f2.start_address as int),
{
    lemma_frames_distinct_and_usable(a0.memory_map());
    let frames = usable_frames(a0.memory_map());
    assert(frames[a0.issued() as int] == f1.start_address);
    assert(frames[a1.issued() as int] == f2.start_address);
}

/// An allocation fails exactly when as many frames as the usable capacity
/// holds have been handed out.
pub proof fn lemma_exhausted_exactly_at_capacity(
    a0: BootInfoFrameAllocator,
    a1: BootInfoFrameAllocator,
    r: Option<PhysFrame>,
)
    requires
        a0.inv(),
        allocate_post(a0, a1, r),
    ensures
        r is None <==> a0.issued() >= capacity(a0.memory_map()),
        a0.issued() <= capacity(a0.memory_map()),
{
    lemma_capacity(a0.memory_map());
}

} // verus!
