//! Physical frames and the frame allocator. Physical memory is divided into
//! 4096-byte frames; one descriptor per frame records its state, and
//! allocation hands out the first run of free frames that is long enough.

use vstd::prelude::*;

use crate::addr::{PAddr, VAddr, FRAME_SIZE, LOWMEM_VA_START, lowmem_size, lowmem_va_start};
use crate::misc::{align_up, aligned_up};
use crate::vm::{VmMemory, zeroed};

verus! {

/// The state of one physical frame.
#[derive(Clone, Copy, Debug, PartialEq, Eq, Structural)]
pub enum FrameState {
    /// The frame cannot be used at all.
    Unusable,
    /// General-purpose RAM that nobody uses: the only state `allocate` takes.
    FreeRAM,
    /// General-purpose RAM in use.
    AllocatedRAM,
    /// A reserved area (MMIO, framebuffer...) that nobody has claimed.
    UnclaimedReserved,
    /// A reserved area that has been claimed.
    ClaimedReserved,
}

/// The descriptor of one physical frame.
#[derive(Clone, Copy, Debug)]
pub struct Frame {
    pub state: FrameState,
}

/// The largest number of frames an allocator describes: their addresses fit
/// in 64 bits.
pub const MAX_FRAMES: usize = 0xffff_ffff;

/// The physical address of frame `i`.
pub open spec fn frame_pa(i: int) -> int {
    i * 4096
}

/// The frames `start` to `start + n - 1` all exist and are free.
pub open spec fn free_run(s: Seq<FrameState>, start: int, n: int) -> bool {
    0 <= start && start + n <= s.len() && forall|k: int|
        start <= k < start + n ==> #[trigger] s[k] == FrameState::FreeRAM
}

/// No run of `n` free frames starts before `start`.
pub open spec fn no_earlier_run(s: Seq<FrameState>, start: int, n: int) -> bool {
    forall|j: int| 0 <= j < start ==> !#[trigger] free_run(s, j, n)
}

/// The `n` frames from `start` on lie entirely in low memory.
pub open spec fn low_run(start: int, n: int) -> bool {
    frame_pa(start + n) <= lowmem_size()
}

/// `s` with the frames `start` to `start + n - 1` set to `st`.
pub open spec fn paint(s: Seq<FrameState>, start: int, n: int, st: FrameState) -> Seq<FrameState> {
    Seq::new(s.len(), |k: int| if start <= k < start + n { st } else { s[k] })
}

/// The state a frame goes back to when it is freed.
pub open spec fn freed_state(st: FrameState) -> FrameState {
    match st {
        FrameState::ClaimedReserved => FrameState::UnclaimedReserved,
        _ => FrameState::FreeRAM,
    }
}

/// A frame in this state can be freed.
pub open spec fn freeable(st: FrameState) -> bool {
    st == FrameState::AllocatedRAM || st == FrameState::ClaimedReserved
}

/// `s` with every frame from `start` to `start + n - 1` freed.
pub open spec fn release(s: Seq<FrameState>, start: int, n: int) -> Seq<FrameState> {
    Seq::new(s.len(), |k: int| if start <= k < start + n { freed_state(s[k]) } else { s[k] })
}

/// What first-fit allocation of `n` frames returns on `s`: the first run of
/// `n` free frames, unless high memory is refused and that run does not lie
/// entirely in low memory.
pub open spec fn allocation_result(s: Seq<FrameState>, n: int, can_highmem: bool, r: Option<PAddr>) -> bool {
    match r {
        Some(pa) => {
            &&& n > 0
            &&& pa.0 % 4096 == 0
            &&& free_run(s, pa.0 as int / 4096, n)
            &&& no_earlier_run(s, pa.0 as int / 4096, n)
            &&& (can_highmem || low_run(pa.0 as int / 4096, n))
        },
        None => {
            ||| n == 0
            ||| forall|j: int| !#[trigger] free_run(s, j, n)
            ||| (!can_highmem && exists|j: int|
                #![trigger free_run(s, j, n)]
                free_run(s, j, n) && no_earlier_run(s, j, n) && !low_run(j, n))
        },
    }
}

/// The physical frame allocator: one descriptor per frame of physical memory.
pub struct FrameAllocator {
    frames: Vec<Frame>,
}

/// The states of a descriptor array.
pub open spec fn states_of(frames: Seq<Frame>) -> Seq<FrameState> {
    Seq::new(frames.len(), |i: int| frames[i].state)
}

impl View for FrameAllocator {
    type V = Seq<FrameState>;

    closed spec fn view(&self) -> Seq<FrameState> {
        states_of(self.frames@)
    }
}

impl FrameAllocator {
    /// The descriptor array is small enough for frame addresses to fit.
    pub closed spec fn wf(&self) -> bool {
        self.frames.len() <= MAX_FRAMES
    }

    /// The number of frames described.
    pub fn nr_frames(&self) -> (r: usize)
        requires
            self.wf(),
        ensures
            r == self@.len(),
            r <= MAX_FRAMES,
    {
        self.frames.len()
    }

    /// The state of frame `index`.
    pub fn frame_state(&self, index: usize) -> (r: FrameState)
        requires
            index < self@.len(),
        ensures
            r == self@[index as int],
    {
        self.frames[index].state
    }

    fn frame_paddr(frame_index: usize) -> (r: PAddr)
        requires
            frame_index <= MAX_FRAMES,
        ensures
            r.0 == frame_pa(frame_index as int),
    {
        assert(frame_index as u64 * 4096 <= 0xffff_ffff * 4096) by (nonlinear_arith)
            requires
                frame_index <= 0xffff_ffff,
        ;
        PAddr(frame_index as u64 * FRAME_SIZE as u64)
    }

    fn index_from_paddr(frame_paddr: PAddr) -> (r: u64)
        ensures
            r == frame_paddr.0 / 4096,
    {
        frame_paddr.0 / FRAME_SIZE as u64
    }

    /// Allocate `nr_frames` contiguous free frames, first fit from frame 0.
    /// When `can_highmem` is false and the first run found reaches into high
    /// memory the call fails rather than look further. The frames become
    /// allocated; the physical address of the first one is returned.
    pub fn allocate(&mut self, nr_frames: usize, can_highmem: bool) -> (r: Option<PAddr>)
        requires
            old(self).wf(),
        ensures
            final(self).wf(),
            allocation_result(old(self)@, nr_frames as int, can_highmem, r),
            r matches Some(pa) ==> final(self)@ == paint(
                old(self)@,
                pa.0 as int / 4096,
                nr_frames as int,
                FrameState::AllocatedRAM,
            ),
            r is None ==> final(self)@ == old(self)@,
    {
        let ghost s = self@;
        let n = nr_frames;
        let len = self.frames.len();
        let mut nr_free: usize = 0;
        let mut i: usize = 0;
        while i < len
            invariant
                s == states_of(self.frames@),
                s == self@,
                n == nr_frames,
                self@ == old(self)@,
                self.wf(),
                len == self.frames.len(),
                len <= MAX_FRAMES,
                i <= len,
                nr_free <= i,
                n == 0 || nr_free < n,
                forall|k: int| i - nr_free <= k < i ==> #[trigger] s[k] == FrameState::FreeRAM,
                i - nr_free > 0 ==> s[i - nr_free - 1] != FrameState::FreeRAM,
                n > 0 ==> forall|j: int| 0 <= j && j + n <= i ==> !#[trigger] free_run(s, j, n as int),
                !can_highmem ==> forall|k: int|
                    0 <= k < i && #[trigger] s[k] == FrameState::FreeRAM ==> frame_pa(k) < lowmem_size(),
            decreases len - i,
        {
            if self.frames[i].state == FrameState::FreeRAM {
                let paddr = Self::frame_paddr(i);
                if paddr.is_highmem() && !can_highmem {
                    proof {
                        assert(s[i as int] == FrameState::FreeRAM);
                        if n > 0 && exists|j: int| free_run(s, j, n as int) {
                            let j0 = choose|j: int| free_run(s, j, n as int);
                            let jm = lemma_first_run(s, j0, n as int);
                            if jm <= i {
                                if jm + n <= i {
                                    assert(!free_run(s, jm, n as int));
                                }
                            }
                            assert(jm + n > i);
                            assert(frame_pa(i as int) >= lowmem_size());
                            assert(!low_run(jm, n as int));
                            assert(free_run(s, jm, n as int) && no_earlier_run(s, jm, n as int)
                                && !low_run(jm, n as int));
                        }
                        assert(allocation_result(s, n as int, can_highmem, None));

                    }
                    return None;
                }
                let ghost old_free = nr_free;
                nr_free = nr_free + 1;
                if nr_free == n {
                    let start = i + 1 - n;
                    proof {
                        assert(free_run(s, start as int, n as int));
                        assert forall|j: int| 0 <= j < start implies !#[trigger] free_run(s, j, n as int) by {
                            assert(j + n <= i);
                        }
                        if !can_highmem {
                            assert(frame_pa(i as int) < lowmem_size());
                        }
                    }
                    paint_frames(&mut self.frames, start, n, FrameState::AllocatedRAM);
                    let pa = Self::frame_paddr(start);
                    proof {
                        assert(pa.0 as int / 4096 == start);
                        assert(allocation_result(s, n as int, can_highmem, Some(pa)));
                    }
                    return Some(pa);
                }
                proof {
                    if n > 0 {
                        assert forall|j: int| 0 <= j && j + n <= i + 1 implies !#[trigger] free_run(s, j, n as int) by {
                            if j + n == i + 1 {
                                assert(i - old_free > 0);
                                let h = i - old_free - 1;
                                assert(s[h] != FrameState::FreeRAM);
                                assert(j <= h < j + n);
                            } else {
                                assert(j + n <= i);
                            }
                        }
                    }
                }
            } else {
                proof {
                    if n > 0 {
                        assert forall|j: int| 0 <= j && j + n <= i + 1 implies !#[trigger] free_run(s, j, n as int) by {
                            if j + n == i + 1 {
                                assert(s[i as int] != FrameState::FreeRAM);
                                assert(j <= i < j + n);
                            } else {
                                assert(j + n <= i);
                            }
                        }
                    }
                }
                nr_free = 0;
            }
            i = i + 1;
        }
        proof {
            if n > 0 {
                assert forall|j: int| !#[trigger] free_run(s, j, n as int) by {
                    if 0 <= j && j + n <= len {
                        assert(j + n <= i);
                    }
                }
            }
        }
        None
    }
}

impl FrameAllocator {
    /// Free the `nr_frames` frames from `frame_addr` on: allocated RAM becomes
    /// free again, a claimed reserved area becomes unclaimed. Every frame of
    /// the range must be allocated or claimed.
    pub fn free(&mut self, frame_addr: PAddr, nr_frames: usize)
        requires
            old(self).wf(),
            frame_addr.0 % 4096 == 0,
            frame_addr.0 / 4096 + nr_frames <= old(self)@.len(),
            forall|k: int|
                frame_addr.0 / 4096 <= k < frame_addr.0 / 4096 + nr_frames
                    ==> freeable(#[trigger] old(self)@[k]),
        ensures
            final(self).wf(),
            final(self)@ == release(old(self)@, frame_addr.0 as int / 4096, nr_frames as int),
    {
        let ghost s = self@;
        let start = Self::index_from_paddr(frame_addr) as usize;
        let mut k: usize = start;
        while k < start + nr_frames
            invariant
                start == frame_addr.0 / 4096,
                start + nr_frames <= self.frames.len(),
                self.frames.len() == s.len(),
                s.len() <= MAX_FRAMES,
                start <= k <= start + nr_frames,
                states_of(self.frames@) == Seq::new(s.len(), |j: int|
                    if start <= j < k { freed_state(s[j]) } else { s[j] }),
            decreases start + nr_frames - k,
        {
            let ghost before = states_of(self.frames@);
            let new_state = match self.frames[k].state {
                FrameState::ClaimedReserved => FrameState::UnclaimedReserved,
                _ => FrameState::FreeRAM,
            };
            self.frames.set(k, Frame { state: new_state });
            proof {
                let target = Seq::new(s.len(), |j: int|
                    if start <= j < k + 1 { freed_state(s[j]) } else { s[j] });
                assert forall|j: int| 0 <= j < s.len() implies #[trigger] states_of(self.frames@)[j]
                    == target[j] by {
                    if j != k {
                        assert(states_of(self.frames@)[j] == before[j]);
                    }
                }
                assert(states_of(self.frames@) =~= target);
            }
            k = k + 1;
        }
        proof {
            assert(self@ =~= release(s, start as int, nr_frames as int));
        }
    }
}

/// Freeing a run that was just allocated from free frames gives the states
/// back as they were.
pub proof fn lemma_release_paint(s: Seq<FrameState>, start: int, n: int)
    requires
        free_run(s, start, n),
    ensures
        release(paint(s, start, n, FrameState::AllocatedRAM), start, n) == s,
{
    assert(release(paint(s, start, n, FrameState::AllocatedRAM), start, n) =~= s);
}

/// A request for frames, built step by step: how many, whether high memory
/// is acceptable, and whether the frames are to be zeroed.
pub struct AllocationBuilder {
    pub nr_frames: usize,
    pub zero: bool,
    pub can_highmem: bool,
}

/// A request for one frame of low memory, not zeroed.
pub fn allocate_frames() -> (r: AllocationBuilder)
    ensures
        r == (AllocationBuilder { nr_frames: 1, zero: false, can_highmem: false }),
{
    AllocationBuilder { nr_frames: 1, zero: false, can_highmem: false }
}

/// The run of `n` frames from `pa` on lies within memory.
pub open spec fn run_in_memory(mem: Seq<u64>, pa: int, n: int) -> bool {
    pa + n * 4096 <= mem.len() * 8
}

/// What a request returns and does, given the first-fit result `fit` on the
/// allocator's states `s` before the call: the run, unless zeroing was asked
/// for and the run lies outside memory, in which case it is given back.
pub open spec fn request_result(
    req: AllocationBuilder,
    s: Seq<FrameState>,
    mem: Seq<u64>,
    r: Option<PAddr>,
) -> bool {
    match r {
        Some(pa) => allocation_result(s, req.nr_frames as int, req.can_highmem, Some(pa)) && (req.zero
            ==> run_in_memory(mem, pa.0 as int, req.nr_frames as int)),
        None => allocation_result(s, req.nr_frames as int, req.can_highmem, None) || (req.zero
            && exists|pa: PAddr|
            #![trigger allocation_result(s, req.nr_frames as int, req.can_highmem, Some(pa))]
            allocation_result(s, req.nr_frames as int, req.can_highmem, Some(pa))
                && !run_in_memory(mem, pa.0 as int, req.nr_frames as int)),
    }
}

/// Word `i` of memory belongs to the run that a request zeroed.
pub open spec fn in_zeroed_run(r: Option<PAddr>, zero: bool, n: int, i: int) -> bool {
    match r {
        Some(pa) => zero && pa.0 / 8 <= i < (pa.0 + n * 4096) / 8,
        None => false,
    }
}

impl AllocationBuilder {
    pub fn nr_frames(&mut self, nr_frames: usize) -> (r: &mut Self)
        ensures
            *r == (AllocationBuilder { nr_frames, ..*old(self) }),
            *final(self) == *final(r),
    {
        self.nr_frames = nr_frames;
        self
    }

    pub fn allow_highmem(&mut self) -> (r: &mut Self)
        ensures
            *r == (AllocationBuilder { can_highmem: true, ..*old(self) }),
            *final(self) == *final(r),
    {
        self.can_highmem = true;
        self
    }

    pub fn zero_mem(&mut self) -> (r: &mut Self)
        ensures
            *r == (AllocationBuilder { zero: true, ..*old(self) }),
            *final(self) == *final(r),
    {
        self.zero = true;
        self
    }

    /// Allocate the requested frames from `allocator` and, if asked, zero
    /// them in `mem`. When they cannot be zeroed because they lie outside
    /// memory, they are freed again and `None` is returned.
    pub fn allocate(&self, allocator: &mut FrameAllocator, mem: &mut VmMemory) -> (r: Option<PAddr>)
        requires
            old(allocator).wf(),
        ensures
            final(allocator).wf(),
            request_result(*self, old(allocator)@, old(mem).0@, r),
            r matches Some(pa) ==> final(allocator)@ == paint(
                old(allocator)@,
                pa.0 as int / 4096,
                self.nr_frames as int,
                FrameState::AllocatedRAM,
            ),
            r is None ==> final(allocator)@ == old(allocator)@,
            r matches Some(pa) ==> (self.zero ==> zeroed(
                final(mem).0@,
                pa.0 as int,
                self.nr_frames * 4096,
            )),
            final(mem).0.len() == old(mem).0.len(),
            forall|i: int|
                0 <= i < old(mem).0.len() && !in_zeroed_run(r, self.zero, self.nr_frames as int, i)
                    ==> #[trigger] final(mem).0@[i] == old(mem).0@[i],
    {
        let ghost s = allocator@;
        let paddr = match allocator.allocate(self.nr_frames, self.can_highmem) {
            Some(p) => p,
            None => return None,
        };
        if self.zero {
            let len = mem.0.len();
            let nr_words: u64 = self.nr_frames as u64 * 512;
            let first: u64 = paddr.0 / 8;
            if first > len as u64 || nr_words > len as u64 - first {
                proof {
                    lemma_release_paint(s, paddr.0 as int / 4096, self.nr_frames as int);
                }
                allocator.free(paddr, self.nr_frames);
                return None;
            }
            mem.zero(paddr.0, self.nr_frames as u64 * 4096);
        }
        Some(paddr)
    }

    /// Allocate the requested frames as `allocate` does and return the
    /// low-memory virtual address that maps them. Frames that lie in high
    /// memory are freed again and `None` is returned.
    pub fn map_lowmem(&self, allocator: &mut FrameAllocator, mem: &mut VmMemory) -> (r: Option<VAddr>)
        requires
            old(allocator).wf(),
        ensures
            final(allocator).wf(),
            final(mem).0.len() == old(mem).0.len(),
            r matches Some(va) ==> {
                let pa = PAddr((va.0 - lowmem_va_start()) as u64);
                &&& lowmem_va_start() <= va.0
                &&& request_result(*self, old(allocator)@, old(mem).0@, Some(pa))
                &&& !crate::addr::is_highmem_pa(pa.0)
                &&& final(allocator)@ == paint(
                    old(allocator)@,
                    pa.0 as int / 4096,
                    self.nr_frames as int,
                    FrameState::AllocatedRAM,
                )
                &&& self.zero ==> zeroed(final(mem).0@, pa.0 as int, self.nr_frames * 4096)
            },
            r is None ==> final(allocator)@ == old(allocator)@,
            r is None ==> request_result(*self, old(allocator)@, old(mem).0@, None) || exists|pa: PAddr|
                #![trigger allocation_result(old(allocator)@, self.nr_frames as int, self.can_highmem, Some(pa))]
                allocation_result(old(allocator)@, self.nr_frames as int, self.can_highmem, Some(pa))
                    && crate::addr::is_highmem_pa(pa.0),
    {
        let ghost s = allocator@;
        let paddr = match self.allocate(allocator, mem) {
            Some(p) => p,
            None => return None,
        };
        match paddr.into_lowmem_vaddr() {
            Some(va) => Some(va),
            None => {
                proof {
                    lemma_release_paint(s, paddr.0 as int / 4096, self.nr_frames as int);
                    assert(allocation_result(s, self.nr_frames as int, self.can_highmem, Some(paddr)));
                }
                allocator.free(paddr, self.nr_frames);
                None
            },
        }
    }
}

/// Builds the frame allocator at boot: every frame starts unusable, then the
/// memory map and the areas already in use are painted over.
pub struct AllocatorBuilder {
    frames: Vec<Frame>,
    frame_array: VAddr,
}

/// The number of frames that `phys_mem_bsize` bytes span, rounded up.
pub open spec fn frame_count(phys_mem_bsize: u64) -> int {
    aligned_up(phys_mem_bsize as int, 4096) / 4096
}

/// The number of bytes of the descriptor array for `nr_frames` frames (one
/// byte per descriptor), rounded up to whole frames.
pub open spec fn array_bsize(nr_frames: int) -> int {
    aligned_up(nr_frames, 4096)
}

/// A descriptor array at `frame_array` for `nr_frames` frames lies in low
/// memory, starts on a frame boundary and is itself described.
pub open spec fn array_fits(frame_array: VAddr, nr_frames: int) -> bool {
    &&& lowmem_va_start() <= frame_array.0
    &&& frame_array.0 % 4096 == 0
    &&& (frame_array.0 - lowmem_va_start()) + array_bsize(nr_frames) <= nr_frames * 4096
    &&& nr_frames <= MAX_FRAMES
}

impl View for AllocatorBuilder {
    type V = Seq<FrameState>;

    closed spec fn view(&self) -> Seq<FrameState> {
        states_of(self.frames@)
    }
}

impl AllocatorBuilder {
    /// Where the descriptor array lives.
    pub closed spec fn array_vaddr(&self) -> VAddr {
        self.frame_array
    }

    pub closed spec fn wf(&self) -> bool {
        array_fits(self.frame_array, self.frames.len() as int)
    }

    /// The number of frames described.
    pub fn nr_frames(&self) -> (r: usize)
        requires
            self.wf(),
        ensures
            r == self@.len(),
            r <= MAX_FRAMES,
    {
        self.frames.len()
    }

    /// Start building an allocator for `phys_mem_bsize` bytes of physical
    /// memory, whose descriptors live at `frame_array`. Every frame starts
    /// unusable.
    pub fn new(frame_array: VAddr, phys_mem_bsize: u64) -> (r: AllocatorBuilder)
        requires
            phys_mem_bsize <= u64::MAX - 4095,
            array_fits(frame_array, frame_count(phys_mem_bsize)),
        ensures
            r.wf(),
            r.array_vaddr() == frame_array,
            r@ == Seq::new(frame_count(phys_mem_bsize) as nat, |_i: int| FrameState::Unusable),
    {
        let nr_frames = (align_up(phys_mem_bsize, 4096) / 4096) as usize;
        let mut frames: Vec<Frame> = Vec::new();
        while frames.len() < nr_frames
            invariant
                frames.len() <= nr_frames,
                forall|i: int| 0 <= i < frames.len() ==> #[trigger] frames@[i].state == FrameState::Unusable,
            decreases nr_frames - frames.len(),
        {
            frames.push(Frame { state: FrameState::Unusable });
        }
        let r = AllocatorBuilder { frames, frame_array };
        assert(r@ =~= Seq::new(frame_count(phys_mem_bsize) as nat, |_i: int| FrameState::Unusable));
        r
    }

    /// Paint the frames of `bsize` bytes from `paddr` on with `state`. Both
    /// must be multiples of 4096 and the area must be described.
    fn set_state(&mut self, paddr: PAddr, bsize: u64, state: FrameState)
        requires
            old(self).wf(),
            paddr.0 % 4096 == 0,
            bsize % 4096 == 0,
            paddr.0 / 4096 + bsize / 4096 <= old(self)@.len(),
        ensures
            final(self).wf(),
            final(self).array_vaddr() == old(self).array_vaddr(),
            final(self)@ == paint(old(self)@, paddr.0 as int / 4096, bsize as int / 4096, state),
    {
        let index = (paddr.0 / 4096) as usize;
        let nr_frames = (bsize / 4096) as usize;
        paint_frames(&mut self.frames, index, nr_frames, state);
    }

    /// Declare an area of general-purpose RAM that is already in use.
    pub fn declare_allocated_ram(&mut self, paddr: PAddr, bsize: u64)
        requires
            old(self).wf(),
            paddr.0 % 4096 == 0,
            bsize % 4096 == 0,
            paddr.0 / 4096 + bsize / 4096 <= old(self)@.len(),
        ensures
            final(self).wf(),
            final(self).array_vaddr() == old(self).array_vaddr(),
            final(self)@ == paint(
                old(self)@,
                paddr.0 as int / 4096,
                bsize as int / 4096,
                FrameState::AllocatedRAM,
            ),
    {
        self.set_state(paddr, bsize, FrameState::AllocatedRAM);
    }

    /// Declare an area of general-purpose RAM that nobody uses.
    pub fn declare_unused_ram(&mut self, paddr: PAddr, bsize: u64)
        requires
            old(self).wf(),
            paddr.0 % 4096 == 0,
            bsize % 4096 == 0,
            paddr.0 / 4096 + bsize / 4096 <= old(self)@.len(),
        ensures
            final(self).wf(),
            final(self).array_vaddr() == old(self).array_vaddr(),
            final(self)@ == paint(
                old(self)@,
                paddr.0 as int / 4096,
                bsize as int / 4096,
                FrameState::FreeRAM,
            ),
    {
        self.set_state(paddr, bsize, FrameState::FreeRAM);
    }

    /// Declare a reserved area (MMIO, firmware...).
    pub fn declare_reserved(&mut self, paddr: PAddr, bsize: u64)
        requires
            old(self).wf(),
            paddr.0 % 4096 == 0,
            bsize % 4096 == 0,
            paddr.0 / 4096 + bsize / 4096 <= old(self)@.len(),
        ensures
            final(self).wf(),
            final(self).array_vaddr() == old(self).array_vaddr(),
            final(self)@ == paint(
                old(self)@,
                paddr.0 as int / 4096,
                bsize as int / 4096,
                FrameState::UnclaimedReserved,
            ),
    {
        self.set_state(paddr, bsize, FrameState::UnclaimedReserved);
    }

    /// Declare an area that cannot be used at all.
    pub fn declare_unusable(&mut self, paddr: PAddr, bsize: u64)
        requires
            old(self).wf(),
            paddr.0 % 4096 == 0,
            bsize % 4096 == 0,
            paddr.0 / 4096 + bsize / 4096 <= old(self)@.len(),
        ensures
            final(self).wf(),
            final(self).array_vaddr() == old(self).array_vaddr(),
            final(self)@ == paint(
                old(self)@,
                paddr.0 as int / 4096,
                bsize as int / 4096,
                FrameState::Unusable,
            ),
    {
        self.set_state(paddr, bsize, FrameState::Unusable);
    }

    /// Finish building: the frames that hold the descriptor array itself are
    /// marked allocated, and the allocator is returned.
    pub fn build(self) -> (r: FrameAllocator)
        requires
            self.wf(),
        ensures
            r.wf(),
            r@ == paint(
                self@,
                (self.array_vaddr().0 - lowmem_va_start()) / 4096,
                array_bsize(self@.len() as int) / 4096,
                FrameState::AllocatedRAM,
            ),
    {
        let mut b = self;
        let frames_paddr = PAddr((b.frame_array.0 - LOWMEM_VA_START) as u64);
        let frames_bsize = align_up(b.frames.len() as u64, 4096);
        b.set_state(frames_paddr, frames_bsize, FrameState::AllocatedRAM);
        FrameAllocator { frames: b.frames }
    }
}

/// The number of frames in state `st`.
pub open spec fn count_state(s: Seq<FrameState>, st: FrameState) -> nat
    decreases s.len(),
{
    if s.len() == 0 {
        0
    } else {
        count_state(s.drop_last(), st) + if s.last() == st { 1nat } else { 0nat }
    }
}

proof fn lemma_count_paint(s: Seq<FrameState>, start: int, n: int)
    requires
        0 <= n,
        free_run(s, start, n),
    ensures
        count_state(paint(s, start, n, FrameState::AllocatedRAM), FrameState::AllocatedRAM)
            == count_state(s, FrameState::AllocatedRAM) + n,
    decreases s.len(),
{
    let t = paint(s, start, n, FrameState::AllocatedRAM);
    if n == 0 {
        assert(t =~= s);
    } else if s.len() > 0 {
        let m = s.len() - 1;
        let s1 = s.drop_last();
        if start <= m < start + n {
            assert(free_run(s1, start, n - 1));
            lemma_count_paint(s1, start, n - 1);
            assert(t.drop_last() =~= paint(s1, start, n - 1, FrameState::AllocatedRAM));
        } else {
            assert(free_run(s1, start, n));
            lemma_count_paint(s1, start, n);
            assert(t.drop_last() =~= paint(s1, start, n, FrameState::AllocatedRAM));
        }
    } else {
        assert(n == 0);
    }
}

proof fn lemma_count_release(s: Seq<FrameState>, start: int, n: int)
    requires
        0 <= start,
        0 <= n,
        start + n <= s.len(),
        forall|k: int| start <= k < start + n ==> #[trigger] s[k] == FrameState::AllocatedRAM,
    ensures
        count_state(release(s, start, n), FrameState::AllocatedRAM) + n == count_state(s, FrameState::AllocatedRAM),
    decreases s.len(),
{
    let t = release(s, start, n);
    if n == 0 {
        assert(t =~= s);
    } else if s.len() > 0 {
        let m = s.len() - 1;
        let s1 = s.drop_last();
        if start <= m < start + n {
            lemma_count_release(s1, start, n - 1);
            assert(t.drop_last() =~= release(s1, start, n - 1));
        } else {
            lemma_count_release(s1, start, n);
            assert(t.drop_last() =~= release(s1, start, n));
        }
    }
}

/// Allocating `n` frames adds exactly `n` to the number of allocated frames,
/// and freeing them again takes exactly `n` away: the count of allocated
/// frames tracks the allocations outstanding.
pub proof fn lemma_allocated_count(s: Seq<FrameState>, n: int, can_highmem: bool, pa: PAddr)
    requires
        allocation_result(s, n, can_highmem, Some(pa)),
    ensures
        count_state(paint(s, pa.0 as int / 4096, n, FrameState::AllocatedRAM), FrameState::AllocatedRAM)
            == count_state(s, FrameState::AllocatedRAM) + n,
        count_state(
            release(paint(s, pa.0 as int / 4096, n, FrameState::AllocatedRAM), pa.0 as int / 4096, n),
            FrameState::AllocatedRAM,
        ) == count_state(s, FrameState::AllocatedRAM),
        release(paint(s, pa.0 as int / 4096, n, FrameState::AllocatedRAM), pa.0 as int / 4096, n) == s,
{
    let start = pa.0 as int / 4096;
    lemma_count_paint(s, start, n);
    let t = paint(s, start, n, FrameState::AllocatedRAM);
    lemma_count_release(t, start, n);
    lemma_release_paint(s, start, n);
}

/// An allocation that succeeds on `s` cannot also fail there.
pub proof fn lemma_success_excludes_failure(s: Seq<FrameState>, n: int, can_highmem: bool, pa: PAddr)
    requires
        allocation_result(s, n, can_highmem, Some(pa)),
    ensures
        !allocation_result(s, n, can_highmem, None),
{
    let st = pa.0 as int / 4096;
    assert(free_run(s, st, n));
    if !can_highmem {
        assert forall|j: int| free_run(s, j, n) && no_earlier_run(s, j, n) implies low_run(j, n) by {
            if j < st {
                assert(!free_run(s, j, n));
            } else if st < j {
                assert(!free_run(s, st, n));
            }
        }
    }
}

/// Among the runs of `n` free frames, one exists (`j0`); return the first.
proof fn lemma_first_run(s: Seq<FrameState>, j0: int, n: int) -> (jm: int)
    requires
        free_run(s, j0, n),
    ensures
        free_run(s, jm, n),
        no_earlier_run(s, jm, n),
        jm <= j0,
    decreases j0,
{
    if exists|j: int| 0 <= j < j0 && free_run(s, j, n) {
        let j1 = choose|j: int| 0 <= j < j0 && free_run(s, j, n);
        lemma_first_run(s, j1, n)
    } else {
        j0
    }
}

/// Set frames `start` to `start + n - 1` to state `st`.
fn paint_frames(frames: &mut Vec<Frame>, start: usize, n: usize, st: FrameState)
    requires
        start + n <= old(frames).len(),
    ensures
        final(frames).len() == old(frames).len(),
        states_of(final(frames)@) == paint(states_of(old(frames)@), start as int, n as int, st),
{
    let ghost s = states_of(frames@);
    let mut k: usize = start;
    while k < start + n
        invariant
            start + n <= frames.len(),
            frames.len() == old(frames).len(),
            s == states_of(old(frames)@),
            start <= k <= start + n,
            states_of(frames@) == paint(s, start as int, k - start, st),
        decreases start + n - k,
    {
        let ghost before = states_of(frames@);
        frames.set(k, Frame { state: st });
        proof {
            assert forall|idx: int| 0 <= idx < frames.len() implies #[trigger] states_of(frames@)[idx]
                == paint(s, start as int, k + 1 - start, st)[idx] by {
                if idx != k {
                    assert(states_of(frames@)[idx] == before[idx]);
                }
            }
            assert(states_of(frames@) =~= paint(s, start as int, k + 1 - start, st));
        }
        k = k + 1;
    }
    proof {
        assert(states_of(frames@) =~= paint(s, start as int, n as int, st));
    }
}

} // verus!
