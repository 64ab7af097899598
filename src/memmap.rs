//! The boot loader's memory map, and how it sizes physical memory, the
//! low-memory window and the frame allocator's initial states.

use vstd::prelude::*;

use crate::addr::{PAddr, VAddr, LOWMEM_SIZE, LOWMEM_VA_START, lowmem_size, lowmem_va_start};
use crate::frame::{array_bsize, array_fits, frame_count, AllocatorBuilder, FrameAllocator, FrameState, paint};

verus! {

/// The memory-map type of usable RAM.
pub const AREA_AVAILABLE: u32 = 1;
/// The memory-map type of reserved memory.
pub const AREA_RESERVED: u32 = 2;
/// The memory-map type of ACPI-reclaimable memory, kept reserved.
pub const AREA_ACPI_RECLAIMABLE: u32 = 3;

/// One entry of the memory map.
#[derive(Clone, Copy, Debug, PartialEq, Eq, Structural)]
pub struct MemoryArea {
    pub base_addr: u64,
    pub length: u64,
    pub typ: u32,
}

/// The address one past the area's last byte.
pub open spec fn area_end(a: MemoryArea) -> int {
    a.base_addr + a.length
}

/// No area's end overflows 64 bits.
pub open spec fn areas_valid(areas: Seq<MemoryArea>) -> bool {
    forall|i: int| 0 <= i < areas.len() ==> area_end(#[trigger] areas[i]) <= u64::MAX
}

/// The highest end address among the areas.
pub open spec fn max_end(areas: Seq<MemoryArea>) -> int
    decreases areas.len(),
{
    if areas.len() == 0 {
        0
    } else {
        let rest = max_end(areas.drop_last());
        let e = area_end(areas.last());
        if e > rest { e } else { rest }
    }
}

/// The size of physical memory: the highest end address of the map, which
/// must not be empty.
pub fn physical_memory_size(areas: &Vec<MemoryArea>) -> (r: u64)
    requires
        areas.len() > 0,
        areas_valid(areas@),
    ensures
        r == max_end(areas@),
{
    let mut m: u64 = 0;
    let mut i: usize = 0;
    while i < areas.len()
        invariant
            i <= areas.len(),
            areas_valid(areas@),
            m == max_end(areas@.take(i as int)),
        decreases areas.len() - i,
    {
        let a = areas[i];
        let e = a.base_addr + a.length;
        proof {
            assert(areas@.take(i + 1).drop_last() =~= areas@.take(i as int));
        }
        if e > m {
            m = e;
        }
        i = i + 1;
    }
    assert(areas@.take(i as int) =~= areas@);
    m
}

/// How much of the low-memory window the map fills, scanning the areas in
/// order from `acc`: an area that starts past the window stops the scan, one
/// that crosses its end fills it, any other extends it to its end.
pub open spec fn lowmem_fill(areas: Seq<MemoryArea>, acc: int) -> int
    decreases areas.len(),
{
    if areas.len() == 0 {
        acc
    } else {
        let a = areas[0];
        if a.base_addr >= lowmem_size() {
            acc
        } else if area_end(a) > lowmem_size() {
            lowmem_size()
        } else {
            lowmem_fill(areas.drop_first(), area_end(a))
        }
    }
}

/// The number of bytes of the low-memory window that the map fills.
pub fn lowmem_va_size(areas: &Vec<MemoryArea>) -> (r: usize)
    requires
        areas_valid(areas@),
    ensures
        r == lowmem_fill(areas@, 0),
        r <= LOWMEM_SIZE,
{
    let mut lowmem: usize = 0;
    let mut i: usize = 0;
    assert(areas@.skip(0) =~= areas@);
    while i < areas.len()
        invariant
            i <= areas.len(),
            areas_valid(areas@),
            lowmem <= LOWMEM_SIZE,
            lowmem_fill(areas@, 0) == lowmem_fill(areas@.skip(i as int), lowmem as int),
        decreases areas.len() - i,
    {
        let a = areas[i];
        proof {
            assert(areas@.skip(i as int)[0] == a);
            assert(areas@.skip(i as int).drop_first() =~= areas@.skip(i + 1));
        }
        if a.base_addr >= LOWMEM_SIZE as u64 {
            return lowmem;
        } else if a.base_addr + a.length > LOWMEM_SIZE as u64 {
            return LOWMEM_SIZE;
        } else {
            lowmem = (a.base_addr + a.length) as usize;
        }
        i = i + 1;
    }
    lowmem
}

/// The state that frames of an area of type `typ` start in.
pub open spec fn state_for_type(typ: u32) -> FrameState {
    if typ == AREA_AVAILABLE {
        FrameState::FreeRAM
    } else if typ == AREA_RESERVED || typ == AREA_ACPI_RECLAIMABLE {
        FrameState::UnclaimedReserved
    } else {
        FrameState::Unusable
    }
}

/// The first whole frame of the area.
pub open spec fn first_frame(a: MemoryArea) -> int {
    (a.base_addr + 4095) / 4096
}

/// One past the last whole frame of the area, within the `n` frames
/// described.
pub open spec fn end_frame(a: MemoryArea, n: int) -> int {
    let e = area_end(a) / 4096;
    if e > n { n } else { e }
}

/// The states after painting the whole frames of each area in order.
pub open spec fn paint_areas(s: Seq<FrameState>, areas: Seq<MemoryArea>) -> Seq<FrameState>
    decreases areas.len(),
{
    if areas.len() == 0 {
        s
    } else {
        let prev = paint_areas(s, areas.drop_last());
        let a = areas.last();
        let first = first_frame(a);
        let end = end_frame(a, s.len() as int);
        if first < end {
            paint(prev, first, end - first, state_for_type(a.typ))
        } else {
            prev
        }
    }
}

/// Paint the frames of every area of the map, in order, with the state its
/// type calls for. Only whole frames are painted, and only frames that the
/// builder describes.
pub fn declare_memory_map(builder: &mut AllocatorBuilder, areas: &Vec<MemoryArea>)
    requires
        old(builder).wf(),
        areas_valid(areas@),
    ensures
        final(builder).wf(),
        final(builder).array_vaddr() == old(builder).array_vaddr(),
        final(builder)@ == paint_areas(old(builder)@, areas@),
        final(builder)@.len() == old(builder)@.len(),
{
    let ghost s0 = builder@;
    let n: u64 = builder.nr_frames() as u64;
    let mut i: usize = 0;
    while i < areas.len()
        invariant
            i <= areas.len(),
            areas_valid(areas@),
            builder.wf(),
            builder.array_vaddr() == old(builder).array_vaddr(),
            builder@.len() == s0.len(),
            n == s0.len(),
            builder@ == paint_areas(s0, areas@.take(i as int)),
        decreases areas.len() - i,
    {
        let a = areas[i];
        let first: u64 = a.base_addr / 4096 + if a.base_addr % 4096 == 0 { 0 } else { 1 };
        let e: u64 = (a.base_addr + a.length) / 4096;
        let end: u64 = if e > n { n } else { e };
        proof {
            assert(areas@.take(i + 1).drop_last() =~= areas@.take(i as int));
            assert(areas@.take(i + 1).last() == a);
            assert(first == first_frame(a));
        }
        if first < end {
            let pa = PAddr(first * 4096);
            let bsize: u64 = (end - first) * 4096;
            if a.typ == AREA_AVAILABLE {
                builder.declare_unused_ram(pa, bsize);
            } else if a.typ == AREA_RESERVED || a.typ == AREA_ACPI_RECLAIMABLE {
                builder.declare_reserved(pa, bsize);
            } else {
                builder.declare_unusable(pa, bsize);
            }
        }
        i = i + 1;
    }
    assert(areas@.take(i as int) =~= areas@);
}

/// The states the frame allocator starts with at boot: every frame
/// unusable, then the memory map painted, then the frames below
/// `curr_heap` (the kernel image and the boot tables) allocated, then the
/// descriptor array, which lives at `curr_heap`, allocated.
pub open spec fn boot_states(areas: Seq<MemoryArea>, curr_heap: VAddr, phys_mem_size: u64) -> Seq<FrameState> {
    let n = frame_count(phys_mem_size);
    let used = curr_heap.0 - lowmem_va_start();
    let painted = paint_areas(Seq::new(n as nat, |_i: int| FrameState::Unusable), areas);
    paint(
        paint(painted, 0, used / 4096, FrameState::AllocatedRAM),
        used / 4096,
        array_bsize(n) / 4096,
        FrameState::AllocatedRAM,
    )
}

/// Build the frame allocator at boot, once the paging bootstrap has returned
/// `curr_heap`, the first free address past the kernel image and the new
/// tables; the descriptor array is placed there.
pub fn boot_setup(areas: &Vec<MemoryArea>, curr_heap: VAddr, phys_mem_size: u64) -> (r: FrameAllocator)
    requires
        areas_valid(areas@),
        phys_mem_size <= u64::MAX - 4095,
        array_fits(curr_heap, frame_count(phys_mem_size)),
    ensures
        r.wf(),
        r@ == boot_states(areas@, curr_heap, phys_mem_size),
{
    let mut b = AllocatorBuilder::new(curr_heap, phys_mem_size);
    declare_memory_map(&mut b, areas);
    let used: u64 = (curr_heap.0 - LOWMEM_VA_START) as u64;
    let ghost n = frame_count(phys_mem_size);
    proof {
        assert(b@.len() == n);
        assert(used / 4096 <= n) by (nonlinear_arith)
            requires
                used <= n * 4096,
        ;
    }
    b.declare_allocated_ram(PAddr(0), used);
    let r = b.build();
    proof {
        assert(r@ == boot_states(areas@, curr_heap, phys_mem_size));
    }
    r
}

} // verus!
