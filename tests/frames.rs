use nucloid::addr::{PAddr, VAddr, LOWMEM_SIZE, LOWMEM_VA_START};
use nucloid::frame::{allocate_frames, AllocatorBuilder, FrameAllocator, FrameState};
use nucloid::memmap::{declare_memory_map, lowmem_va_size, physical_memory_size, MemoryArea};
use nucloid::vm::VmMemory;

/// The allocator of the 128 MiB machine: RAM below 0x9FC00, a hole up to
/// 1 MiB, RAM above; the first 4 MiB hold the kernel image.
fn machine_allocator() -> FrameAllocator {
    let areas = vec![
        MemoryArea { base_addr: 0x0, length: 0x9FC00, typ: 1 },
        MemoryArea { base_addr: 0xA0000, length: 0x60000, typ: 2 },
        MemoryArea { base_addr: 0x100000, length: 0x07F00000, typ: 1 },
    ];
    let mut b = AllocatorBuilder::new(VAddr(LOWMEM_VA_START + 0x300000), 0x08000000);
    declare_memory_map(&mut b, &areas);
    b.declare_allocated_ram(PAddr(0), 0x00400000);
    b.build()
}

fn count(a: &FrameAllocator, st: FrameState) -> usize {
    (0..a.nr_frames()).filter(|&i| a.frame_state(i) == st).count()
}

#[test]
fn allocates_the_first_frame_past_the_kernel_image() {
    let mut a = machine_allocator();
    assert_eq!(a.nr_frames(), 0x8000);
    assert_eq!(a.allocate(1, false), Some(PAddr(0x00400000)));
    a.free(PAddr(0x00400000), 1);
    assert_eq!(a.allocate(1, false), Some(PAddr(0x00400000)));
}

#[test]
fn allocates_and_frees_four_frames() {
    let mut a = machine_allocator();
    assert_eq!(a.allocate(4, false), Some(PAddr(0x00400000)));
    for i in 0x400..0x404 {
        assert_eq!(a.frame_state(i), FrameState::AllocatedRAM);
    }
    assert_eq!(a.frame_state(0x404), FrameState::FreeRAM);
    a.free(PAddr(0x00400000), 4);
    for i in 0x400..0x404 {
        assert_eq!(a.frame_state(i), FrameState::FreeRAM);
    }
}

#[test]
fn memory_map_states_are_painted() {
    let a = machine_allocator();
    assert_eq!(a.frame_state(0x9E), FrameState::AllocatedRAM);
    assert_eq!(a.frame_state(0x400), FrameState::FreeRAM);
    assert_eq!(a.frame_state(0x7FFF), FrameState::FreeRAM);
    let areas = vec![
        MemoryArea { base_addr: 0x0, length: 0x9FC00, typ: 1 },
        MemoryArea { base_addr: 0xA0000, length: 0x60000, typ: 2 },
        MemoryArea { base_addr: 0x100000, length: 0x07F00000, typ: 5 },
    ];
    let mut b = AllocatorBuilder::new(VAddr(LOWMEM_VA_START + 0x300000), 0x08000000);
    declare_memory_map(&mut b, &areas);
    let a = b.build();
    assert_eq!(a.frame_state(0x9E), FrameState::FreeRAM);
    assert_eq!(a.frame_state(0x9F), FrameState::Unusable);
    assert_eq!(a.frame_state(0xA0), FrameState::UnclaimedReserved);
    assert_eq!(a.frame_state(0xFF), FrameState::UnclaimedReserved);
    assert_eq!(a.frame_state(0x300), FrameState::AllocatedRAM);
    assert_eq!(a.frame_state(0x307), FrameState::AllocatedRAM);
    assert_eq!(a.frame_state(0x308), FrameState::Unusable);
}

#[test]
fn allocation_counts_track_outstanding_frames() {
    let mut a = machine_allocator();
    let before = count(&a, FrameState::AllocatedRAM);
    let p1 = a.allocate(3, false).unwrap();
    let p2 = a.allocate(5, false).unwrap();
    assert_eq!(count(&a, FrameState::AllocatedRAM), before + 8);
    a.free(p1, 3);
    assert_eq!(count(&a, FrameState::AllocatedRAM), before + 5);
    a.free(p2, 5);
    assert_eq!(count(&a, FrameState::AllocatedRAM), before);
}

#[test]
fn allocation_skips_runs_that_are_too_short() {
    let mut a = machine_allocator();
    let p1 = a.allocate(2, false).unwrap();
    let p2 = a.allocate(1, false).unwrap();
    assert_eq!(p2, PAddr(0x00402000));
    a.free(p1, 2);
    assert_eq!(a.allocate(3, false), Some(PAddr(0x00403000)));
    assert_eq!(a.allocate(2, false), Some(PAddr(0x00400000)));
    assert_eq!(a.allocate(0, false), None);
    assert_eq!(a.allocate(0x8000, true), None);
}

#[test]
fn highmem_frames_are_refused_unless_allowed() {
    let phys: u64 = LOWMEM_SIZE as u64 + 0x4000;
    let mut b = AllocatorBuilder::new(VAddr(LOWMEM_VA_START), phys);
    b.declare_unused_ram(PAddr(0), phys);
    b.declare_allocated_ram(PAddr(0), LOWMEM_SIZE as u64 - 0x2000);
    let mut a = b.build();
    assert_eq!(a.allocate(4, false), None);
    let pa = a.allocate(4, true).unwrap();
    assert_eq!(pa, PAddr(LOWMEM_SIZE as u64 - 0x2000));
    assert!(!pa.is_highmem());
    assert!(PAddr(pa.0 + 0x3000).is_highmem());
    assert_eq!(a.allocate(1, false), None);
    a.free(pa, 4);
    assert_eq!(a.allocate(2, false), Some(PAddr(LOWMEM_SIZE as u64 - 0x2000)));
}

#[test]
fn zeroed_allocation_clears_recycled_frames() {
    let mut b = AllocatorBuilder::new(VAddr(LOWMEM_VA_START + 7 * 4096), 8 * 4096);
    b.declare_unused_ram(PAddr(0), 8 * 4096);
    let mut a = b.build();
    let mut mem = VmMemory::new(8, 0xf9f9_f9f9_f9f9_f9f9);
    let mut req = allocate_frames();
    req.nr_frames(2).zero_mem();
    let pa = req.allocate(&mut a, &mut mem).unwrap();
    assert_eq!(pa, PAddr(0));
    assert!(mem.0[0..1024].iter().all(|&w| w == 0));
    assert_eq!(mem.0[1024], 0xf9f9_f9f9_f9f9_f9f9);
    for w in mem.0[0..1024].iter_mut() {
        *w = 0x1234;
    }
    a.free(pa, 2);
    let pa = req.allocate(&mut a, &mut mem).unwrap();
    assert_eq!(pa, PAddr(0));
    assert!(mem.0[0..1024].iter().all(|&w| w == 0));
}

#[test]
fn zeroing_outside_memory_gives_the_frames_back() {
    let mut b = AllocatorBuilder::new(VAddr(LOWMEM_VA_START + 7 * 4096), 8 * 4096);
    b.declare_unused_ram(PAddr(0), 8 * 4096);
    let mut a = b.build();
    let mut mem = VmMemory::new(1, 0);
    let mut req = allocate_frames();
    req.nr_frames(2).zero_mem();
    assert_eq!(req.allocate(&mut a, &mut mem), None);
    assert_eq!(a.frame_state(0), FrameState::FreeRAM);
    assert_eq!(a.frame_state(1), FrameState::FreeRAM);
}

#[test]
fn map_lowmem_returns_the_lowmem_address() {
    let mut a = machine_allocator();
    let mut mem = VmMemory::new(1, 0);
    let mut req = allocate_frames();
    req.allow_highmem();
    assert_eq!(req.map_lowmem(&mut a, &mut mem), Some(VAddr(LOWMEM_VA_START + 0x00400000)));
    assert_eq!(PAddr(0x400000).into_lowmem_vaddr(), Some(VAddr(LOWMEM_VA_START + 0x400000)));
    assert_eq!(PAddr(LOWMEM_SIZE as u64).into_lowmem_vaddr(), None);
    let end = VAddr(LOWMEM_VA_START + 0x08000000);
    assert_eq!(PAddr::from_lowmem_vaddr(VAddr(LOWMEM_VA_START + 0x1234), end), Some(PAddr(0x1234)));
    assert_eq!(PAddr::from_lowmem_vaddr(VAddr(0x1234), end), None);
    assert_eq!(PAddr::from_lowmem_vaddr(end, end), None);
}

#[test]
fn memory_map_sizes() {
    let areas = vec![
        MemoryArea { base_addr: 0x0, length: 0x9FC00, typ: 1 },
        MemoryArea { base_addr: 0x100000, length: 0x07F00000, typ: 1 },
        MemoryArea { base_addr: 0xFFFC0000, length: 0x40000, typ: 2 },
    ];
    assert_eq!(physical_memory_size(&areas), 0x1_0000_0000);
    assert_eq!(lowmem_va_size(&areas), 0x08000000);
    let big = vec![
        MemoryArea { base_addr: 0x0, length: 0x9FC00, typ: 1 },
        MemoryArea { base_addr: 0x100000, length: 0x3FF00000, typ: 1 },
    ];
    assert_eq!(lowmem_va_size(&big), LOWMEM_SIZE);
}

use nucloid::memmap::boot_setup;

#[test]
fn boot_setup_reserves_the_image_the_tables_and_the_descriptors() {
    let areas = vec![
        MemoryArea { base_addr: 0x0, length: 0x9FC00, typ: 1 },
        MemoryArea { base_addr: 0xA0000, length: 0x60000, typ: 2 },
        MemoryArea { base_addr: 0x100000, length: 0x07F00000, typ: 1 },
    ];
    let mut a = boot_setup(&areas, VAddr(LOWMEM_VA_START + 0x400000), 0x08000000);
    assert_eq!(a.frame_state(0x3FF), FrameState::AllocatedRAM);
    assert_eq!(a.frame_state(0x407), FrameState::AllocatedRAM);
    assert_eq!(a.frame_state(0x408), FrameState::FreeRAM);
    assert_eq!(a.frame_state(0xA0), FrameState::AllocatedRAM);
    assert_eq!(a.allocate(1, false), Some(PAddr(0x408000)));
}
