use nucloid::addr::{PAddr, VAddr, HIGHMEM_VA_START, LOWMEM_VA_START};
use nucloid::highmem::{HighmemAllocator, HighmemGuard};
use nucloid::paging::{locate_page_entry, page_permissions, AnyEntry};
use nucloid::vm::VmMemory;

#[test]
fn it_allocates_single_pages() {
    let buffer = vec![false; 8];
    let mut allocator = HighmemAllocator::new(VAddr(0x1000), 8, buffer);

    assert_eq!(allocator.allocate(1), Some(VAddr(0x1000)));
    assert_eq!(allocator.allocate(1), Some(VAddr(0x2000)));
    assert_eq!(allocator.allocate(1), Some(VAddr(0x3000)));
}

#[test]
fn highmem_allocator_is_first_fit_and_reuses_freed_pages() {
    let mut allocator = HighmemAllocator::new(VAddr(0x1000), 8, vec![false; 8]);
    assert_eq!(allocator.allocate(3), Some(VAddr(0x1000)));
    assert_eq!(allocator.allocate(2), Some(VAddr(0x4000)));
    allocator.free(VAddr(0x1000), 3);
    assert_eq!(allocator.allocate(2), Some(VAddr(0x1000)));
    assert_eq!(allocator.allocate(2), Some(VAddr(0x6000)));
    assert_eq!(allocator.allocate(2), None);
    assert_eq!(allocator.allocate(1), Some(VAddr(0x3000)));
    assert_eq!(allocator.allocate(0), None);
}

#[test]
fn highmem_allocator_skips_reserved_pages() {
    let mut bitmap = vec![false; 6];
    bitmap[1] = true;
    let mut allocator = HighmemAllocator::new(VAddr(0x10000), 6, bitmap);
    assert_eq!(allocator.allocate(2), Some(VAddr(0x12000)));
    assert_eq!(allocator.allocate(3), None);
    assert_eq!(allocator.allocate(1), Some(VAddr(0x10000)));
}

#[test]
fn lowmem_guard_is_plain() {
    let guard = HighmemGuard::new_lowmem(VAddr(LOWMEM_VA_START + 0x5000));
    assert!(guard.is_lowmem());
    assert!(!guard.is_highmem());
    assert_eq!(guard.unwrap_lowmem(), VAddr(LOWMEM_VA_START + 0x5000));
    let guard = HighmemGuard::new_allocated_highmem(VAddr(HIGHMEM_VA_START), 2);
    assert!(guard.is_highmem());
    assert_eq!(guard.leak(), VAddr(HIGHMEM_VA_START));
}

const PML4: u64 = 0x1000;
const PDPT: u64 = 0x2000;
const PD: u64 = 0x3000;
const PT: u64 = 0x4000;

/// Tables that map `pages` consecutive pages from `va` on, to frames from
/// physical address 0x10000 on.
fn map_pages(mem: &mut VmMemory, va: usize, pages: usize) {
    let v = VAddr(va);
    mem.write_u64(PML4 + 8 * v.pml4e() as u64, PDPT | 0b11);
    mem.write_u64(PDPT + 8 * v.pdpte() as u64, PD | 0b11);
    mem.write_u64(PD + 8 * v.pde() as u64, PT | 0b11);
    for i in 0..pages {
        let p = VAddr(va + i * 4096);
        mem.write_u64(PT + 8 * p.pte() as u64, (0x10000 + 4096 * i as u64) | 0b11);
    }
}

#[test]
fn releasing_a_highmem_guard_unmaps_and_frees_its_pages() {
    let mut mem = VmMemory::new(16, 0);
    map_pages(&mut mem, HIGHMEM_VA_START, 2);
    let root = PAddr(PML4);
    let mut allocator = HighmemAllocator::new(VAddr(HIGHMEM_VA_START), 4, vec![false; 4]);
    let va = allocator.allocate(2).unwrap();
    assert_eq!(va, VAddr(HIGHMEM_VA_START));
    assert!(page_permissions(&mem, root, va).accessible);

    let guard = HighmemGuard::new_allocated_highmem(va, 2);
    guard.release(&mut mem, root, &mut allocator);

    for i in 0..2 {
        let page = VAddr(HIGHMEM_VA_START + i * 4096);
        assert!(!page_permissions(&mem, root, page).accessible);
        match locate_page_entry(&mem, root, page) {
            Some(AnyEntry::PTEntry(e)) => {
                assert!(!e.is_present());
                assert_eq!(e.addr(), PAddr(0x10000 + 4096 * i as u64));
            }
            other => panic!("unexpected entry {:?}", other),
        }
    }
    assert_eq!(allocator.allocate(4), Some(VAddr(HIGHMEM_VA_START)));
}

#[test]
fn releasing_a_lowmem_guard_does_nothing() {
    let mut mem = VmMemory::new(16, 0);
    map_pages(&mut mem, HIGHMEM_VA_START, 1);
    let before = mem.0.clone();
    let mut allocator = HighmemAllocator::new(VAddr(HIGHMEM_VA_START), 4, vec![true, false, false, false]);
    HighmemGuard::new_lowmem(VAddr(LOWMEM_VA_START)).release(&mut mem, PAddr(PML4), &mut allocator);
    assert_eq!(mem.0, before);
    assert_eq!(allocator.allocate(4), None);
    assert_eq!(allocator.allocate(3), Some(VAddr(HIGHMEM_VA_START + 0x1000)));
}

use nucloid::addr::LOWMEM_SIZE;
use nucloid::frame::{AllocatorBuilder, FrameAllocator, FrameState};
use nucloid::paging::{map_highmem_vaddr, MapError};

/// 16 frames; frames 0 to 4 hold the descriptors and the boot tables.
fn small_machine() -> (VmMemory, FrameAllocator) {
    let mut mem = VmMemory::new(16, 0x7777_7777_7777_7777);
    for w in mem.0[0..(0x5000 / 8)].iter_mut() {
        *w = 0;
    }
    mem.write_u64(PML4 + 8 * VAddr(HIGHMEM_VA_START).pml4e() as u64, PDPT | 0b11);
    let mut b = AllocatorBuilder::new(VAddr(LOWMEM_VA_START), 16 * 4096);
    b.declare_unused_ram(PAddr(0), 16 * 4096);
    b.declare_allocated_ram(PAddr(0), 5 * 4096);
    (mem, b.build())
}

#[test]
fn into_vaddr_of_low_memory_needs_no_mapping() {
    let (mut mem, mut frames) = small_machine();
    let mut highmem = HighmemAllocator::new(VAddr(HIGHMEM_VA_START), 4, vec![false; 4]);
    let g = PAddr(0x5000).into_vaddr(1, &mut mem, PAddr(PML4), &mut frames, &mut highmem).unwrap();
    assert!(g.is_lowmem());
    assert_eq!(g.addr(), VAddr(LOWMEM_VA_START + 0x5000));
    assert_eq!(frames.frame_state(5), FrameState::FreeRAM);
}

#[test]
fn into_vaddr_maps_high_memory_on_demand() {
    let (mut mem, mut frames) = small_machine();
    let root = PAddr(PML4);
    let mut highmem = HighmemAllocator::new(VAddr(HIGHMEM_VA_START), 4, vec![false; 4]);
    let pa = PAddr(LOWMEM_SIZE as u64 + 0x3000);
    let g = pa.into_vaddr(2, &mut mem, root, &mut frames, &mut highmem).unwrap();
    assert!(g.is_highmem());
    assert_eq!(g.addr(), VAddr(HIGHMEM_VA_START));
    for i in 0..2usize {
        let page = VAddr(HIGHMEM_VA_START + i * 4096);
        let p = page_permissions(&mem, root, page);
        assert!(p.accessible && p.writable && !p.executable);
        assert_eq!(page.to_paddr(&mem, root), Some(PAddr(pa.0 + 4096 * i as u64)));
    }
    // A page directory and a page table were taken from the frame allocator
    // and zeroed.
    assert_eq!(frames.frame_state(5), FrameState::AllocatedRAM);
    assert_eq!(frames.frame_state(6), FrameState::AllocatedRAM);
    assert_eq!(frames.frame_state(7), FrameState::FreeRAM);
    assert_eq!(mem.read_u64(0x5000 + 8), Some(0));

    assert_eq!(
        map_highmem_vaddr(&mut mem, root, &mut frames, VAddr(HIGHMEM_VA_START), PAddr(0x9000)),
        Err(MapError::AlreadyMapped)
    );
    g.release(&mut mem, root, &mut highmem);
    assert!(!page_permissions(&mem, root, VAddr(HIGHMEM_VA_START)).accessible);
    assert_eq!(highmem.allocate(4), Some(VAddr(HIGHMEM_VA_START)));
}

#[test]
fn mapping_needs_the_pml4_entry() {
    let (mut mem, mut frames) = small_machine();
    mem.write_u64(PML4, 0);
    assert_eq!(
        map_highmem_vaddr(&mut mem, PAddr(PML4), &mut frames, VAddr(HIGHMEM_VA_START), PAddr(0x9000)),
        Err(MapError::MissingPml4Entry)
    );
}

#[test]
fn mapping_refuses_huge_pages() {
    let (mut mem, mut frames) = small_machine();
    let v = VAddr(HIGHMEM_VA_START);
    mem.write_u64(PDPT + 8 * v.pdpte() as u64, PD | 0b11);
    mem.write_u64(PD + 8 * v.pde() as u64, 0x20_0000 | 0b11 | (1 << 7));
    assert_eq!(map_highmem_vaddr(&mut mem, PAddr(PML4), &mut frames, v, PAddr(0x9000)), Err(MapError::HugePage));
}

#[test]
fn mapping_without_frames_fails_and_into_vaddr_gives_the_pages_back() {
    let (mut mem, _) = small_machine();
    let mut b = AllocatorBuilder::new(VAddr(LOWMEM_VA_START), 16 * 4096);
    b.declare_allocated_ram(PAddr(0), 16 * 4096);
    let mut frames = b.build();
    assert_eq!(
        map_highmem_vaddr(&mut mem, PAddr(PML4), &mut frames, VAddr(HIGHMEM_VA_START), PAddr(0x9000)),
        Err(MapError::OutOfFrames)
    );
    let mut highmem = HighmemAllocator::new(VAddr(HIGHMEM_VA_START), 4, vec![false; 4]);
    let pa = PAddr(LOWMEM_SIZE as u64);
    assert!(pa.into_vaddr(2, &mut mem, PAddr(PML4), &mut frames, &mut highmem).is_none());
    assert_eq!(highmem.allocate(4), Some(VAddr(HIGHMEM_VA_START)));
}
