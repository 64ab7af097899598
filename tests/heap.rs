use nucloid::addr::{PAddr, VAddr, LOWMEM_VA_START};
use nucloid::frame::{AllocatorBuilder, FrameAllocator, FrameState};
use nucloid::heap::{FreelistAllocator, HeapError, HEADER_SIZE};

const BSZ: usize = HEADER_SIZE;

/// 32 free frames; the descriptors live in the last one.
fn reset_frame_allocator() -> FrameAllocator {
    let mut b = AllocatorBuilder::new(VAddr(LOWMEM_VA_START + 31 * 4096), 32 * 4096);
    b.declare_unused_ram(PAddr(0), 32 * 4096);
    b.build()
}

fn do_alloc(alloc: &mut FreelistAllocator, frames: &mut FrameAllocator, size: usize, exp_addr: usize) -> usize {
    let addr = alloc.allocate(frames, size).expect("couldn't allocate");
    assert_eq!(addr, LOWMEM_VA_START + exp_addr);
    addr
}

#[test]
fn it_allocates_one_block() {
    let mut frames = reset_frame_allocator();
    let mut alloc = FreelistAllocator::new();
    do_alloc(&mut alloc, &mut frames, 10, BSZ);
    assert_eq!(alloc.count_blocks(), 2);
}

#[test]
fn it_allocates_three_blocks() {
    let mut frames = reset_frame_allocator();
    let mut alloc = FreelistAllocator::new();
    do_alloc(&mut alloc, &mut frames, 1024 - BSZ, BSZ);
    do_alloc(&mut alloc, &mut frames, 2048 - BSZ, BSZ + 1024);
    do_alloc(&mut alloc, &mut frames, 1024 - BSZ, BSZ + 1024 + 2048);
    assert_eq!(alloc.count_blocks(), 3);
}

#[test]
fn it_extends_the_trailing_free_block() {
    let mut frames = reset_frame_allocator();
    let mut alloc = FreelistAllocator::new();
    do_alloc(&mut alloc, &mut frames, 3000, BSZ);
    do_alloc(&mut alloc, &mut frames, 3000, BSZ + 3008 + BSZ);
}

#[test]
fn it_doesnt_extend_trailing_free_blocks_across_page_holes() {
    let mut frames = reset_frame_allocator();
    let mut alloc = FreelistAllocator::new();
    do_alloc(&mut alloc, &mut frames, 3000, BSZ);
    // Frame 1 goes elsewhere: the heap's next frame is not contiguous.
    assert_eq!(frames.allocate(1, false), Some(PAddr(0x1000)));
    let addr = do_alloc(&mut alloc, &mut frames, 3000, 0x2000 + BSZ);
    assert!(addr > LOWMEM_VA_START + 0x1000);
    assert_eq!(alloc.count_blocks(), 4);
    let trailing = alloc.block(1);
    assert!(!trailing.allocated);
    assert_eq!(trailing.addr, LOWMEM_VA_START + BSZ + 3008);
    assert_eq!(trailing.bsize, 4096 - BSZ - 3008 - BSZ);
}

#[test]
fn it_deallocates_the_last_block() {
    let mut frames = reset_frame_allocator();
    let mut alloc = FreelistAllocator::new();
    do_alloc(&mut alloc, &mut frames, 2048 - BSZ, BSZ);
    let addr = do_alloc(&mut alloc, &mut frames, 2048 - BSZ, BSZ + 2048);
    alloc.dealloc(addr);
    do_alloc(&mut alloc, &mut frames, 2048 - BSZ, BSZ + 2048);
    assert_eq!(alloc.count_blocks(), 2);
}

#[test]
fn it_deallocates_middle_block() {
    let mut frames = reset_frame_allocator();
    let mut alloc = FreelistAllocator::new();
    do_alloc(&mut alloc, &mut frames, 256, BSZ);
    let addr_mid = do_alloc(&mut alloc, &mut frames, 256, BSZ + 256 + BSZ);
    do_alloc(&mut alloc, &mut frames, 256, BSZ + 256 + BSZ + 256 + BSZ);
    alloc.dealloc(addr_mid);
    do_alloc(&mut alloc, &mut frames, 256, BSZ + 256 + BSZ);
    assert_eq!(alloc.count_blocks(), 4);
}

#[test]
fn it_chains_new_free_blocks() {
    let mut frames = reset_frame_allocator();
    let mut alloc = FreelistAllocator::new();
    let first = do_alloc(&mut alloc, &mut frames, 2048 - BSZ, BSZ);
    do_alloc(&mut alloc, &mut frames, 2048 - BSZ, BSZ + 2048);
    alloc.dealloc(first);
    do_alloc(&mut alloc, &mut frames, 3000, 4096 + BSZ);
    assert_eq!(alloc.count_blocks(), 4);
}

#[test]
fn it_deallocates_and_merge_with_prev() {
    let mut frames = reset_frame_allocator();
    let mut alloc = FreelistAllocator::new();
    do_alloc(&mut alloc, &mut frames, 256, 1 * BSZ + 0 * 256);
    let mid1 = do_alloc(&mut alloc, &mut frames, 256, 2 * BSZ + 1 * 256);
    let mid2 = do_alloc(&mut alloc, &mut frames, 256, 3 * BSZ + 2 * 256);
    do_alloc(&mut alloc, &mut frames, 256, 4 * BSZ + 3 * 256);
    assert_eq!(alloc.count_blocks(), 5);
    alloc.dealloc(mid1);
    alloc.dealloc(mid2);
    do_alloc(&mut alloc, &mut frames, 512 + BSZ, 2 * BSZ + 1 * 256);
    assert_eq!(alloc.count_blocks(), 4);
}

#[test]
fn it_deallocates_and_merge_with_next() {
    let mut frames = reset_frame_allocator();
    let mut alloc = FreelistAllocator::new();
    do_alloc(&mut alloc, &mut frames, 256, 1 * BSZ + 0 * 256);
    let mid1 = do_alloc(&mut alloc, &mut frames, 256, 2 * BSZ + 1 * 256);
    let mid2 = do_alloc(&mut alloc, &mut frames, 256, 3 * BSZ + 2 * 256);
    do_alloc(&mut alloc, &mut frames, 256, 4 * BSZ + 3 * 256);
    assert_eq!(alloc.count_blocks(), 5);
    alloc.dealloc(mid2);
    alloc.dealloc(mid1);
    do_alloc(&mut alloc, &mut frames, 512 + BSZ, 2 * BSZ + 1 * 256);
    assert_eq!(alloc.count_blocks(), 4);
}

#[test]
fn it_deallocates_and_merge_with_prev_and_next() {
    let mut frames = reset_frame_allocator();
    let mut alloc = FreelistAllocator::new();
    do_alloc(&mut alloc, &mut frames, 256, 1 * BSZ + 0 * 256);
    let mid1 = do_alloc(&mut alloc, &mut frames, 256, 2 * BSZ + 1 * 256);
    let mid2 = do_alloc(&mut alloc, &mut frames, 256, 3 * BSZ + 2 * 256);
    let mid3 = do_alloc(&mut alloc, &mut frames, 256, 4 * BSZ + 3 * 256);
    do_alloc(&mut alloc, &mut frames, 256, 5 * BSZ + 4 * 256);
    assert_eq!(alloc.count_blocks(), 6);
    alloc.dealloc(mid1);
    alloc.dealloc(mid3);
    alloc.dealloc(mid2);
    do_alloc(&mut alloc, &mut frames, 3 * 256 + 2 * BSZ, 2 * BSZ + 1 * 256);
    assert_eq!(alloc.count_blocks(), 4);
}

#[test]
fn it_allocates_after_a_free() {
    let mut frames = reset_frame_allocator();
    let mut alloc = FreelistAllocator::new();
    let addr = alloc.allocate(&mut frames, 0x05).unwrap();
    alloc.dealloc(addr);
    alloc.allocate(&mut frames, 0x3000).unwrap();
}

#[test]
fn it_frees_all() {
    let mut frames = reset_frame_allocator();
    let mut alloc = FreelistAllocator::new();
    let b1 = do_alloc(&mut alloc, &mut frames, 256, BSZ);
    let b2 = do_alloc(&mut alloc, &mut frames, 256, BSZ + 256 + BSZ);
    let b3 = do_alloc(&mut alloc, &mut frames, 256, BSZ + 256 + BSZ + 256 + BSZ);
    alloc.dealloc(b1);
    alloc.dealloc(b3);
    alloc.dealloc(b2);
    assert_eq!(alloc.count_blocks(), 1);
}

#[test]
fn it_crashes() {
    let mut frames = reset_frame_allocator();
    let mut alloc = FreelistAllocator::new();
    alloc.allocate(&mut frames, 0x25).unwrap();
    let addr = alloc.allocate(&mut frames, 0x05).unwrap();
    alloc.dealloc(addr);
    alloc.allocate(&mut frames, 0x19).unwrap();
}

/// Blocks A (frame 0) and B (frame 2) with frame 1, not the heap's, between.
fn blocks_across_a_hole(frames: &mut FrameAllocator, alloc: &mut FreelistAllocator) -> (usize, usize) {
    let a = do_alloc(alloc, frames, 4096 - BSZ, BSZ);
    assert_eq!(frames.allocate(1, false), Some(PAddr(0x1000)));
    let b = do_alloc(alloc, frames, 4096 - BSZ, 0x2000 + BSZ);
    (a, b)
}

#[test]
fn it_doesnt_merge_with_prev_across_page_holes() {
    let mut frames = reset_frame_allocator();
    let mut alloc = FreelistAllocator::new();
    let (a, b) = blocks_across_a_hole(&mut frames, &mut alloc);
    alloc.dealloc(a);
    alloc.dealloc(b);
    assert_eq!(alloc.count_blocks(), 2);
    assert_eq!(alloc.block(0).bsize, 4096 - BSZ);
    assert_eq!(alloc.block(1).addr, LOWMEM_VA_START + 0x2000);
    assert_eq!(alloc.block(1).bsize, 4096 - BSZ);
}

#[test]
fn it_doesnt_merge_with_next_across_page_holes() {
    let mut frames = reset_frame_allocator();
    let mut alloc = FreelistAllocator::new();
    let (a, b) = blocks_across_a_hole(&mut frames, &mut alloc);
    alloc.dealloc(b);
    alloc.dealloc(a);
    assert_eq!(alloc.count_blocks(), 2);
    assert_eq!(alloc.block(0).bsize, 4096 - BSZ);
    assert!(!alloc.block(0).allocated);
    assert!(!alloc.block(1).allocated);
}

#[test]
fn heap_round_trip_for_sizes_and_alignments() {
    let mut frames = reset_frame_allocator();
    let mut alloc = FreelistAllocator::new();
    for &s in [1usize, 7, 8, 15, 16, 17, 63, 64, 4095, 4096, 4097, 65535].iter() {
        for &a in [1usize, 2, 4, 8, 16].iter() {
            let p = alloc.allocate_aligned(&mut frames, s, a).unwrap();
            assert_eq!(p % a, 0);
            alloc.dealloc(p);
            let again = alloc.allocate_aligned(&mut frames, s, a).unwrap();
            alloc.dealloc(again);
        }
    }
    assert_eq!(alloc.allocate_aligned(&mut frames, 16, 32), None);
}

#[test]
fn heap_coalesces_three_freed_neighbours() {
    let mut frames = reset_frame_allocator();
    let mut alloc = FreelistAllocator::new();
    let a = alloc.allocate(&mut frames, 512).unwrap();
    let b = alloc.allocate(&mut frames, 512).unwrap();
    let c = alloc.allocate(&mut frames, 512).unwrap();
    alloc.allocate(&mut frames, 512).unwrap();
    assert_eq!(b, a + 512 + BSZ);
    assert_eq!(c, b + 512 + BSZ);
    alloc.dealloc(a);
    alloc.dealloc(c);
    alloc.dealloc(b);
    let allocated_before = frames.frame_state(1);
    assert_eq!(alloc.allocate(&mut frames, 3 * 512 + 2 * BSZ), Some(a));
    assert_eq!(frames.frame_state(1), allocated_before);
}

#[test]
fn heap_refuses_double_and_invalid_frees() {
    let mut frames = reset_frame_allocator();
    let mut alloc = FreelistAllocator::new();
    let p = alloc.allocate(&mut frames, 16).unwrap();
    let q = alloc.allocate(&mut frames, 16).unwrap();
    assert_eq!(alloc.check_dealloc(p + 8), Err(HeapError::InvalidPointer));
    alloc.dealloc(p);
    assert_eq!(alloc.check_dealloc(p), Err(HeapError::DoubleFree));
    alloc.dealloc(q);
    assert_eq!(alloc.check_dealloc(0), Err(HeapError::InvalidPointer));
}

#[test]
fn heap_reuses_the_first_freed_block() {
    let mut frames = reset_frame_allocator();
    let mut alloc = FreelistAllocator::new();
    let p1 = alloc.allocate_aligned(&mut frames, 16, 16).unwrap();
    assert_ne!(p1, 0);
    assert_eq!(p1 % 16, 0);
    let p2 = alloc.allocate_aligned(&mut frames, 16, 16).unwrap();
    assert_ne!(p2, p1);
    alloc.dealloc(p1);
    let p3 = alloc.allocate_aligned(&mut frames, 16, 16).unwrap();
    assert_eq!(p3, p1);
}

#[test]
fn heap_takes_frames_from_the_frame_allocator() {
    let mut frames = reset_frame_allocator();
    let mut alloc = FreelistAllocator::new();
    assert_eq!(frames.frame_state(0), FrameState::FreeRAM);
    alloc.allocate(&mut frames, 0x2000).unwrap();
    assert_eq!(frames.frame_state(0), FrameState::AllocatedRAM);
    assert_eq!(frames.frame_state(2), FrameState::AllocatedRAM);
    assert_eq!(frames.frame_state(3), FrameState::FreeRAM);
    assert_eq!(alloc.allocate(&mut frames, 0), None);
    assert_eq!(alloc.allocate(&mut frames, 40 * 4096), None);
}

#[test]
fn realloc_grows_in_place_into_a_free_neighbour() {
    let mut frames = reset_frame_allocator();
    let mut alloc = FreelistAllocator::new();
    let p = alloc.allocate(&mut frames, 256).unwrap();
    assert_eq!(alloc.realloc(&mut frames, p, 200), Some(p));
    assert_eq!(alloc.realloc(&mut frames, p, 1024), Some(p));
    assert_eq!(alloc.count_blocks(), 1);
    assert!(alloc.block(0).bsize >= 1024);
}

#[test]
fn realloc_moves_a_block_that_cannot_grow() {
    let mut frames = reset_frame_allocator();
    let mut alloc = FreelistAllocator::new();
    let p = alloc.allocate(&mut frames, 256).unwrap();
    let q = alloc.allocate(&mut frames, 256).unwrap();
    let moved = alloc.realloc(&mut frames, p, 512).unwrap();
    assert_ne!(moved, p);
    assert_eq!(moved, q + 256 + BSZ);
    // The old block stays allocated until the caller has copied it.
    assert_eq!(alloc.check_dealloc(p), Ok(()));
    alloc.dealloc(p);
    assert_eq!(alloc.check_dealloc(p), Err(HeapError::DoubleFree));
    assert_eq!(alloc.check_dealloc(p + 16), Err(HeapError::InvalidPointer));
    alloc.dealloc(moved);
    alloc.dealloc(q);
}

#[test]
fn realloc_of_null_allocates() {
    let mut frames = reset_frame_allocator();
    let mut alloc = FreelistAllocator::new();
    assert_eq!(alloc.realloc(&mut frames, 0, 100), Some(LOWMEM_VA_START + BSZ));
    assert_eq!(alloc.realloc(&mut frames, 0, 0), None);
}
