use nucloid::addr::{PAddr, VAddr, LOWMEM_VA_START};
use nucloid::boot::{kernel_page_entry, setup_kernel_paging, BootError, KernelLayout};
use nucloid::paging::{locate_page_entry, page_permissions, AnyEntry, PTEntry, PagePermissions};
use nucloid::vm::VmMemory;

const ROOT: u64 = 0x1000;
const PDPT: u64 = 0x2000;
const PAGES: usize = 64;

fn layout() -> KernelLayout {
    KernelLayout {
        image_end: VAddr(LOWMEM_VA_START + 0x8000),
        text_start: VAddr(LOWMEM_VA_START + 0x3000),
        text_end: VAddr(LOWMEM_VA_START + 0x4000),
        rodata_start: VAddr(LOWMEM_VA_START + 0x4000),
        rodata_end: VAddr(LOWMEM_VA_START + 0x5000),
        stack_guard: VAddr(LOWMEM_VA_START + 0x6000),
    }
}

/// A machine whose boot tables hold only the PML4 and one PDPT.
fn boot_memory() -> VmMemory {
    let mut mem = VmMemory::new(PAGES, 0x5a5a_5a5a_5a5a_5a5a);
    for w in mem.0[(ROOT / 8) as usize..(PDPT / 8 + 512) as usize].iter_mut() {
        *w = 0;
    }
    let v = VAddr(LOWMEM_VA_START);
    mem.write_u64(ROOT + 8 * v.pml4e() as u64, PDPT | 0b11);
    mem.write_u64(0x6000, 0x0000_0000_dead_beef);
    mem
}

fn perms(accessible: bool, writable: bool, executable: bool) -> PagePermissions {
    PagePermissions { accessible, readable: accessible, writable, executable }
}

#[test]
fn bootstrap_maps_low_memory_with_segment_permissions() {
    let mut mem = boot_memory();
    let end = VAddr(LOWMEM_VA_START + PAGES * 4096);
    let frontier = setup_kernel_paging(&mut mem, PAddr(ROOT), &layout(), end).unwrap();
    assert_eq!(frontier, VAddr(LOWMEM_VA_START + 0xA000));
    let root = PAddr(ROOT);
    assert_eq!(page_permissions(&mem, root, VAddr(LOWMEM_VA_START + 0x3000)), perms(true, false, true));
    assert_eq!(page_permissions(&mem, root, VAddr(LOWMEM_VA_START + 0x4000)), perms(true, false, false));
    assert_eq!(page_permissions(&mem, root, VAddr(LOWMEM_VA_START + 0x5000)), perms(true, true, false));
    assert_eq!(page_permissions(&mem, root, VAddr(LOWMEM_VA_START + 0x6000)), perms(false, false, false));
    assert_eq!(page_permissions(&mem, root, VAddr(LOWMEM_VA_START + 0x3F000)), perms(true, true, false));
    assert_eq!(page_permissions(&mem, root, VAddr(LOWMEM_VA_START + 0x40000)), perms(false, false, false));
    for page in 0..PAGES {
        let va = VAddr(LOWMEM_VA_START + page * 4096);
        match locate_page_entry(&mem, root, va) {
            Some(AnyEntry::PTEntry(e)) => assert_eq!(e.addr(), PAddr(page as u64 * 4096)),
            other => panic!("unexpected entry {:?}", other),
        }
    }
    // The new directory and page table were zeroed before use.
    assert_eq!(mem.0[(0x8000 / 8) + 1], 0);
    assert_eq!(mem.read_u64(0x9000 + 8 * 100), Some(0));
}

#[test]
fn bootstrap_refuses_a_corrupted_stack_guard() {
    let mut mem = boot_memory();
    mem.write_u64(0x6000, 0);
    let before = mem.0.clone();
    let end = VAddr(LOWMEM_VA_START + PAGES * 4096);
    assert_eq!(setup_kernel_paging(&mut mem, PAddr(ROOT), &layout(), end), Err(BootError::StackGuardCorrupted));
    assert_eq!(mem.0, before);
}

#[test]
fn bootstrap_needs_the_kernel_pml4_entry() {
    let mut mem = boot_memory();
    mem.write_u64(ROOT, 0);
    let end = VAddr(LOWMEM_VA_START + PAGES * 4096);
    assert_eq!(setup_kernel_paging(&mut mem, PAddr(ROOT), &layout(), end), Err(BootError::MissingPml4Entry));
}

#[test]
fn kernel_entries_follow_the_segments() {
    let l = layout();
    let text = kernel_page_entry(PTEntry(0), VAddr(LOWMEM_VA_START + 0x3000), &l);
    assert_eq!(text.0, 0x3001);
    let rodata = kernel_page_entry(PTEntry(0), VAddr(LOWMEM_VA_START + 0x4000), &l);
    assert_eq!(rodata.0, 0x8000_0000_0000_4001);
    let data = kernel_page_entry(PTEntry(0), VAddr(LOWMEM_VA_START + 0x7000), &l);
    assert_eq!(data.0, 0x8000_0000_0000_7003);
    let guard = kernel_page_entry(PTEntry(0), VAddr(LOWMEM_VA_START + 0x6000), &l);
    assert!(!guard.is_present());
    assert_eq!(guard.addr(), PAddr(0x6000));
}

#[test]
fn bootstrap_rounds_an_unaligned_window_end_up() {
    let mut mem = boot_memory();
    let end = VAddr(LOWMEM_VA_START + 0x3FC00);
    let frontier = setup_kernel_paging(&mut mem, PAddr(ROOT), &layout(), end).unwrap();
    assert_eq!(frontier, VAddr(LOWMEM_VA_START + 0xA000));
    let root = PAddr(ROOT);
    assert!(page_permissions(&mem, root, VAddr(LOWMEM_VA_START + 0x3F000)).accessible);
    assert!(!page_permissions(&mem, root, VAddr(LOWMEM_VA_START + 0x40000)).accessible);
}

#[test]
fn bootstrap_refuses_tables_in_its_own_pages() {
    let mut mem = boot_memory();
    // The PDPT would lie in the page the new page directory takes.
    mem.write_u64(ROOT, 0x8000 | 0b11);
    let end = VAddr(LOWMEM_VA_START + PAGES * 4096);
    assert_eq!(setup_kernel_paging(&mut mem, PAddr(ROOT), &layout(), end), Err(BootError::InconsistentTables));
}

#[test]
fn bootstrap_needs_room_for_its_tables() {
    let mut mem = boot_memory();
    let mut l = layout();
    l.image_end = VAddr(LOWMEM_VA_START + (PAGES - 1) * 4096);
    let end = VAddr(LOWMEM_VA_START + PAGES * 4096);
    assert_eq!(setup_kernel_paging(&mut mem, PAddr(ROOT), &l, end), Err(BootError::OutOfMemory));
}
