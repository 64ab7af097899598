use nucloid::addr::{PAddr, VAddr};
use nucloid::fault::{fault_reason, handle_pagefault, AccessAttempt, FaultReason};
use nucloid::paging::{
    locate_page_entry, page_permissions, unmap_highmem_vaddr, AnyEntry, PDEntry, PDPTEntry, PML4Entry, PTEntry,
    PagePermissions,
};
use nucloid::vm::VmMemory;

const PML4: u64 = 0x1000;
const PDPT: u64 = 0x2000;
const PD: u64 = 0x3000;
const PT: u64 = 0x4000;

const TEXT: usize = 0xC010_0000;
const RODATA: usize = 0xC010_1000;
const DATA: usize = 0xC010_2000;
const GUARD: usize = 0xC010_3000;
const UNMAPPED: usize = 0xC020_0000;
const HUGE: usize = 0xC040_0000;

const NX: u64 = 1 << 63;

/// Tables for a text page (R-X), a rodata page (R--), a data page (RW-), the
/// stack guard page (absent) and a 2 MiB huge page (RW-).
fn kernel_tables() -> VmMemory {
    let mut mem = VmMemory::new(8, 0);
    let v = VAddr(TEXT);
    mem.write_u64(PML4 + 8 * v.pml4e() as u64, PDPT | 0b11);
    mem.write_u64(PDPT + 8 * v.pdpte() as u64, PD | 0b11);
    mem.write_u64(PD + 8 * v.pde() as u64, PT | 0b11);
    mem.write_u64(PT + 8 * VAddr(TEXT).pte() as u64, 0x10_0000 | 0b01);
    mem.write_u64(PT + 8 * VAddr(RODATA).pte() as u64, 0x10_1000 | 0b01 | NX);
    mem.write_u64(PT + 8 * VAddr(DATA).pte() as u64, 0x10_2000 | 0b11 | NX);
    mem.write_u64(PT + 8 * VAddr(GUARD).pte() as u64, 0x10_3000 | 0b10 | NX);
    mem.write_u64(PD + 8 * VAddr(HUGE).pde() as u64, 0x40_0000 | 0b11 | (1 << 7) | NX);
    mem
}

fn perms(accessible: bool, readable: bool, writable: bool, executable: bool) -> PagePermissions {
    PagePermissions { accessible, readable, writable, executable }
}

#[test]
fn page_permissions_follow_the_leaf_entry() {
    let mem = kernel_tables();
    let root = PAddr(PML4);
    assert_eq!(page_permissions(&mem, root, VAddr(TEXT + 0x123)), perms(true, true, false, true));
    assert_eq!(page_permissions(&mem, root, VAddr(RODATA)), perms(true, true, false, false));
    assert_eq!(page_permissions(&mem, root, VAddr(DATA)), perms(true, true, true, false));
    assert_eq!(page_permissions(&mem, root, VAddr(UNMAPPED)), perms(false, false, false, false));
    assert_eq!(page_permissions(&mem, root, VAddr(0x1000)), perms(false, false, false, false));
    assert_eq!(page_permissions(&mem, root, VAddr(HUGE + 0x1000)), perms(true, true, true, false));
    assert_eq!(page_permissions(&mem, root, VAddr(GUARD)), perms(false, false, false, false));
}

#[test]
fn the_guard_page_entry_is_not_present() {
    let mem = kernel_tables();
    match locate_page_entry(&mem, PAddr(PML4), VAddr(GUARD)) {
        Some(AnyEntry::PTEntry(e)) => {
            assert!(!e.is_present());
            assert_eq!(e.addr(), PAddr(0x10_3000));
        }
        other => panic!("unexpected entry {:?}", other),
    }
    match locate_page_entry(&mem, PAddr(PML4), VAddr(HUGE)) {
        Some(AnyEntry::PDEntry(e)) => assert!(e.is_huge()),
        other => panic!("unexpected entry {:?}", other),
    }
    assert!(locate_page_entry(&mem, PAddr(PML4), VAddr(UNMAPPED)).is_none());
    assert_eq!(VAddr(TEXT).to_paddr(&mem, PAddr(PML4)), Some(PAddr(0x10_0000)));
    assert_eq!(VAddr(UNMAPPED).to_paddr(&mem, PAddr(PML4)), None);
}

#[test]
fn unmapping_clears_only_the_present_bit() {
    let mut mem = kernel_tables();
    let root = PAddr(PML4);
    unmap_highmem_vaddr(&mut mem, root, VAddr(DATA));
    assert!(!page_permissions(&mem, root, VAddr(DATA)).accessible);
    assert_eq!(mem.read_u64(PT + 8 * VAddr(DATA).pte() as u64), Some(0x10_2000 | 0b10 | NX));
    assert!(page_permissions(&mem, root, VAddr(TEXT)).accessible);
}

#[test]
fn virtual_address_indices() {
    let v = VAddr(0xFFFF_8000_0040_3ABC);
    assert_eq!(v.pml4e(), 256);
    assert_eq!(v.pdpte(), 0);
    assert_eq!(v.pde(), 2);
    assert_eq!(v.pte(), 3);
    assert_eq!(v.pt_offset(), 0xABC);
    let v = VAddr(0xF800_0000);
    assert_eq!(v.pml4e(), 0);
    assert_eq!(v.pdpte(), 3);
    assert_eq!(v.pde(), 448);
    assert_eq!(v.pte(), 0);
}

#[test]
fn entry_bits_are_set_and_cleared_independently() {
    let mut e = PTEntry(0);
    e.set_present(true);
    e.set_writable(true);
    e.set_addr(PAddr(0x1234_5000));
    assert_eq!(e.0, 0x1234_5003);
    assert!(e.is_executable());
    e.set_executable(false);
    assert_eq!(e.0, 0x8000_0000_1234_5003);
    e.set_writable(false);
    assert!(!e.is_writable());
    assert!(e.is_present());
    e.set_addr(PAddr(0x7000));
    assert_eq!(e.addr(), PAddr(0x7000));
    assert_eq!(e.0, 0x8000_0000_0000_7001);

    let mut d = PDEntry(0);
    d.set_huge(true);
    d.set_present(true);
    assert!(d.is_huge());
    assert_eq!(d.pt(), None);
    d.set_huge(false);
    d.set_addr(PAddr(0x5000));
    assert_eq!(d.pt(), Some(PAddr(0x5000)));
    d.set_present(false);
    assert_eq!(d.pt(), None);

    let mut p = PDPTEntry(0);
    p.set_addr(PAddr(0x9000));
    assert_eq!(p.pd(), None);
    p.set_present(true);
    p.set_writable(true);
    assert_eq!(p.pd(), Some(PAddr(0x9000)));
    assert!(p.is_writable());

    let mut m = PML4Entry(0);
    m.set_addr(PAddr(0xA000));
    m.set_present(true);
    assert_eq!(m.pdpt(), Some(PAddr(0xA000)));
    assert_eq!(AnyEntry::PML4Entry(m).paddr(), PAddr(0xA000));
    assert_eq!(AnyEntry::PTEntry(PTEntry(0x3003)).unwrap_pt_entry().0, 0x3003);
}

#[test]
fn page_faults_are_classified() {
    let mem = kernel_tables();
    let root = PAddr(PML4);
    let f = handle_pagefault(VAddr(UNMAPPED), AccessAttempt::Read, &mem, root);
    assert_eq!(f.reason, FaultReason::NotMapped);
    assert_eq!(f.reason.text(), "page is not mapped");
    assert_eq!(f.access.description(), "Invalid read");
    let f = handle_pagefault(VAddr(TEXT), AccessAttempt::Write, &mem, root);
    assert_eq!(f.reason, FaultReason::ReadOnly);
    assert_eq!(f.reason.text(), "page is read-only");
    let f = handle_pagefault(VAddr(DATA), AccessAttempt::Execute, &mem, root);
    assert_eq!(f.reason, FaultReason::NonExecutable);
    assert_eq!(f.reason.text(), "page is non-executable");
    assert_eq!(f.access.description(), "Invalid execution");
    let f = handle_pagefault(VAddr(DATA), AccessAttempt::Write, &mem, root);
    assert_eq!(f.reason, FaultReason::Unknown);
    assert_eq!(f.reason.text(), "unknown error");
    assert_eq!(fault_reason(AccessAttempt::Write, &perms(true, true, false, false)), FaultReason::ReadOnly);
}

use nucloid::fault::access_from_error_code;

#[test]
fn error_codes_give_the_access_kind() {
    assert_eq!(access_from_error_code(0x0), AccessAttempt::Read);
    assert_eq!(access_from_error_code(0x1), AccessAttempt::Read);
    assert_eq!(access_from_error_code(0x3), AccessAttempt::Write);
    assert_eq!(access_from_error_code(0x11), AccessAttempt::Execute);
    assert_eq!(access_from_error_code(0x13), AccessAttempt::Execute);
}
