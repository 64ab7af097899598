//! Typed physical and virtual addresses and the kernel's address-space layout.
//!
//! The layout is the 32-bit PAE one: the first 896 MiB of physical memory are
//! identity-mapped from `LOWMEM_VA_START`, physical memory above that is
//! "high memory" and is mapped on demand into the 128 MiB window that starts
//! at `HIGHMEM_VA_START`.

use vstd::prelude::*;

verus! {

/// A physical address.
#[derive(Clone, Copy, Debug, PartialEq, Eq, Structural)]
pub struct PAddr(pub u64);

/// A virtual address.
#[derive(Clone, Copy, Debug, PartialEq, Eq, Structural)]
pub struct VAddr(pub usize);

pub const PAGE_SIZE: usize = 4096;
pub const PAGE_SIZE_BITS: usize = 12;
pub const FRAME_SIZE: usize = 4096;
pub const FRAME_SIZE_BITS: usize = 12;

/// The virtual address of the first byte of the low-memory window, which
/// identity-maps the start of the physical address space.
pub const LOWMEM_VA_START: usize = 0xc000_0000;

/// The number of bytes of physical memory that the low-memory window can map.
pub const LOWMEM_SIZE: usize = 0x3800_0000;

/// The first virtual address of the high-memory window.
pub const HIGHMEM_VA_START: usize = 0xf800_0000;

/// The number of bytes of the high-memory window.
pub const HIGHMEM_VA_SIZE: usize = 0x0800_0000;

pub open spec fn lowmem_va_start() -> int {
    0xc000_0000
}

pub open spec fn lowmem_size() -> int {
    0x3800_0000
}

/// The physical address lies beyond what the low-memory window maps.
pub open spec fn is_highmem_pa(pa: u64) -> bool {
    pa >= lowmem_size()
}

/// Index of the PML4 entry that translates `va` (bits 39 to 47).
pub open spec fn pml4_index(va: usize) -> int {
    (va as int / 0x80_0000_0000) % 512
}

/// Index of the PDPT entry that translates `va` (bits 30 to 38).
pub open spec fn pdpt_index(va: usize) -> int {
    (va as int / 0x4000_0000) % 512
}

/// Index of the PD entry that translates `va` (bits 21 to 29).
pub open spec fn pd_index(va: usize) -> int {
    (va as int / 0x20_0000) % 512
}

/// Index of the PT entry that translates `va` (bits 12 to 20).
pub open spec fn pt_index(va: usize) -> int {
    (va as int / 0x1000) % 512
}

impl PAddr {
    /// Whether this physical address lies in high memory.
    pub fn is_highmem(&self) -> (r: bool)
        ensures
            r == is_highmem_pa(self.0),
    {
        self.0 >= LOWMEM_SIZE as u64
    }

    /// The low-memory virtual address that maps this physical address; `None`
    /// for a high-memory address.
    pub fn into_lowmem_vaddr(self) -> (r: Option<VAddr>)
        ensures
            is_highmem_pa(self.0) ==> r.is_none(),
            !is_highmem_pa(self.0) ==> r == Some(VAddr((self.0 + lowmem_va_start()) as usize)),
    {
        if self.is_highmem() {
            None
        } else {
            Some(VAddr(self.0 as usize + LOWMEM_VA_START))
        }
    }

    /// The physical address that a low-memory virtual address maps; `None`
    /// when `vaddr` lies outside the low-memory window, which ends (exclusive)
    /// at `lowmem_va_end`.
    pub fn from_lowmem_vaddr(vaddr: VAddr, lowmem_va_end: VAddr) -> (r: Option<PAddr>)
        ensures
            r.is_some() <==> lowmem_va_start() <= vaddr.0 < lowmem_va_end.0,
            r.is_some() ==> r == Some(PAddr((vaddr.0 - lowmem_va_start()) as u64)),
    {
        if vaddr.0 < LOWMEM_VA_START || vaddr.0 >= lowmem_va_end.0 {
            None
        } else {
            Some(PAddr(vaddr.0 as u64 - LOWMEM_VA_START as u64))
        }
    }
}

impl VAddr {
    /// Index of the PML4 entry that translates this address.
    pub fn pml4e(&self) -> (r: usize)
        ensures
            r == pml4_index(self.0),
            r < 512,
    {
        let x = self.0 as u64;
        assert((x >> 39u64) & 0x1ff == (x / 0x80_0000_0000) % 512) by (bit_vector);
        ((x >> 39u64) & 0x1ff) as usize
    }

    /// Index of the PDPT entry that translates this address.
    pub fn pdpte(&self) -> (r: usize)
        ensures
            r == pdpt_index(self.0),
            r < 512,
    {
        let x = self.0 as u64;
        assert((x >> 30u64) & 0x1ff == (x / 0x4000_0000) % 512) by (bit_vector);
        ((x >> 30u64) & 0x1ff) as usize
    }

    /// Index of the PD entry that translates this address.
    pub fn pde(&self) -> (r: usize)
        ensures
            r == pd_index(self.0),
            r < 512,
    {
        let x = self.0 as u64;
        assert((x >> 21u64) & 0x1ff == (x / 0x20_0000) % 512) by (bit_vector);
        ((x >> 21u64) & 0x1ff) as usize
    }

    /// Index of the PT entry that translates this address.
    pub fn pte(&self) -> (r: usize)
        ensures
            r == pt_index(self.0),
            r < 512,
    {
        let x = self.0 as u64;
        assert((x >> 12u64) & 0x1ff == (x / 0x1000) % 512) by (bit_vector);
        ((x >> 12u64) & 0x1ff) as usize
    }

    /// Offset of this address within its page.
    pub fn pt_offset(&self) -> (r: usize)
        ensures
            r == self.0 % 4096,
    {
        self.0 % PAGE_SIZE
    }
}

} // verus!
