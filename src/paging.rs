//! Page-table entries, the simulated physical memory that holds the tables,
//! and the walker that resolves a virtual address to its deepest entry.

use vstd::prelude::*;

use crate::addr::{PAddr, VAddr, pml4_index, pdpt_index, pd_index, pt_index};
use crate::bits::{bit, same_bits_except, test_bit, with_bit, with_field};
use crate::vm::{VmMemory, word_at};
use crate::frame::{allocation_result, FrameAllocator};

verus! {

/// The bits of an entry that hold the physical address of the next table or
/// of the mapped frame.
pub const ENTRY_ADDR_MASK: u64 = 0x3fff_ffff_ffff_f000;

pub const PRESENT_BIT: u64 = 0;
pub const WRITABLE_BIT: u64 = 1;
pub const HUGE_BIT: u64 = 7;
pub const NO_EXECUTE_BIT: u64 = 63;

/// The entry maps or references something.
pub open spec fn present(e: u64) -> bool {
    bit(e, PRESENT_BIT)
}

pub open spec fn writable(e: u64) -> bool {
    bit(e, WRITABLE_BIT)
}

/// A directory entry that maps a huge page instead of referencing a table.
pub open spec fn huge(e: u64) -> bool {
    bit(e, HUGE_BIT)
}

/// The no-execute bit is clear.
pub open spec fn executable(e: u64) -> bool {
    !bit(e, NO_EXECUTE_BIT)
}

/// The physical address that the entry holds.
pub open spec fn entry_addr(e: u64) -> u64 {
    e & ENTRY_ADDR_MASK
}

/// An entry of a PML4 table.
#[derive(Clone, Copy, Debug)]
pub struct PML4Entry(pub u64);

/// An entry of a page-directory-pointer table.
#[derive(Clone, Copy, Debug)]
pub struct PDPTEntry(pub u64);

/// An entry of a page directory.
#[derive(Clone, Copy, Debug)]
pub struct PDEntry(pub u64);

/// An entry of a page table.
#[derive(Clone, Copy, Debug)]
pub struct PTEntry(pub u64);

impl PML4Entry {
    /// The physical address of the PDPT this entry references.
    pub fn addr(&self) -> (r: PAddr)
        ensures
            r.0 == entry_addr(self.0),
    {
        PAddr(self.0 & ENTRY_ADDR_MASK)
    }

    pub fn set_addr(&mut self, addr: PAddr)
        requires
            addr.0 & !ENTRY_ADDR_MASK == 0,
        ensures
            entry_addr(final(self).0) == addr.0,
            final(self).0 & !ENTRY_ADDR_MASK == old(self).0 & !ENTRY_ADDR_MASK,
    {
        self.0 = with_field(self.0, ENTRY_ADDR_MASK, addr.0);
    }

    /// The physical address of the referenced PDPT; `None` when the entry is
    /// not present.
    pub fn pdpt(&self) -> (r: Option<PAddr>)
        ensures
            r == (if present(self.0) { Some(PAddr(entry_addr(self.0))) } else { None }),
    {
        if !self.is_present() {
            return None;
        }
        Some(self.addr())
    }

    pub fn is_present(&self) -> (r: bool)
        ensures
            r == present(self.0),
    {
        test_bit(self.0, PRESENT_BIT)
    }

    pub fn set_present(&mut self, present: bool)
        ensures
            bit(final(self).0, PRESENT_BIT) == present,
            same_bits_except(old(self).0, final(self).0, PRESENT_BIT),
            entry_addr(final(self).0) == entry_addr(old(self).0),
    {
        self.0 = with_bit(self.0, PRESENT_BIT, present);
    }
}

impl PDPTEntry {
    /// The physical address of the page directory this entry references.
    pub fn addr(&self) -> (r: PAddr)
        ensures
            r.0 == entry_addr(self.0),
    {
        PAddr(self.0 & ENTRY_ADDR_MASK)
    }

    pub fn set_addr(&mut self, addr: PAddr)
        requires
            addr.0 & !ENTRY_ADDR_MASK == 0,
        ensures
            entry_addr(final(self).0) == addr.0,
            final(self).0 & !ENTRY_ADDR_MASK == old(self).0 & !ENTRY_ADDR_MASK,
    {
        self.0 = with_field(self.0, ENTRY_ADDR_MASK, addr.0);
    }

    /// The physical address of the referenced page directory; `None` when the
    /// entry is not present.
    pub fn pd(&self) -> (r: Option<PAddr>)
        ensures
            r == (if present(self.0) { Some(PAddr(entry_addr(self.0))) } else { None }),
    {
        if !self.is_present() {
            return None;
        }
        Some(self.addr())
    }

    pub fn is_present(&self) -> (r: bool)
        ensures
            r == present(self.0),
    {
        test_bit(self.0, PRESENT_BIT)
    }

    pub fn set_present(&mut self, present: bool)
        ensures
            bit(final(self).0, PRESENT_BIT) == present,
            same_bits_except(old(self).0, final(self).0, PRESENT_BIT),
            entry_addr(final(self).0) == entry_addr(old(self).0),
    {
        self.0 = with_bit(self.0, PRESENT_BIT, present);
    }

    pub fn is_writable(&self) -> (r: bool)
        ensures
            r == writable(self.0),
    {
        test_bit(self.0, WRITABLE_BIT)
    }

    pub fn set_writable(&mut self, writable: bool)
        ensures
            bit(final(self).0, WRITABLE_BIT) == writable,
            same_bits_except(old(self).0, final(self).0, WRITABLE_BIT),
            entry_addr(final(self).0) == entry_addr(old(self).0),
    {
        self.0 = with_bit(self.0, WRITABLE_BIT, writable);
    }
}

impl PDEntry {
    /// The physical address of the page table, or of the huge page, that this
    /// entry references.
    pub fn addr(&self) -> (r: PAddr)
        ensures
            r.0 == entry_addr(self.0),
    {
        PAddr(self.0 & ENTRY_ADDR_MASK)
    }

    pub fn set_addr(&mut self, addr: PAddr)
        requires
            addr.0 & !ENTRY_ADDR_MASK == 0,
        ensures
            entry_addr(final(self).0) == addr.0,
            final(self).0 & !ENTRY_ADDR_MASK == old(self).0 & !ENTRY_ADDR_MASK,
    {
        self.0 = with_field(self.0, ENTRY_ADDR_MASK, addr.0);
    }

    /// The physical address of the referenced page table; `None` when the
    /// entry is not present or maps a huge page.
    pub fn pt(&self) -> (r: Option<PAddr>)
        ensures
            r == (if present(self.0) && !huge(self.0) {
                Some(PAddr(entry_addr(self.0)))
            } else {
                None
            }),
    {
        if !self.is_present() || self.is_huge() {
            return None;
        }
        Some(self.addr())
    }

    pub fn is_present(&self) -> (r: bool)
        ensures
            r == present(self.0),
    {
        test_bit(self.0, PRESENT_BIT)
    }

    pub fn set_present(&mut self, present: bool)
        ensures
            bit(final(self).0, PRESENT_BIT) == present,
            same_bits_except(old(self).0, final(self).0, PRESENT_BIT),
            entry_addr(final(self).0) == entry_addr(old(self).0),
    {
        self.0 = with_bit(self.0, PRESENT_BIT, present);
    }

    pub fn is_writable(&self) -> (r: bool)
        ensures
            r == writable(self.0),
    {
        test_bit(self.0, WRITABLE_BIT)
    }

    pub fn set_writable(&mut self, writable: bool)
        ensures
            bit(final(self).0, WRITABLE_BIT) == writable,
            same_bits_except(old(self).0, final(self).0, WRITABLE_BIT),
            entry_addr(final(self).0) == entry_addr(old(self).0),
    {
        self.0 = with_bit(self.0, WRITABLE_BIT, writable);
    }

    pub fn is_huge(&self) -> (r: bool)
        ensures
            r == huge(self.0),
    {
        test_bit(self.0, HUGE_BIT)
    }

    pub fn set_huge(&mut self, huge: bool)
        ensures
            bit(final(self).0, HUGE_BIT) == huge,
            same_bits_except(old(self).0, final(self).0, HUGE_BIT),
            entry_addr(final(self).0) == entry_addr(old(self).0),
    {
        self.0 = with_bit(self.0, HUGE_BIT, huge);
    }

    pub fn is_executable(&self) -> (r: bool)
        ensures
            r == executable(self.0),
    {
        !test_bit(self.0, NO_EXECUTE_BIT)
    }

    pub fn set_executable(&mut self, executable: bool)
        ensures
            bit(final(self).0, NO_EXECUTE_BIT) == !executable,
            same_bits_except(old(self).0, final(self).0, NO_EXECUTE_BIT),
            entry_addr(final(self).0) == entry_addr(old(self).0),
    {
        self.0 = with_bit(self.0, NO_EXECUTE_BIT, !executable);
    }
}

impl PTEntry {
    /// The physical address of the mapped frame.
    pub fn addr(&self) -> (r: PAddr)
        ensures
            r.0 == entry_addr(self.0),
    {
        PAddr(self.0 & ENTRY_ADDR_MASK)
    }

    pub fn set_addr(&mut self, addr: PAddr)
        requires
            addr.0 & !ENTRY_ADDR_MASK == 0,
        ensures
            entry_addr(final(self).0) == addr.0,
            final(self).0 & !ENTRY_ADDR_MASK == old(self).0 & !ENTRY_ADDR_MASK,
    {
        self.0 = with_field(self.0, ENTRY_ADDR_MASK, addr.0);
    }

    pub fn is_present(&self) -> (r: bool)
        ensures
            r == present(self.0),
    {
        test_bit(self.0, PRESENT_BIT)
    }

    pub fn set_present(&mut self, present: bool)
        ensures
            bit(final(self).0, PRESENT_BIT) == present,
            same_bits_except(old(self).0, final(self).0, PRESENT_BIT),
            entry_addr(final(self).0) == entry_addr(old(self).0),
    {
        self.0 = with_bit(self.0, PRESENT_BIT, present);
    }

    pub fn is_writable(&self) -> (r: bool)
        ensures
            r == writable(self.0),
    {
        test_bit(self.0, WRITABLE_BIT)
    }

    pub fn set_writable(&mut self, writable: bool)
        ensures
            bit(final(self).0, WRITABLE_BIT) == writable,
            same_bits_except(old(self).0, final(self).0, WRITABLE_BIT),
            entry_addr(final(self).0) == entry_addr(old(self).0),
    {
        self.0 = with_bit(self.0, WRITABLE_BIT, writable);
    }

    pub fn is_executable(&self) -> (r: bool)
        ensures
            r == executable(self.0),
    {
        !test_bit(self.0, NO_EXECUTE_BIT)
    }

    pub fn set_executable(&mut self, executable: bool)
        ensures
            bit(final(self).0, NO_EXECUTE_BIT) == !executable,
            same_bits_except(old(self).0, final(self).0, NO_EXECUTE_BIT),
            entry_addr(final(self).0) == entry_addr(old(self).0),
    {
        self.0 = with_bit(self.0, NO_EXECUTE_BIT, !executable);
    }
}

/// An entry of any level, as the walker returns it.
#[derive(Clone, Copy, Debug)]
pub enum AnyEntry {
    PML4Entry(PML4Entry),
    PDPTEntry(PDPTEntry),
    PDEntry(PDEntry),
    PTEntry(PTEntry),
}

/// The raw word of an entry of any level.
pub open spec fn any_entry_word(e: AnyEntry) -> u64 {
    match e {
        AnyEntry::PML4Entry(x) => x.0,
        AnyEntry::PDPTEntry(x) => x.0,
        AnyEntry::PDEntry(x) => x.0,
        AnyEntry::PTEntry(x) => x.0,
    }
}

impl AnyEntry {
    /// The physical address that the entry holds, whatever its level.
    pub fn paddr(&self) -> (r: PAddr)
        ensures
            r.0 == entry_addr(any_entry_word(*self)),
    {
        match self {
            AnyEntry::PML4Entry(e) => e.addr(),
            AnyEntry::PDPTEntry(e) => e.addr(),
            AnyEntry::PDEntry(e) => e.addr(),
            AnyEntry::PTEntry(e) => e.addr(),
        }
    }

    /// The page-table entry held by this value, which must be one.
    pub fn unwrap_pt_entry(self) -> (r: PTEntry)
        requires
            self is PTEntry,
        ensures
            r.0 == any_entry_word(self),
    {
        match self {
            AnyEntry::PTEntry(e) => e,
            _ => {
                proof {
                    assert(false);
                }
                PTEntry(0)
            },
        }
    }
}

/// Where the walk for `va`, from the PML4 at `root`, reads its PDPT entry.
pub open spec fn pdpt_slot(mem: Seq<u64>, root: u64, va: usize) -> Option<int> {
    match word_at(mem, root + 8 * pml4_index(va)) {
        Some(e) => if present(e) {
            Some(entry_addr(e) + 8 * pdpt_index(va))
        } else {
            None
        },
        None => None,
    }
}

/// Where the walk for `va` reads its page-directory entry.
pub open spec fn pd_slot(mem: Seq<u64>, root: u64, va: usize) -> Option<int> {
    match pdpt_slot(mem, root, va) {
        Some(s) => match word_at(mem, s) {
            Some(e) => if present(e) {
                Some(entry_addr(e) + 8 * pd_index(va))
            } else {
                None
            },
            None => None,
        },
        None => None,
    }
}

/// Where the walk for `va` reads its page-table entry: the directory entry
/// must be present and reference a table rather than map a huge page.
pub open spec fn pt_slot(mem: Seq<u64>, root: u64, va: usize) -> Option<int> {
    match pd_slot(mem, root, va) {
        Some(s) => match word_at(mem, s) {
            Some(e) => if present(e) && !huge(e) {
                Some(entry_addr(e) + 8 * pt_index(va))
            } else {
                None
            },
            None => None,
        },
        None => None,
    }
}

/// The deepest entry that translates `va`: the directory entry when it maps a
/// huge page, the page-table entry otherwise; `None` when an intermediate
/// entry is absent or lies outside memory.
pub open spec fn locate(mem: Seq<u64>, root: u64, va: usize) -> Option<AnyEntry> {
    match pd_slot(mem, root, va) {
        Some(s) => match word_at(mem, s) {
            Some(e) => if huge(e) {
                Some(AnyEntry::PDEntry(PDEntry(e)))
            } else if !present(e) {
                None
            } else {
                match word_at(mem, entry_addr(e) + 8 * pt_index(va)) {
                    Some(t) => Some(AnyEntry::PTEntry(PTEntry(t))),
                    None => None,
                }
            },
            None => None,
        },
        None => None,
    }
}

/// Read entry `index` of the table at physical address `table`.
pub fn read_table_entry(mem: &VmMemory, table: u64, index: usize) -> (r: Option<u64>)
    requires
        index < 512,
    ensures
        r == word_at(mem.0@, table + 8 * index),
{
    if table % 8 != 0 || table / 8 >= mem.0.len() as u64 {
        return None;
    }
    let rest: u64 = mem.0.len() as u64 - table / 8;
    if index as u64 >= rest {
        return None;
    }
    assert(((table + 8 * index) as int) / 8 == table as int / 8 + index) by (nonlinear_arith)
        requires
            table % 8 == 0,
    ;
    assert((table + 8 * index) as int % 8 == 0) by (nonlinear_arith)
        requires
            table % 8 == 0,
    ;
    Some(mem.0[(table / 8) as usize + index])
}

/// Store `value` as entry `index` of the table at physical address `table`;
/// `false`, with nothing written, when the entry lies outside memory.
pub fn write_table_entry(mem: &mut VmMemory, table: u64, index: usize, value: u64) -> (r: bool)
    requires
        index < 512,
    ensures
        r == word_at(old(mem).0@, table + 8 * index).is_some(),
        r ==> final(mem).0@ == old(mem).0@.update((table + 8 * index) / 8, value),
        !r ==> final(mem).0@ == old(mem).0@,
{
    let len = mem.0.len() as u64;
    assert(((table + 8 * index) as int) % 8 == table as int % 8) by (nonlinear_arith);
    if table % 8 != 0 || table / 8 >= len || index as u64 >= len - table / 8 {
        proof {
            if table % 8 == 0 {
                assert(((table + 8 * index) as int) / 8 == table as int / 8 + index) by (nonlinear_arith)
                    requires
                        table % 8 == 0,
                ;
            }
        }
        return false;
    }
    assert(((table + 8 * index) as int) / 8 == table as int / 8 + index) by (nonlinear_arith)
        requires
            table % 8 == 0,
    ;
    mem.0.set((table / 8) as usize + index, value);
    true
}

/// Resolve `vaddr`, from the PML4 at physical address `root`, to its deepest
/// entry. The walker only reads.
pub fn locate_page_entry(mem: &VmMemory, root: PAddr, vaddr: VAddr) -> (r: Option<AnyEntry>)
    ensures
        r == locate(mem.0@, root.0, vaddr.0),
        r matches Some(e) ==> (e is PDEntry || e is PTEntry),
{
    let pml4e = match read_table_entry(mem, root.0, vaddr.pml4e()) {
        Some(w) => PML4Entry(w),
        None => return None,
    };
    let pdpt = match pml4e.pdpt() {
        Some(a) => a,
        None => return None,
    };
    let pdpte = match read_table_entry(mem, pdpt.0, vaddr.pdpte()) {
        Some(w) => PDPTEntry(w),
        None => return None,
    };
    let pd = match pdpte.pd() {
        Some(a) => a,
        None => return None,
    };
    let pde = match read_table_entry(mem, pd.0, vaddr.pde()) {
        Some(w) => PDEntry(w),
        None => return None,
    };
    if pde.is_huge() {
        return Some(AnyEntry::PDEntry(pde));
    } else if !pde.is_present() {
        return None;
    }
    let pt = pde.addr();
    match read_table_entry(mem, pt.0, vaddr.pte()) {
        Some(w) => Some(AnyEntry::PTEntry(PTEntry(w))),
        None => None,
    }
}

/// What an access to a virtual address may do.
#[derive(Clone, Copy, Debug, PartialEq, Eq, Structural)]
pub struct PagePermissions {
    pub accessible: bool,
    pub readable: bool,
    pub writable: bool,
    pub executable: bool,
}

/// The permissions that the bits of a leaf entry grant.
pub open spec fn leaf_permissions(e: u64) -> PagePermissions {
    PagePermissions {
        accessible: present(e),
        readable: present(e),
        writable: present(e) && writable(e),
        executable: present(e) && executable(e),
    }
}

/// The permissions of `va`: none when it does not resolve, else those of its
/// deepest entry.
pub open spec fn permissions_of(mem: Seq<u64>, root: u64, va: usize) -> PagePermissions {
    match locate(mem, root, va) {
        Some(e) => leaf_permissions(any_entry_word(e)),
        None => PagePermissions {
            accessible: false,
            readable: false,
            writable: false,
            executable: false,
        },
    }
}

fn leaf_entry_permissions(e: u64) -> (r: PagePermissions)
    ensures
        r == leaf_permissions(e),
{
    let present = test_bit(e, PRESENT_BIT);
    PagePermissions {
        accessible: present,
        readable: present,
        writable: present && test_bit(e, WRITABLE_BIT),
        executable: present && !test_bit(e, NO_EXECUTE_BIT),
    }
}

/// The permissions with which `vaddr` is mapped, from the PML4 at `root`.
pub fn page_permissions(mem: &VmMemory, root: PAddr, vaddr: VAddr) -> (r: PagePermissions)
    ensures
        r == permissions_of(mem.0@, root.0, vaddr.0),
{
    match locate_page_entry(mem, root, vaddr) {
        Some(AnyEntry::PDEntry(pde)) => leaf_entry_permissions(pde.0),
        Some(AnyEntry::PTEntry(pte)) => leaf_entry_permissions(pte.0),
        _ => PagePermissions {
            accessible: false,
            readable: false,
            writable: false,
            executable: false,
        },
    }
}

impl VAddr {
    /// The physical address held by the deepest entry that translates this
    /// address; `None` when it does not resolve.
    pub fn to_paddr(self, mem: &VmMemory, root: PAddr) -> (r: Option<PAddr>)
        ensures
            r == (match locate(mem.0@, root.0, self.0) {
                Some(e) => Some(PAddr(entry_addr(any_entry_word(e)))),
                None => None,
            }),
    {
        match locate_page_entry(mem, root, self) {
            Some(e) => Some(e.paddr()),
            None => None,
        }
    }
}

/// The physical address of the page-table entry that translates `vaddr`;
/// `None` when the walk does not reach a page table.
pub fn locate_pt_slot(mem: &VmMemory, root: PAddr, vaddr: VAddr) -> (r: Option<u64>)
    ensures
        r matches Some(a) ==> pt_slot(mem.0@, root.0, vaddr.0) == Some(a as int),
        r is None ==> pt_slot(mem.0@, root.0, vaddr.0) is None,
{
    let pml4e = match read_table_entry(mem, root.0, vaddr.pml4e()) {
        Some(w) => PML4Entry(w),
        None => return None,
    };
    let pdpt = match pml4e.pdpt() {
        Some(a) => a,
        None => return None,
    };
    let pdpte = match read_table_entry(mem, pdpt.0, vaddr.pdpte()) {
        Some(w) => PDPTEntry(w),
        None => return None,
    };
    let pd = match pdpte.pd() {
        Some(a) => a,
        None => return None,
    };
    let pde = match read_table_entry(mem, pd.0, vaddr.pde()) {
        Some(w) => PDEntry(w),
        None => return None,
    };
    match pde.pt() {
        Some(pt) => {
            let a: u64 = pt.0;
            let w: u64 = pde.0;
            assert(a <= 0x3fff_ffff_ffff_f000) by (bit_vector)
                requires
                    a == w & 0x3fff_ffff_ffff_f000,
            ;
            Some(a + 8 * vaddr.pte() as u64)
        },
        None => None,
    }
}

/// `va` is mapped by a present page-table entry.
pub open spec fn mapped_by_pte(mem: Seq<u64>, root: u64, va: usize) -> bool {
    match pt_slot(mem, root, va) {
        Some(s) => match word_at(mem, s) {
            Some(e) => present(e),
            None => false,
        },
        None => false,
    }
}

/// Clear the present bit of the word at `slot`, keeping its other bits.
pub fn clear_present_at(mem: &mut VmMemory, slot: u64)
    requires
        word_at(old(mem).0@, slot as int) is Some,
    ensures
        final(mem).0.len() == old(mem).0.len(),
        forall|i: int| 0 <= i < old(mem).0.len() && i != slot as int / 8 ==> #[trigger] final(mem).0@[i] == old(mem).0@[i],
        !present(final(mem).0@[slot as int / 8]),
        same_bits_except(old(mem).0@[slot as int / 8], final(mem).0@[slot as int / 8], PRESENT_BIT),
{
    let w = match mem.read_u64(slot) {
        Some(w) => w,
        None => return,
    };
    mem.write_u64(slot, with_bit(w, PRESENT_BIT, false));
}

/// Remove the mapping of the high-memory page `vaddr`: the present bit of its
/// page-table entry is cleared. The page must be mapped.
pub fn unmap_highmem_vaddr(mem: &mut VmMemory, root: PAddr, vaddr: VAddr)
    requires
        mapped_by_pte(old(mem).0@, root.0, vaddr.0),
    ensures
        ({
            let slot = pt_slot(old(mem).0@, root.0, vaddr.0)->0;
            &&& final(mem).0.len() == old(mem).0.len()
            &&& forall|i: int| 0 <= i < old(mem).0.len() && i != slot / 8
                ==> #[trigger] final(mem).0@[i] == old(mem).0@[i]
            &&& !present(final(mem).0@[slot / 8])
            &&& same_bits_except(old(mem).0@[slot / 8], final(mem).0@[slot / 8], PRESENT_BIT)
        }),
{
    match locate_pt_slot(mem, root, vaddr) {
        Some(slot) => clear_present_at(mem, slot),
        None => {},
    }
}

/// Why a page could not be mapped.
#[derive(Clone, Copy, Debug, PartialEq, Eq, Structural)]
pub enum MapError {
    /// The PML4 entry of the address is absent.
    MissingPml4Entry,
    /// A directory entry maps a huge page where a table was expected.
    HugePage,
    /// The page is mapped already.
    AlreadyMapped,
    /// No frame is left for a new table.
    OutOfFrames,
    /// A table lies outside memory.
    OutOfMemory,
    /// Writing the new entries changed the walk: the tables overlap.
    InconsistentTables,
}

/// `va` resolves to a present, writable, non-executable page-table entry
/// that maps `pa`.
pub open spec fn maps_rw(mem: Seq<u64>, root: u64, va: usize, pa: u64) -> bool {
    match locate(mem, root, va) {
        Some(AnyEntry::PTEntry(e)) => entry_addr(e.0) == pa && present(e.0) && writable(e.0) && !executable(e.0),
        _ => false,
    }
}

/// All tables on the walk to `va` exist, its page-table entry is not present,
/// and that entry's slot is none of the slots the walk reads before it.
pub open spec fn leaf_free_and_apart(mem: Seq<u64>, root: u64, va: usize) -> bool {
    &&& pt_slot(mem, root, va) matches Some(sl)
    &&& word_at(mem, sl) matches Some(e)
    &&& !present(e)
    &&& sl != root + 8 * pml4_index(va)
    &&& sl != pdpt_slot(mem, root, va)->0
    &&& sl != pd_slot(mem, root, va)->0
}

/// Writing word `x` leaves the walk to `v` alone when `x` is none of the
/// words the walk reads.
pub proof fn lemma_walk_frame(m: Seq<u64>, x: int, w: u64, root: u64, v: usize)
    requires
        pt_slot(m, root, v) is Some,
        0 <= x < m.len(),
        x * 8 != root + 8 * pml4_index(v),
        x * 8 != pdpt_slot(m, root, v)->0,
        x * 8 != pd_slot(m, root, v)->0,
    ensures
        pdpt_slot(m.update(x, w), root, v) == pdpt_slot(m, root, v),
        pd_slot(m.update(x, w), root, v) == pd_slot(m, root, v),
        pt_slot(m.update(x, w), root, v) == pt_slot(m, root, v),
        x * 8 != pt_slot(m, root, v)->0 ==> locate(m.update(x, w), root, v) == locate(m, root, v),
        x * 8 != pt_slot(m, root, v)->0 ==> word_at(m.update(x, w), pt_slot(m, root, v)->0) == word_at(
            m,
            pt_slot(m, root, v)->0,
        ),
{
    let n = m.update(x, w);
    let a = root + 8 * pml4_index(v);
    assert(word_at(n, a) == word_at(m, a));
    let b = pdpt_slot(m, root, v)->0;
    assert(word_at(n, b) == word_at(m, b));
    let c = pd_slot(m, root, v)->0;
    assert(word_at(n, c) == word_at(m, c));
    let l = pt_slot(m, root, v)->0;
    if x * 8 != l {
        assert(word_at(n, l) == word_at(m, l));
    }
}

/// A zeroed frame of low memory, in `mem`, for a new table; `None` when no
/// frame is left or when it lies outside `mem`, in which case the frame is
/// given back.
#[verifier::rlimit(100)]
fn new_table(mem: &mut VmMemory, frames: &mut FrameAllocator) -> (r: Result<PAddr, MapError>)
    requires
        old(frames).wf(),
    ensures
        final(frames).wf(),
        final(mem).0.len() == old(mem).0.len(),
        r matches Ok(pa) ==> pa.0 & !ENTRY_ADDR_MASK == 0,
        r is Err ==> r == Err::<PAddr, MapError>(MapError::OutOfFrames) || r == Err::<PAddr, MapError>(
            MapError::OutOfMemory,
        ),
        (r == Err::<PAddr, MapError>(MapError::OutOfFrames)) <==> allocation_result(old(frames)@, 1, false, None),
        r is Err ==> *final(mem) == *old(mem) && final(frames)@ == old(frames)@,
{
    let ghost f0 = frames@;
    let pa = match frames.allocate(1, false) {
        Some(pa) => pa,
        None => return Err(MapError::OutOfFrames),
    };
    proof {
        crate::frame::lemma_success_excludes_failure(f0, 1, false, pa);
    }
    let len = mem.0.len() as u64;
    if pa.0 / 8 > len || 512 > len - pa.0 / 8 {
        proof {
            crate::frame::lemma_release_paint(old(frames)@, pa.0 as int / 4096, 1);
        }
        frames.free(pa, 1);
        return Err(MapError::OutOfMemory);
    }
    mem.zero(pa.0, 4096);
    let a: u64 = pa.0;
    assert(a & !ENTRY_ADDR_MASK == 0) by (bit_vector)
        requires
            a % 4096 == 0,
            a < 0x4000_0000,
    ;
    Ok(pa)
}

/// Map the page `vaddr` to the frame `paddr`, read-write and not executable,
/// through the tables at `root`. Missing directories and page tables are
/// zeroed frames taken from `frames`. The page must not be mapped already.
/// The caller invalidates the TLB entry of the page.
pub fn map_highmem_vaddr(
    mem: &mut VmMemory,
    root: PAddr,
    frames: &mut FrameAllocator,
    vaddr: VAddr,
    paddr: PAddr,
) -> (r: Result<(), MapError>)
    requires
        old(frames).wf(),
        paddr.0 & !ENTRY_ADDR_MASK == 0,
    ensures
        final(frames).wf(),
        final(mem).0.len() == old(mem).0.len(),
        r is Ok ==> maps_rw(final(mem).0@, root.0, vaddr.0, paddr.0),
        mapped_by_pte(old(mem).0@, root.0, vaddr.0) ==> r == Err::<(), MapError>(MapError::AlreadyMapped)
            && *final(mem) == *old(mem) && final(frames)@ == old(frames)@,
        word_at(old(mem).0@, root.0 + 8 * pml4_index(vaddr.0)) is None ==> r == Err::<(), MapError>(
            MapError::OutOfMemory,
        ) && *final(mem) == *old(mem) && final(frames)@ == old(frames)@,
        (r == Err::<(), MapError>(MapError::MissingPml4Entry)) <==> (word_at(
            old(mem).0@,
            root.0 + 8 * pml4_index(vaddr.0),
        ) matches Some(e) && !present(e)),
        (r == Err::<(), MapError>(MapError::HugePage)) <==> (pd_slot(old(mem).0@, root.0, vaddr.0) matches Some(sl)
            && (word_at(old(mem).0@, sl) matches Some(e) && huge(e))),
        r == Err::<(), MapError>(MapError::MissingPml4Entry) || r == Err::<(), MapError>(MapError::HugePage)
            ==> *final(mem) == *old(mem) && final(frames)@ == old(frames)@,
        (pdpt_slot(old(mem).0@, root.0, vaddr.0) matches Some(sl) && (word_at(old(mem).0@, sl) matches Some(e)
            && !present(e))) && allocation_result(old(frames)@, 1, false, None) ==> r == Err::<(), MapError>(
            MapError::OutOfFrames,
        ) && *final(mem) == *old(mem) && final(frames)@ == old(frames)@,
        leaf_free_and_apart(old(mem).0@, root.0, vaddr.0) ==> r is Ok && final(frames)@ == old(frames)@,
        leaf_free_and_apart(old(mem).0@, root.0, vaddr.0) ==> exists|w: u64|
            final(mem).0@ == old(mem).0@.update(pt_slot(old(mem).0@, root.0, vaddr.0)->0 / 8, w) && #[trigger] entry_addr(w)
                == paddr.0 && present(w) && writable(w) && !executable(w),
{
    let pml4e = match read_table_entry(mem, root.0, vaddr.pml4e()) {
        Some(w) => PML4Entry(w),
        None => return Err(MapError::OutOfMemory),
    };
    if !pml4e.is_present() {
        return Err(MapError::MissingPml4Entry);
    }
    let pdpt = pml4e.addr();
    let mut pdpte = match read_table_entry(mem, pdpt.0, vaddr.pdpte()) {
        Some(w) => PDPTEntry(w),
        None => return Err(MapError::OutOfMemory),
    };
    let made_pd = !pdpte.is_present();
    if made_pd {
        let t = match new_table(mem, frames) {
            Ok(t) => t,
            Err(e) => return Err(e),
        };
        pdpte.set_addr(t);
        pdpte.set_present(true);
        pdpte.set_writable(true);
        write_table_entry(mem, pdpt.0, vaddr.pdpte(), pdpte.0);
    }
    let pd = pdpte.addr();
    let mut pde = match read_table_entry(mem, pd.0, vaddr.pde()) {
        Some(w) => PDEntry(w),
        None => return Err(MapError::OutOfMemory),
    };
    if pde.is_huge() {
        if made_pd {
            return Err(MapError::InconsistentTables);
        }
        return Err(MapError::HugePage);
    }
    let made_pt = !pde.is_present();
    if made_pt {
        let t = match new_table(mem, frames) {
            Ok(t) => t,
            Err(e) => return Err(e),
        };
        pde.set_addr(t);
        pde.set_present(true);
        pde.set_writable(true);
        write_table_entry(mem, pd.0, vaddr.pde(), pde.0);
    }
    let pt = pde.addr();
    let mut pte = match read_table_entry(mem, pt.0, vaddr.pte()) {
        Some(w) => PTEntry(w),
        None => return Err(MapError::OutOfMemory),
    };
    if pte.is_present() {
        if made_pd || made_pt {
            return Err(MapError::InconsistentTables);
        }
        return Err(MapError::AlreadyMapped);
    }
    pte.set_addr(paddr);
    pte.set_present(true);
    pte.set_writable(true);
    pte.set_executable(false);
    let ghost before = mem.0@;
    write_table_entry(mem, pt.0, vaddr.pte(), pte.0);
    proof {
        if leaf_free_and_apart(old(mem).0@, root.0, vaddr.0) {
            let sl = pt.0 + 8 * pt_index(vaddr.0);
            assert(before == old(mem).0@);
            assert(word_at(mem.0@, root.0 + 8 * pml4_index(vaddr.0)) == word_at(before, root.0 + 8 * pml4_index(vaddr.0)));
            assert(word_at(mem.0@, pdpt_slot(before, root.0, vaddr.0)->0) == word_at(before, pdpt_slot(before, root.0, vaddr.0)->0));
            assert(word_at(mem.0@, pd_slot(before, root.0, vaddr.0)->0) == word_at(before, pd_slot(before, root.0, vaddr.0)->0));
            assert(pdpt_slot(mem.0@, root.0, vaddr.0) == pdpt_slot(before, root.0, vaddr.0));
            assert(pd_slot(mem.0@, root.0, vaddr.0) == pd_slot(before, root.0, vaddr.0));
            assert(word_at(mem.0@, sl) == Some(pte.0));
            assert(locate(mem.0@, root.0, vaddr.0) == Some(AnyEntry::PTEntry(pte)));
            assert(sl / 8 == pt.0 / 8 + pt_index(vaddr.0)) by (nonlinear_arith)
                requires
                    sl == pt.0 + 8 * pt_index(vaddr.0),
                    sl % 8 == 0,
            ;
            assert(mem.0@ == old(mem).0@.update(sl / 8, pte.0));
            assert(entry_addr(pte.0) == paddr.0);
        }
    }
    match locate_page_entry(mem, root, vaddr) {
        Some(AnyEntry::PTEntry(e)) => {
            if e.addr().0 == paddr.0 && e.is_present() && e.is_writable() && !e.is_executable() {
                Ok(())
            } else {
                Err(MapError::InconsistentTables)
            }
        },
        _ => Err(MapError::InconsistentTables),
    }
}

} // verus!
