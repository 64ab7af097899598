//! The paging bootstrap: grow the boot loader's minimal mapping into the
//! full low-memory map, with the kernel text read-execute, its read-only data
//! read-only, the rest read-write, and the page past the boot stack absent.
//! Page tables that are missing are carved from the pages right after the
//! kernel image, with a bump pointer.

use vstd::prelude::*;

use crate::addr::{PAddr, VAddr, LOWMEM_VA_START, lowmem_va_start};
use crate::paging::{
    entry_addr, executable, huge, locate, present, writable, AnyEntry,
    PDPTEntry, PML4Entry, PTEntry, ENTRY_ADDR_MASK,
};
use crate::addr::{pdpt_index, pml4_index};
use crate::vm::{VmMemory, word_at, zeroed};

verus! {

/// The word that the boot code leaves at the bottom of its stack.
pub const STACK_GUARD_MAGIC: u32 = 0xdead_beef;

/// Where the linker put the kernel's segments.
#[derive(Clone, Copy, Debug, PartialEq, Eq, Structural)]
pub struct KernelLayout {
    pub image_end: VAddr,
    pub text_start: VAddr,
    pub text_end: VAddr,
    pub rodata_start: VAddr,
    pub rodata_end: VAddr,
    /// The first byte past the boot stack: its page stays unmapped.
    pub stack_guard: VAddr,
}

/// Why the bootstrap could not complete.
#[derive(Clone, Copy, Debug, PartialEq, Eq, Structural)]
pub enum BootError {
    /// A PML4 entry of the kernel half is absent.
    MissingPml4Entry,
    /// The word at the stack guard is not the magic value.
    StackGuardCorrupted,
    /// The pages needed for new tables or the guard word lie outside memory.
    OutOfMemory,
    /// A page does not resolve as it was mapped: the tables overlap.
    InconsistentTables,
}

pub open spec fn in_segment(va: int, start: VAddr, end: VAddr) -> bool {
    start.0 <= va < end.0
}

/// The leaf entry `e` maps page `va` of the low-memory window as the kernel
/// wants it: to its identity-mapped frame, absent for the guard page,
/// read-execute in the text, read-only in the rodata, read-write elsewhere.
pub open spec fn kernel_entry(e: u64, va: int, layout: KernelLayout) -> bool {
    &&& entry_addr(e) == va - lowmem_va_start()
    &&& present(e) == (va != layout.stack_guard.0)
    &&& va != layout.stack_guard.0 ==> {
        &&& writable(e) == !(in_segment(va, layout.text_start, layout.text_end) || in_segment(
            va,
            layout.rodata_start,
            layout.rodata_end,
        ))
        &&& executable(e) == in_segment(va, layout.text_start, layout.text_end)
    }
}

/// The entry for page `vaddr`, built from the entry `entry` found in the
/// table.
pub fn kernel_page_entry(entry: PTEntry, vaddr: VAddr, layout: &KernelLayout) -> (r: PTEntry)
    requires
        lowmem_va_start() <= vaddr.0,
        vaddr.0 % 4096 == 0,
        vaddr.0 - lowmem_va_start() < 0x4000_0000_0000_0000,
    ensures
        kernel_entry(r.0, vaddr.0 as int, *layout),
{
    let mut e = entry;
    let paddr = PAddr((vaddr.0 - LOWMEM_VA_START) as u64);
    let a: u64 = paddr.0;
    assert(a & !ENTRY_ADDR_MASK == 0) by (bit_vector)
        requires
            a % 4096 == 0,
            a < 0x4000_0000_0000_0000,
    ;
    e.set_addr(paddr);
    e.set_present(true);
    if vaddr == layout.stack_guard {
        e.set_present(false);
    } else if layout.text_start.0 <= vaddr.0 && vaddr.0 < layout.text_end.0 {
        e.set_writable(false);
        e.set_executable(true);
    } else if layout.rodata_start.0 <= vaddr.0 && vaddr.0 < layout.rodata_end.0 {
        e.set_writable(false);
        e.set_executable(false);
    } else {
        e.set_writable(true);
        e.set_executable(false);
    }
    e
}

/// The page at `heap_addr` lies in low memory and in `mem`.
pub open spec fn heap_page_ok(mem: Seq<u64>, heap_addr: VAddr) -> bool {
    &&& lowmem_va_start() <= heap_addr.0
    &&& heap_addr.0 % 4096 == 0
    &&& heap_addr.0 - lowmem_va_start() + 4096 <= mem.len() * 8
    &&& heap_addr.0 + 4096 <= usize::MAX
    &&& heap_addr.0 - lowmem_va_start() < 0x4000_0000_0000_0000
}

/// Zero the page at `heap_addr`, the next free one, and advance past it;
/// return its physical address.
fn take_table_page(mem: &mut VmMemory, heap_addr: &mut VAddr) -> (r: PAddr)
    requires
        heap_page_ok(old(mem).0@, *old(heap_addr)),
    ensures
        r.0 == old(heap_addr).0 - lowmem_va_start(),
        r.0 % 4096 == 0,
        r.0 & !ENTRY_ADDR_MASK == 0,
        final(heap_addr).0 == old(heap_addr).0 + 4096,
        final(mem).0.len() == old(mem).0.len(),
        zeroed(final(mem).0@, r.0 as int, 4096),
        forall|i: int| 0 <= i < old(mem).0.len() && !(r.0 / 8 <= i < (r.0 + 4096) / 8)
            ==> #[trigger] final(mem).0@[i] == old(mem).0@[i],
{
    let pa = PAddr((heap_addr.0 - LOWMEM_VA_START) as u64);
    mem.zero(pa.0, 4096);
    heap_addr.0 = heap_addr.0 + 4096;
    let a: u64 = pa.0;
    assert(a & !ENTRY_ADDR_MASK == 0) by (bit_vector)
        requires
            a % 4096 == 0,
            a < 0x4000_0000_0000_0000,
    ;
    pa
}

/// Fill the page table at `pt` for the pages from `vaddr` on, up to the end
/// of the table or to `lowmem_va_end`, and advance `vaddr` past them.
fn walk_pt(mem: &mut VmMemory, pt: PAddr, vaddr: &mut VAddr, lowmem_va_end: VAddr, layout: &KernelLayout)
    requires
        pt.0 % 4096 == 0,
        pt.0 + 4096 <= old(mem).0.len() * 8,
        old(vaddr).0 % 4096 == 0,
        lowmem_va_start() <= old(vaddr).0 < lowmem_va_end.0,
        lowmem_va_end.0 - lowmem_va_start() < 0x4000_0000_0000_0000,
        lowmem_va_end.0 + 4096 <= usize::MAX,
    ensures
        old(vaddr).0 < final(vaddr).0,
        final(vaddr).0 % 4096 == 0,
        final(vaddr).0 <= lowmem_va_end.0 + 4095,
        final(mem).0.len() == old(mem).0.len(),
        forall|va: int|
            old(vaddr).0 <= va < final(vaddr).0 && va % 4096 == 0 ==> kernel_entry(
                #[trigger] final(mem).0@[pt.0 / 8 + crate::addr::pt_index(va as usize)],
                va,
                *layout,
            ),
        forall|i: int| 0 <= i < old(mem).0.len() && !(pt.0 / 8 <= i < pt.0 / 8 + 512)
            ==> #[trigger] final(mem).0@[i] == old(mem).0@[i],
        final(vaddr).0 < lowmem_va_end.0 ==> final(vaddr).0 == old(vaddr).0 + (512 - crate::addr::pt_index(
            old(vaddr).0,
        )) * 4096,
        final(vaddr).0 <= old(vaddr).0 + (512 - crate::addr::pt_index(old(vaddr).0)) * 4096,
        forall|j: int|
            0 <= j < 512 && !(crate::addr::pt_index(old(vaddr).0) <= j < crate::addr::pt_index(old(vaddr).0) + (
            final(vaddr).0 - old(vaddr).0) / 4096) ==> #[trigger] final(mem).0@[pt.0 / 8 + j] == old(mem).0@[pt.0 / 8
                + j],
{
    let ghost v0 = vaddr.0;
    let mut index: usize = vaddr.pte();
    let ghost idx0 = index as int;
    let base: usize = (pt.0 / 8) as usize;
    loop
        invariant
            index < 512,
            index == crate::addr::pt_index(vaddr.0),
            base == pt.0 / 8,
            base + 512 <= mem.0.len(),
            mem.0.len() == old(mem).0.len(),
            vaddr.0 % 4096 == 0,
            v0 <= vaddr.0 < lowmem_va_end.0,
            lowmem_va_start() <= v0,
            v0 == old(vaddr).0,
            lowmem_va_end.0 - lowmem_va_start() < 0x4000_0000_0000_0000,
            lowmem_va_end.0 + 4096 <= usize::MAX,
            forall|va: int|
                v0 <= va < vaddr.0 && va % 4096 == 0 ==> kernel_entry(
                    #[trigger] mem.0@[pt.0 / 8 + crate::addr::pt_index(va as usize)],
                    va,
                    *layout,
                ),
            forall|va: int| v0 <= va < vaddr.0 && va % 4096 == 0 ==> #[trigger] crate::addr::pt_index(va as usize) < index,
            forall|i: int| 0 <= i < old(mem).0.len() && !(pt.0 / 8 <= i < pt.0 / 8 + 512)
                ==> #[trigger] mem.0@[i] == old(mem).0@[i],
            idx0 == crate::addr::pt_index(v0),
            idx0 <= index,
            vaddr.0 == v0 + (index - idx0) * 4096,
            forall|j: int| 0 <= j < 512 && !(idx0 <= j < index) ==> #[trigger] mem.0@[pt.0 / 8 + j] == old(mem).0@[pt.0 / 8 + j],
        ensures
            vaddr.0 < lowmem_va_end.0 ==> vaddr.0 == v0 + (512 - idx0) * 4096,
            vaddr.0 <= v0 + (512 - idx0) * 4096,
            (vaddr.0 - v0) % 4096 == 0,
            forall|j: int| 0 <= j < 512 && !(idx0 <= j < idx0 + (vaddr.0 - v0) / 4096) ==> #[trigger] mem.0@[pt.0 / 8 + j] == old(mem).0@[pt.0 / 8 + j],
            v0 < vaddr.0,
            vaddr.0 % 4096 == 0,
            vaddr.0 <= lowmem_va_end.0 + 4095,
            mem.0.len() == old(mem).0.len(),
            forall|va: int|
                v0 <= va < vaddr.0 && va % 4096 == 0 ==> kernel_entry(
                    #[trigger] mem.0@[pt.0 / 8 + crate::addr::pt_index(va as usize)],
                    va,
                    *layout,
                ),
            forall|i: int| 0 <= i < old(mem).0.len() && !(pt.0 / 8 <= i < pt.0 / 8 + 512)
                ==> #[trigger] mem.0@[i] == old(mem).0@[i],
        decreases 512 - index,
    {
        let old_entry = PTEntry(mem.0[base + index]);
        let e = kernel_page_entry(old_entry, *vaddr, layout);
        let ghost before = mem.0@;
        let ghost cur = vaddr.0;
        mem.0.set(base + index, e.0);
        proof {
            assert forall|va: int|
                v0 <= va < cur + 4096 && va % 4096 == 0 implies kernel_entry(
                    #[trigger] mem.0@[pt.0 / 8 + crate::addr::pt_index(va as usize)],
                    va,
                    *layout,
                ) by {
                if va < cur {
                    assert(crate::addr::pt_index(va as usize) < index);
                    assert(mem.0@[pt.0 / 8 + crate::addr::pt_index(va as usize)]
                        == before[pt.0 / 8 + crate::addr::pt_index(va as usize)]);
                } else {
                    assert(va == cur);
                }
            }
        }
        vaddr.0 = vaddr.0 + 4096;
        proof {
            assert((vaddr.0 - v0) / 4096 == index + 1 - idx0 && (vaddr.0 - v0) % 4096 == 0) by (nonlinear_arith)
                requires
                    vaddr.0 == v0 + (index + 1 - idx0) * 4096,
                    idx0 <= index,
            ;
            assert forall|j: int| 0 <= j < 512 && !(idx0 <= j < index + 1) implies #[trigger] mem.0@[pt.0 / 8 + j]
                == old(mem).0@[pt.0 / 8 + j] by {
                assert(mem.0@[pt.0 / 8 + j] == before[pt.0 / 8 + j]);
            }
        }
        if vaddr.0 >= lowmem_va_end.0 || index == 511 {
            return;
        }
        proof {
            assert(crate::addr::pt_index(vaddr.0) == index + 1) by (nonlinear_arith)
                requires
                    vaddr.0 == cur + 4096,
                    index == (cur as int / 0x1000) % 512,
                    index < 511,
            {
                vstd::arithmetic::div_mod::lemma_div_plus_one(cur as int, 0x1000);
            }
            assert forall|va: int| v0 <= va < vaddr.0 && va % 4096 == 0 implies
                #[trigger] crate::addr::pt_index(va as usize) < index + 1 by {
                if va < cur {
                } else {
                    assert(va == cur);
                }
            }
        }
        index = index + 1;
    }
}

/// The 32-bit word at physical address `pa`, which must be 4-byte aligned;
/// `None` when it lies outside memory.
pub open spec fn u32_at(mem: Seq<u64>, pa: int) -> Option<u32> {
    match word_at(mem, pa - pa % 8) {
        Some(w) => if pa % 4 == 0 {
            Some((if pa % 8 == 0 { w & 0xffff_ffff } else { w >> 32 }) as u32)
        } else {
            None
        },
        None => None,
    }
}

/// The stack guard holds the magic word.
pub open spec fn stack_guard_intact(mem: Seq<u64>, layout: KernelLayout) -> bool {
    layout.stack_guard.0 >= lowmem_va_start() && u32_at(mem, layout.stack_guard.0 - lowmem_va_start())
        == Some(STACK_GUARD_MAGIC)
}

/// Whether the word at the stack guard is the magic value.
fn check_stack_guard(mem: &VmMemory, layout: &KernelLayout) -> (r: bool)
    ensures
        r == stack_guard_intact(mem.0@, *layout),
{
    if layout.stack_guard.0 < LOWMEM_VA_START {
        return false;
    }
    let pa: u64 = (layout.stack_guard.0 - LOWMEM_VA_START) as u64;
    if pa % 4 != 0 {
        return false;
    }
    match mem.read_u64(pa - pa % 8) {
        Some(w) => {
            let v: u32 = if pa % 8 == 0 { (w & 0xffff_ffff) as u32 } else { (w >> 32) as u32 };
            v == STACK_GUARD_MAGIC
        },
        None => false,
    }
}

/// The first page the bootstrap takes for new tables: the kernel image's
/// end, rounded up to a page.
pub open spec fn bump_start(layout: KernelLayout) -> int {
    crate::misc::aligned_up(layout.image_end.0 as int, 4096)
}

/// The number of page tables that map the window up to `end`.
pub open spec fn nr_tables(end: int) -> int {
    crate::misc::aligned_up(end - lowmem_va_start(), 0x20_0000) / 0x20_0000
}

/// The physical address of the page directory the bootstrap builds; page
/// table `t` follows it at `pd + (t + 1) * 4096`.
pub open spec fn new_pd(layout: KernelLayout) -> int {
    bump_start(layout) - lowmem_va_start()
}

/// The slot of the PML4 entry that covers the window.
pub open spec fn root_slot(root: u64) -> int {
    root + 8 * pml4_index(lowmem_va_start() as usize)
}

/// The slot of the PDPT entry that covers the window, in the PDPT that the
/// PML4 entry `e` references.
pub open spec fn window_pdpt_slot(e: u64) -> int {
    entry_addr(e) + 8 * pdpt_index(lowmem_va_start() as usize)
}

/// Word index `w` lies in the pages the bootstrap takes for the window up to
/// `end`.
pub open spec fn in_new_tables(layout: KernelLayout, end: int, w: int) -> bool {
    new_pd(layout) / 8 <= w < new_pd(layout) / 8 + 512 * (1 + nr_tables(end))
}

/// The new tables fit in memory and in the address space.
pub open spec fn new_tables_fit(mem: Seq<u64>, layout: KernelLayout, end: int) -> bool {
    &&& layout.image_end.0 >= lowmem_va_start()
    &&& new_pd(layout) / 8 + 512 * (1 + nr_tables(end)) <= mem.len()
    &&& bump_start(layout) + 4096 * (1 + nr_tables(end)) <= usize::MAX
    &&& new_pd(layout) + 4096 * (1 + nr_tables(end)) < 0x4000_0000_0000_0000
}

/// The entry `w` links a table at `a`: present, writable, not huge.
pub open spec fn table_link(w: u64, a: int) -> bool {
    entry_addr(w) == a && present(w) && writable(w) && !huge(w)
}

/// When the bootstrap owes success: the guard is intact, the PML4 entry of
/// the window is present, its PDPT entry lies in memory, the new tables fit,
/// and neither entry lies in the new tables or on the other.
pub open spec fn boot_ok(mem: Seq<u64>, root: u64, layout: KernelLayout, end: int) -> bool {
    &&& stack_guard_intact(mem, layout)
    &&& word_at(mem, root_slot(root)) matches Some(e) && present(e) && word_at(mem, window_pdpt_slot(e)) is Some
        && new_tables_fit(mem, layout, end) && !in_new_tables(layout, end, root_slot(root) / 8) && !in_new_tables(
        layout,
        end,
        window_pdpt_slot(e) / 8,
    ) && root_slot(root) != window_pdpt_slot(e)
}

/// Page `va` of the window, `end` and beyond excluded, has its entry in
/// page table `(va - start) / 2 MiB` at index `pt_index(va)`; every other word
/// of the new tables is zero.
pub open spec fn new_tables_zeroed(mem: Seq<u64>, layout: KernelLayout, end: int) -> bool {
    &&& forall|j: int| nr_tables(end) <= j < 512 ==> #[trigger] mem[new_pd(layout) / 8 + j] == 0
    &&& forall|t: int, j: int|
        0 <= t < nr_tables(end) && 0 <= j < 512 && lowmem_va_start() + (t * 512 + j) * 4096 >= end
            ==> #[trigger] mem[(new_pd(layout) + 4096 * (1 + t)) / 8 + j] == 0
}

/// Build the low-memory mapping, from the PML4 at `root`: every page of the
/// window up to `lowmem_va_end` gets mapped as the kernel wants it (see
/// `kernel_entry`). A new page directory and new page tables are taken,
/// zeroed, from the pages after the kernel image, and linked in place of the
/// window's PDPT entry; the first free address past them is returned. The
/// stack guard is checked before anything is written. The caller flushes
/// the TLB afterwards.
#[verifier::rlimit(100)]
pub fn setup_kernel_paging(
    mem: &mut VmMemory,
    root: PAddr,
    layout: &KernelLayout,
    lowmem_va_end: VAddr,
) -> (r: Result<VAddr, BootError>)
    requires
        lowmem_va_start() < lowmem_va_end.0 <= lowmem_va_start() + crate::addr::lowmem_size(),
    ensures
        final(mem).0.len() == old(mem).0.len(),
        (r == Err::<VAddr, BootError>(BootError::StackGuardCorrupted)) <==> !stack_guard_intact(
            old(mem).0@,
            *layout,
        ),
        (r == Err::<VAddr, BootError>(BootError::MissingPml4Entry)) <==> (stack_guard_intact(old(mem).0@, *layout)
            && pml4_absent(old(mem).0@, root.0, lowmem_va_start())),
        r is Ok <==> boot_ok(old(mem).0@, root.0, *layout, lowmem_va_end.0 as int),
        r is Err ==> *final(mem) == *old(mem),
        r matches Ok(h) ==> h.0 % 4096 == 0 && h.0 >= layout.image_end.0 && h.0 == bump_start(*layout) + 4096 * (1
            + nr_tables(lowmem_va_end.0 as int)),
        r is Ok ==> forall|va: int|
            lowmem_va_start() <= va < lowmem_va_end.0 && va % 4096 == 0 ==> kernel_mapped(
                final(mem).0@,
                root.0,
                va,
                *layout,
            ),
        r is Ok ==> new_tables_zeroed(final(mem).0@, *layout, lowmem_va_end.0 as int),
        r is Ok ==> forall|w: int|
            0 <= w < old(mem).0.len() && !in_new_tables(*layout, lowmem_va_end.0 as int, w) && w != window_pdpt_slot(
                old(mem).0@[root_slot(root.0) / 8],
            ) / 8 ==> #[trigger] final(mem).0@[w] == old(mem).0@[w],
{
    if !check_stack_guard(mem, layout) {
        return Err(BootError::StackGuardCorrupted);
    }
    let ghost m0 = mem.0@;
    let start = VAddr(LOWMEM_VA_START);
    let pml4e = match crate::paging::read_table_entry(mem, root.0, start.pml4e()) {
        Some(w) => PML4Entry(w),
        None => return Err(BootError::OutOfMemory),
    };
    if !pml4e.is_present() {
        return Err(BootError::MissingPml4Entry);
    }
    let pdpt = pml4e.addr();
    match crate::paging::read_table_entry(mem, pdpt.0, start.pdpte()) {
        Some(_) => {},
        None => return Err(BootError::OutOfMemory),
    }
    if layout.image_end.0 < LOWMEM_VA_START || layout.image_end.0 > usize::MAX - 4096 {
        return Err(BootError::OutOfMemory);
    }
    let bump64 = crate::misc::align_up(layout.image_end.0 as u64, 4096);
    let span: usize = lowmem_va_end.0 - LOWMEM_VA_START;
    let ntab64 = crate::misc::align_up(span as u64, 0x20_0000) / 0x20_0000;
    let pd_pa: u64 = bump64 - LOWMEM_VA_START as u64;
    let len = mem.0.len() as u64;
    proof {
        lemma_tables_count(0, lowmem_va_end.0 as int);
    }
    if pd_pa / 8 > len || 512 * (1 + ntab64) > len - pd_pa / 8 || bump64 > usize::MAX as u64 - 4096 * (1 + ntab64)
        || pd_pa >= 0x4000_0000_0000_0000 - 4096 * (1 + ntab64) {
        return Err(BootError::OutOfMemory);
    }
    let root_w: u64 = root.0 / 8;
    let pw: u64 = pml4e.0;
    assert(pw & 0x3fff_ffff_ffff_f000 <= 0x3fff_ffff_ffff_f000) by (bit_vector);
    let pdpt_w: u64 = (pdpt.0 + 8 * start.pdpte() as u64) / 8;
    let lo: u64 = pd_pa / 8;
    let hi: u64 = lo + 512 * (1 + ntab64);
    if (lo <= root_w && root_w < hi) || (lo <= pdpt_w && pdpt_w < hi) || root_w == pdpt_w {
        return Err(BootError::InconsistentTables);
    }
    proof {
        assert(boot_ok(m0, root.0, *layout, lowmem_va_end.0 as int));
    }
    let mut heap_addr = VAddr(bump64 as usize);
    let pd = take_table_page(mem, &mut heap_addr);
    let ghost m1 = mem.0@;
    let t = fill_page_tables(mem, pd, &mut heap_addr, lowmem_va_end, layout);
    proof {
        assert forall|w: int| 0 <= w < m0.len() && !(pd.0 / 8 <= w < pd.0 / 8 + 512 * (1 + t)) implies #[trigger]
            mem.0@[w] == m0[w] by {
            assert(mem.0@[w] == m1[w]);
        }
    }
    let mut pdpte = PDPTEntry(0);
    let a: u64 = pd.0;
    assert(a & !ENTRY_ADDR_MASK == 0) by (bit_vector)
        requires
            a % 4096 == 0,
            a < 0x4000_0000_0000_0000,
    ;
    pdpte.set_addr(pd);
    pdpte.set_present(true);
    pdpte.set_writable(true);
    let ghost filled = mem.0@;
    proof {
        lemma_tables_count(t as int, lowmem_va_end.0 as int);
    }
    crate::paging::write_table_entry(mem, pdpt.0, start.pdpte(), pdpte.0);
    proof {
        lemma_boot_walk(mem.0@, filled, m0, root.0, pdpte.0, pd.0 as int, t as int, lowmem_va_end.0 as int, *layout);
    }
    Ok(heap_addr)
}

/// Fill page table after page table, each taken zeroed at `heap_addr`,
/// for the window up to `lowmem_va_end`, and link each into the zeroed page
/// directory at `pd`; returns the number of page tables.
#[verifier::rlimit(100)]
fn fill_page_tables(
    mem: &mut VmMemory,
    pd: PAddr,
    heap_addr: &mut VAddr,
    lowmem_va_end: VAddr,
    layout: &KernelLayout,
) -> (t: usize)
    requires
        lowmem_va_start() < lowmem_va_end.0 <= lowmem_va_start() + crate::addr::lowmem_size(),
        pd.0 % 4096 == 0,
        old(heap_addr).0 == pd.0 + lowmem_va_start() + 4096,
        pd.0 / 8 + 512 * (1 + nr_tables(lowmem_va_end.0 as int)) <= old(mem).0.len(),
        pd.0 + 4096 * (1 + nr_tables(lowmem_va_end.0 as int)) + lowmem_va_start() <= usize::MAX,
        pd.0 + 4096 * (1 + nr_tables(lowmem_va_end.0 as int)) < 0x4000_0000_0000_0000,
        forall|j: int| 0 <= j < 512 ==> #[trigger] old(mem).0@[pd.0 / 8 + j] == 0,
    ensures
        t == nr_tables(lowmem_va_end.0 as int),
        final(heap_addr).0 == pd.0 + lowmem_va_start() + 4096 * (1 + t),
        final(mem).0.len() == old(mem).0.len(),
        forall|j: int| 0 <= j < t ==> table_link(#[trigger] final(mem).0@[pd.0 / 8 + j], pd.0 + 4096 * (1 + j)),
        forall|j: int| t <= j < 512 ==> #[trigger] final(mem).0@[pd.0 / 8 + j] == 0,
        forall|va: int|
            lowmem_va_start() <= va < lowmem_va_end.0 && va % 4096 == 0 ==> kernel_entry(
                #[trigger] final(mem).0@[(pd.0 + 4096 * (1 + (va - lowmem_va_start()) / 0x20_0000)) / 8
                    + crate::addr::pt_index(va as usize)],
                va,
                *layout,
            ),
        forall|tt: int, j: int|
            0 <= tt < t && 0 <= j < 512 && lowmem_va_start() + (tt * 512 + j) * 4096 >= lowmem_va_end.0
                ==> #[trigger] final(mem).0@[(pd.0 + 4096 * (1 + tt)) / 8 + j] == 0,
        forall|w: int|
            0 <= w < old(mem).0.len() && !(pd.0 / 8 <= w < pd.0 / 8 + 512 * (1 + t)) ==> #[trigger] final(mem).0@[w]
                == old(mem).0@[w],
{
    let ghost m0 = mem.0@;
    let span: usize = lowmem_va_end.0 - LOWMEM_VA_START;
    let ntab: usize = (crate::misc::align_up(span as u64, 0x20_0000) / 0x20_0000) as usize;
    let mut vaddr = VAddr(LOWMEM_VA_START);
    let mut t: usize = 0;
    proof {
        lemma_tables_count(0, lowmem_va_end.0 as int);
    }
    while vaddr.0 < lowmem_va_end.0
        invariant
            0 <= t <= ntab,
            ntab == nr_tables(lowmem_va_end.0 as int),
            pd.0 / 8 + 512 * (1 + ntab) <= mem.0.len(),
            pd.0 + 4096 * (1 + ntab) + lowmem_va_start() <= usize::MAX,
            pd.0 + 4096 * (1 + ntab) < 0x4000_0000_0000_0000,
            pd.0 % 4096 == 0,
            mem.0.len() == m0.len(),
            lowmem_va_start() < lowmem_va_end.0 <= lowmem_va_start() + crate::addr::lowmem_size(),
            heap_addr.0 == pd.0 + lowmem_va_start() + 4096 * (1 + t),
            vaddr.0 == lowmem_va_start() + t * 0x20_0000 || (vaddr.0 >= lowmem_va_end.0 && t > 0),
            vaddr.0 <= lowmem_va_start() + t * 0x20_0000,
            t > 0 ==> lowmem_va_start() + (t - 1) * 0x20_0000 < lowmem_va_end.0,
            vaddr.0 % 4096 == 0,
            forall|j: int| 0 <= j < t ==> table_link(#[trigger] mem.0@[pd.0 / 8 + j], pd.0 + 4096 * (1 + j)),
            forall|j: int| t <= j < 512 ==> #[trigger] mem.0@[pd.0 / 8 + j] == 0,
            forall|va: int|
                lowmem_va_start() <= va < vaddr.0 && va % 4096 == 0 ==> kernel_entry(
                    #[trigger] mem.0@[(pd.0 + 4096 * (1 + (va - lowmem_va_start()) / 0x20_0000)) / 8
                        + crate::addr::pt_index(va as usize)],
                    va,
                    *layout,
                ),
            forall|tt: int, j: int|
                0 <= tt < t && 0 <= j < 512 && lowmem_va_start() + (tt * 512 + j) * 4096 >= lowmem_va_end.0
                    ==> #[trigger] mem.0@[(pd.0 + 4096 * (1 + tt)) / 8 + j] == 0,
            forall|w: int|
                0 <= w < m0.len() && !(pd.0 / 8 <= w < pd.0 / 8 + 512 * (1 + t)) ==> #[trigger] mem.0@[w] == m0[w],
        decreases ntab - t,
    {
        proof {
            lemma_tables_count(t as int, lowmem_va_end.0 as int);
            assert(pd.0 + 4096 * (1 + t) + 4096 <= mem.0.len() * 8) by (nonlinear_arith)
                requires
                    pd.0 / 8 + 512 * (1 + ntab) <= mem.0.len(),
                    pd.0 % 4096 == 0,
                    t < ntab,
            ;
            assert(pd.0 + 4096 * (1 + t) + 4096 <= pd.0 + 4096 * (1 + ntab)) by (nonlinear_arith)
                requires
                    t < ntab,
            ;
        }
        let ghost prev = mem.0@;
        let pt = take_table_page(mem, heap_addr);
        assert(pt.0 == pd.0 + 4096 * (1 + t));
        let ghost before = mem.0@;
        let ghost v0 = vaddr.0;
        walk_pt(mem, pt, &mut vaddr, lowmem_va_end, layout);
        let ghost walked = mem.0@;
        let link: u64 = pt.0 | 0b11;
        proof {
            lemma_link_word(pt.0, link);
        }
        mem.write_u64(pd.0 + 8 * t as u64, link);
        proof {
            let ptw = pt.0 / 8;
            let pdw = pd.0 / 8;
            assert((pd.0 + 8 * t) / 8 == pdw + t);
            assert(mem.0@ == walked.update(pdw + t, link));
            // Page-directory words.
            assert forall|j: int| 0 <= j < t + 1 implies table_link(#[trigger] mem.0@[pdw + j], pd.0 + 4096 * (1 + j)) by {
                if j < t {
                    assert(mem.0@[pdw + j] == prev[pdw + j]);
                }
            }
            assert forall|j: int| t + 1 <= j < 512 implies #[trigger] mem.0@[pdw + j] == 0 by {
                assert(mem.0@[pdw + j] == prev[pdw + j]);
            }
            // Leaf entries.
            assert forall|va: int|
                lowmem_va_start() <= va < vaddr.0 && va % 4096 == 0 implies kernel_entry(
                    #[trigger] mem.0@[(pd.0 + 4096 * (1 + (va - lowmem_va_start()) / 0x20_0000)) / 8
                        + crate::addr::pt_index(va as usize)],
                    va,
                    *layout,
                ) by {
                lemma_window_index(va);
                let tv = (va - lowmem_va_start()) / 0x20_0000;
                let w = (pd.0 + 4096 * (1 + tv)) / 8 + crate::addr::pt_index(va as usize);
                if va < v0 {
                    assert(tv < t) by (nonlinear_arith)
                        requires
                            va < v0,
                            v0 == lowmem_va_start() + t * 0x20_0000,
                            va >= lowmem_va_start(),
                            tv == (va - lowmem_va_start()) / 0x20_0000,
                    ;
                    assert(mem.0@[w] == prev[w]);
                } else {
                    assert(tv == t) by (nonlinear_arith)
                        requires
                            va >= v0,
                            va < v0 + 0x20_0000,
                            v0 == lowmem_va_start() + t * 0x20_0000,
                            tv == (va - lowmem_va_start()) / 0x20_0000,
                    ;
                    assert(mem.0@[w] == walked[w]);
                }
            }
            // Unused words of the page tables.
            assert forall|tt: int, j: int|
                0 <= tt < t + 1 && 0 <= j < 512 && lowmem_va_start() + (tt * 512 + j) * 4096 >= lowmem_va_end.0
                    implies #[trigger] mem.0@[(pd.0 + 4096 * (1 + tt)) / 8 + j] == 0 by {
                let w = (pd.0 + 4096 * (1 + tt)) / 8 + j;
                if tt < t {
                    assert(mem.0@[w] == prev[w]);
                } else {
                    assert(w == ptw + j);
                    assert(j >= (vaddr.0 - v0) / 4096) by (nonlinear_arith)
                        requires
                            v0 == lowmem_va_start() + t * 0x20_0000,
                            lowmem_va_start() + (t * 512 + j) * 4096 >= lowmem_va_end.0,
                            vaddr.0 <= lowmem_va_end.0 + 4095,
                            vaddr.0 % 4096 == 0,
                            v0 % 4096 == 0,
                            vaddr.0 > v0,
                    ;
                    assert(crate::addr::pt_index(v0 as usize) == 0);
                    assert(mem.0@[w] == before[w]);
                }
            }
            assert forall|w: int|
                0 <= w < m0.len() && !(pd.0 / 8 <= w < pd.0 / 8 + 512 * (1 + t + 1)) implies #[trigger] mem.0@[w] == m0[w] by {
                assert(mem.0@[w] == prev[w]);
            }
        }
        t = t + 1;
    }
    proof {
        lemma_tables_count(t as int, lowmem_va_end.0 as int);
    }
    t
}

/// After the PDPT entry of the window is linked to the filled directory at
/// `pd`, every page of the window resolves as the kernel wants, and the new
/// tables are zeroed but for their entries.
proof fn lemma_boot_walk(
    m: Seq<u64>,
    filled: Seq<u64>,
    m0: Seq<u64>,
    root: u64,
    pdptw: u64,
    pd: int,
    t: int,
    end: int,
    layout: KernelLayout,
)
    requires
        lowmem_va_start() < end <= lowmem_va_start() + crate::addr::lowmem_size(),
        t == nr_tables(end),
        pd == new_pd(layout),
        pd % 4096 == 0,
        pd / 8 + 512 * (1 + t) <= m0.len(),
        filled.len() == m0.len(),
        word_at(m0, root_slot(root)) matches Some(e) && present(e) && word_at(m0, window_pdpt_slot(e)) is Some
            && !in_new_tables(layout, end, root_slot(root) / 8) && !in_new_tables(layout, end, window_pdpt_slot(e) / 8)
            && root_slot(root) != window_pdpt_slot(e) && m == filled.update(window_pdpt_slot(e) / 8, pdptw),
        entry_addr(pdptw) == pd,
        present(pdptw),
        forall|w: int| 0 <= w < m0.len() && !(pd / 8 <= w < pd / 8 + 512 * (1 + t)) ==> #[trigger] filled[w] == m0[w],
        forall|j: int| 0 <= j < t ==> table_link(#[trigger] filled[pd / 8 + j], pd + 4096 * (1 + j)),
        forall|j: int| t <= j < 512 ==> #[trigger] filled[pd / 8 + j] == 0,
        forall|va: int|
            lowmem_va_start() <= va < end && va % 4096 == 0 ==> kernel_entry(
                #[trigger] filled[(pd + 4096 * (1 + (va - lowmem_va_start()) / 0x20_0000)) / 8 + crate::addr::pt_index(
                    va as usize,
                )],
                va,
                layout,
            ),
        forall|tt: int, j: int|
            0 <= tt < t && 0 <= j < 512 && lowmem_va_start() + (tt * 512 + j) * 4096 >= end ==> #[trigger] filled[(pd
                + 4096 * (1 + tt)) / 8 + j] == 0,
    ensures
        forall|va: int| lowmem_va_start() <= va < end && va % 4096 == 0 ==> kernel_mapped(m, root, va, layout),
        new_tables_zeroed(m, layout, end),
{
    let e = m0[root_slot(root) / 8];
    let ps = window_pdpt_slot(e);
    lemma_tables_count(t, end);
    assert forall|va: int| lowmem_va_start() <= va < end && va % 4096 == 0 implies kernel_mapped(m, root, va, layout) by {
        lemma_window_index(va);
        let tv = (va - lowmem_va_start()) / 0x20_0000;
        assert(tv < t) by (nonlinear_arith)
            requires
                va < end,
                end <= lowmem_va_start() + t * 0x20_0000,
                va >= lowmem_va_start(),
                tv == (va - lowmem_va_start()) / 0x20_0000,
        ;
        let pdslot = pd + 8 * tv;
        assert(pdslot / 8 == pd / 8 + tv);
        let pt = pd + 4096 * (1 + tv);
        let ptslot = pt + 8 * crate::addr::pt_index(va as usize);
        assert(ptslot / 8 == pt / 8 + crate::addr::pt_index(va as usize));
        assert(pt / 8 + crate::addr::pt_index(va as usize) < pd / 8 + 512 * (1 + t)) by (nonlinear_arith)
            requires
                pt == pd + 4096 * (1 + tv),
                tv < t,
                0 <= crate::addr::pt_index(va as usize) < 512,
                pd % 4096 == 0,
        ;
        assert(word_at(m, root_slot(root)) == Some(e));
        assert(word_at(m, ps) == Some(pdptw));
        assert(word_at(m, pdslot) == Some(filled[pd / 8 + tv]));
        assert(word_at(m, ptslot) == Some(filled[ptslot / 8]));
    }
    assert forall|j: int| nr_tables(end) <= j < 512 implies #[trigger] m[new_pd(layout) / 8 + j] == 0 by {
        assert(m[pd / 8 + j] == filled[pd / 8 + j]);
    }
    assert forall|tt: int, j: int|
        0 <= tt < nr_tables(end) && 0 <= j < 512 && lowmem_va_start() + (tt * 512 + j) * 4096 >= end
            implies #[trigger] m[(new_pd(layout) + 4096 * (1 + tt)) / 8 + j] == 0 by {
        assert((pd + 4096 * (1 + tt)) / 8 + j < pd / 8 + 512 * (1 + t)) by (nonlinear_arith)
            requires
                tt < t,
                0 <= j < 512,
                pd % 4096 == 0,
        ;
        assert(m[(pd + 4096 * (1 + tt)) / 8 + j] == filled[(pd + 4096 * (1 + tt)) / 8 + j]);
    }
}

/// Page `va` resolves to a page-table entry that maps it as the kernel wants.
pub open spec fn kernel_mapped(mem: Seq<u64>, root: u64, va: int, layout: KernelLayout) -> bool {
    locate(mem, root, va as usize) matches Some(AnyEntry::PTEntry(e)) && kernel_entry(e.0, va, layout)
}

/// The PML4 entry for `va` is absent.
pub open spec fn pml4_absent(mem: Seq<u64>, root: u64, va: int) -> bool {
    word_at(mem, root + 8 * pml4_index(va as usize)) matches Some(e) && !present(e)
}

/// The window's pages share one PML4 entry and one PDPT entry; page `va`
/// lies in page table `(va - start) / 2 MiB`.
proof fn lemma_window_index(va: int)
    requires
        lowmem_va_start() <= va < lowmem_va_start() + crate::addr::lowmem_size(),
    ensures
        pml4_index(va as usize) == pml4_index(lowmem_va_start() as usize),
        pml4_index(va as usize) == 0,
        pdpt_index(va as usize) == pdpt_index(lowmem_va_start() as usize),
        pdpt_index(va as usize) == 3,
        crate::addr::pd_index(va as usize) == (va - lowmem_va_start()) / 0x20_0000,
        (va - lowmem_va_start()) / 0x20_0000 < 448,
{
    let d = va - lowmem_va_start();
    assert(va / 0x80_0000_0000 == 0);
    assert(va / 0x4000_0000 == 3) by (nonlinear_arith)
        requires
            va == 0xc000_0000 + d,
            0 <= d < 0x3800_0000,
    ;
    assert(va / 0x20_0000 == 0x600 + d / 0x20_0000) by (nonlinear_arith)
        requires
            va == 0xc000_0000 + d,
            0 <= d,
    ;
    assert(d / 0x20_0000 < 448) by (nonlinear_arith)
        requires
            0 <= d < 0x3800_0000,
    ;
}

/// The loop takes one page table per 2 MiB of the window.
proof fn lemma_tables_count(t: int, end: int)
    requires
        0 <= t,
        lowmem_va_start() < end <= lowmem_va_start() + crate::addr::lowmem_size(),
    ensures
        lowmem_va_start() + t * 0x20_0000 < end ==> t < nr_tables(end),
        (t > 0 ==> lowmem_va_start() + (t - 1) * 0x20_0000 < end) && end <= lowmem_va_start() + t * 0x20_0000
            ==> t == nr_tables(end),
        nr_tables(end) <= 448,
{
    let span = end - lowmem_va_start();
    let n = nr_tables(end);
    assert(n * 0x20_0000 >= span && (n - 1) * 0x20_0000 < span && n <= 448) by (nonlinear_arith)
        requires
            span > 0,
            span <= 0x3800_0000,
            n == crate::misc::aligned_up(span, 0x20_0000) / 0x20_0000,
    {
        vstd::arithmetic::div_mod::lemma_fundamental_div_mod(span, 0x20_0000);
    }
    if lowmem_va_start() + t * 0x20_0000 < end {
        assert(t < n) by (nonlinear_arith)
            requires
                t * 0x20_0000 < span,
                n * 0x20_0000 >= span,
        ;
    }
    if (t > 0 ==> lowmem_va_start() + (t - 1) * 0x20_0000 < end) && end <= lowmem_va_start() + t * 0x20_0000 {
        assert(t == n) by (nonlinear_arith)
            requires
                t > 0 ==> (t - 1) * 0x20_0000 < span,
                span <= t * 0x20_0000,
                n * 0x20_0000 >= span,
                (n - 1) * 0x20_0000 < span,
                span > 0,
        ;
    }
}

/// `pt | 3` links the table at `pt`.
proof fn lemma_link_word(pt: u64, link: u64)
    requires
        pt % 4096 == 0,
        pt < 0x4000_0000_0000_0000,
        link == pt | 0b11,
    ensures
        table_link(link, pt as int),
{
    assert(link & 0x3fff_ffff_ffff_f000 == pt && (link >> 0u64) & 1 == 1 && (link >> 1u64) & 1 == 1
        && (link >> 7u64) & 1 == 0) by (bit_vector)
        requires
            pt % 4096 == 0,
            pt < 0x4000_0000_0000_0000,
            link == pt | 0b11,
    ;
}

} // verus!
