//! The high-memory virtual-address allocator and the guard that gives a
//! high-memory mapping back when it is released.

use vstd::prelude::*;

use crate::addr::{pml4_index, PAddr, VAddr, PAGE_SIZE, LOWMEM_VA_START, is_highmem_pa, lowmem_va_start};
use crate::paging::{
    entry_addr, executable, lemma_walk_frame, locate, pd_slot, pdpt_slot, writable, leaf_free_and_apart,
    clear_present_at, locate_page_entry, locate_pt_slot, map_highmem_vaddr, mapped_by_pte, maps_rw, present, pt_slot,
    AnyEntry, ENTRY_ADDR_MASK,
};
use crate::frame::FrameAllocator;
use crate::vm::{word_at, VmMemory};

verus! {

/// The pages `start` to `start + n - 1` all exist and are unreserved.
pub open spec fn clear_run(s: Seq<bool>, start: int, n: int) -> bool {
    0 <= start && start + n <= s.len() && forall|k: int| start <= k < start + n ==> !#[trigger] s[k]
}

/// No run of `n` unreserved pages starts before `start`.
pub open spec fn no_earlier_clear_run(s: Seq<bool>, start: int, n: int) -> bool {
    forall|j: int| 0 <= j < start ==> !#[trigger] clear_run(s, j, n)
}

/// `s` with the bits `start` to `start + n - 1` set to `v`.
pub open spec fn set_bits(s: Seq<bool>, start: int, n: int, v: bool) -> Seq<bool> {
    Seq::new(s.len(), |k: int| if start <= k < start + n { v } else { s[k] })
}

/// Reserves contiguous virtual pages of the high-memory window. Bit `i` of
/// the bitmap is set when page `start + i * 4096` is reserved. No mapping is
/// made here: the caller installs the page-table entries.
pub struct HighmemAllocator {
    start: VAddr,
    nr_pages: usize,
    allocated: Vec<bool>,
}

impl View for HighmemAllocator {
    type V = Seq<bool>;

    closed spec fn view(&self) -> Seq<bool> {
        self.allocated@
    }
}

impl HighmemAllocator {
    /// The first virtual address of the window.
    pub closed spec fn start_va(&self) -> int {
        self.start.0 as int
    }

    pub closed spec fn wf(&self) -> bool {
        &&& self.allocated.len() == self.nr_pages
        &&& self.start.0 + self.nr_pages * 4096 <= usize::MAX
        &&& self.start.0 % 4096 == 0
    }

    /// An allocator for the `nr_pages` pages from `start` on, with `buffer`
    /// as its bitmap.
    pub fn new(start: VAddr, nr_pages: usize, buffer: Vec<bool>) -> (r: HighmemAllocator)
        requires
            buffer.len() == nr_pages,
            start.0 % 4096 == 0,
            start.0 + nr_pages * 4096 <= usize::MAX,
        ensures
            r.wf(),
            r@ == buffer@,
            r.start_va() == start.0,
    {
        HighmemAllocator { start, nr_pages, allocated: buffer }
    }

    /// Reserve `nr_pages` contiguous pages, first fit, and return the virtual
    /// address of the first one; `None` when no such run is unreserved.
    pub fn allocate(&mut self, nr_pages: usize) -> (r: Option<VAddr>)
        requires
            old(self).wf(),
        ensures
            final(self).wf(),
            final(self).start_va() == old(self).start_va(),
            r matches Some(va) ==> {
                let i = (va.0 - old(self).start_va()) / 4096;
                &&& nr_pages > 0
                &&& va.0 >= old(self).start_va()
                &&& (va.0 - old(self).start_va()) % 4096 == 0
                &&& va.0 % 4096 == 0
                &&& va.0 + nr_pages * 4096 <= usize::MAX
                &&& clear_run(old(self)@, i, nr_pages as int)
                &&& no_earlier_clear_run(old(self)@, i, nr_pages as int)
                &&& final(self)@ == set_bits(old(self)@, i, nr_pages as int, true)
            },
            r is None ==> final(self)@ == old(self)@ && (nr_pages == 0 || forall|j: int|
                !#[trigger] clear_run(old(self)@, j, nr_pages as int)),
    {
        let ghost s = self@;
        let n = nr_pages;
        let len = self.allocated.len();
        let mut nr_free: usize = 0;
        let mut i: usize = 0;
        while i < len
            invariant
                s == self.allocated@,
                s == old(self)@,
                self.wf(),
                self.start == old(self).start,
                self.nr_pages == old(self).nr_pages,
                n == nr_pages,
                len == self.allocated.len(),
                i <= len,
                nr_free <= i,
                n == 0 || nr_free < n,
                forall|k: int| i - nr_free <= k < i ==> !#[trigger] s[k],
                i - nr_free > 0 ==> s[i - nr_free - 1],
                n > 0 ==> forall|j: int| 0 <= j && j + n <= i ==> !#[trigger] clear_run(s, j, n as int),
            decreases len - i,
        {
            if !self.allocated[i] {
                let ghost old_free = nr_free;
                nr_free = nr_free + 1;
                if nr_free == n {
                    let first = i + 1 - n;
                    proof {
                        assert(clear_run(s, first as int, n as int));
                        assert forall|j: int| 0 <= j < first implies !#[trigger] clear_run(s, j, n as int) by {
                            assert(j + n <= i);
                        }
                    }
                    let mut k: usize = first;
                    while k < first + n
                        invariant
                            first + n <= self.allocated.len(),
                            self.allocated.len() == s.len(),
                            s == old(self)@,
                            n == nr_pages,
                            self.wf(),
                            self.start == old(self).start,
                            self.nr_pages == old(self).nr_pages,
                            first <= k <= first + n,
                            self.allocated@ == set_bits(s, first as int, k - first, true),
                        decreases first + n - k,
                    {
                        self.allocated.set(k, true);
                        proof {
                            assert(self.allocated@ =~= set_bits(s, first as int, k + 1 - first, true));
                        }
                        k = k + 1;
                    }
                    assert(first * 4096 <= self.nr_pages * 4096) by (nonlinear_arith)
                        requires
                            first <= self.nr_pages,
                    ;
                    let va = VAddr(self.start.0 + first * PAGE_SIZE);
                    proof {
                        assert((va.0 - self.start.0) / 4096 == first) by (nonlinear_arith)
                            requires
                                va.0 == self.start.0 + first * 4096,
                        ;
                        assert((va.0 - self.start.0) % 4096 == 0) by (nonlinear_arith)
                            requires
                                va.0 == self.start.0 + first * 4096,
                        ;
                        assert(va.0 % 4096 == 0) by (nonlinear_arith)
                            requires
                                va.0 == self.start.0 + first * 4096,
                                self.start.0 % 4096 == 0,
                        ;
                        assert(va.0 + n * 4096 <= self.start.0 + self.nr_pages * 4096) by (nonlinear_arith)
                            requires
                                va.0 == self.start.0 + first * 4096,
                                first + n <= self.nr_pages,
                        ;
                    }
                    return Some(va);
                }
                proof {
                    if n > 0 {
                        assert forall|j: int| 0 <= j && j + n <= i + 1 implies !#[trigger] clear_run(s, j, n as int) by {
                            if j + n == i + 1 {
                                let h = i - old_free - 1;
                                assert(s[h]);
                                assert(j <= h < j + n);
                            } else {
                                assert(j + n <= i);
                            }
                        }
                    }
                }
            } else {
                proof {
                    if n > 0 {
                        assert forall|j: int| 0 <= j && j + n <= i + 1 implies !#[trigger] clear_run(s, j, n as int) by {
                            if j + n == i + 1 {
                                assert(s[i as int]);
                                assert(j <= i < j + n);
                            } else {
                                assert(j + n <= i);
                            }
                        }
                    }
                }
                nr_free = 0;
            }
            i = i + 1;
        }
        proof {
            if n > 0 {
                assert forall|j: int| !#[trigger] clear_run(s, j, n as int) by {
                    if 0 <= j && j + n <= len {
                        assert(j + n <= i);
                    }
                }
            }
        }
        None
    }

    /// Give back the `nr_pages` pages from `vaddr` on, all of which must be
    /// reserved and lie in the window.
    pub fn free(&mut self, vaddr: VAddr, nr_pages: usize)
        requires
            old(self).wf(),
            vaddr.0 % 4096 == 0,
            vaddr.0 >= old(self).start_va(),
            (vaddr.0 - old(self).start_va()) / 4096 + nr_pages <= old(self)@.len(),
            forall|k: int|
                (vaddr.0 - old(self).start_va()) / 4096 <= k < (vaddr.0 - old(self).start_va()) / 4096
                    + nr_pages ==> #[trigger] old(self)@[k],
        ensures
            final(self).wf(),
            final(self).start_va() == old(self).start_va(),
            final(self)@ == set_bits(
                old(self)@,
                (vaddr.0 - old(self).start_va()) / 4096,
                nr_pages as int,
                false,
            ),
    {
        let ghost s = self@;
        let first = self.vaddr_to_index(vaddr);
        let mut k: usize = first;
        while k < first + nr_pages
            invariant
                first + nr_pages <= self.allocated.len(),
                self.allocated.len() == s.len(),
                self.wf(),
                self.start == old(self).start,
                first <= k <= first + nr_pages,
                self.allocated@ == set_bits(s, first as int, k - first, false),
            decreases first + nr_pages - k,
        {
            self.allocated.set(k, false);
            proof {
                assert(self.allocated@ =~= set_bits(s, first as int, k + 1 - first, false));
            }
            k = k + 1;
        }
    }

    fn vaddr_to_index(&self, vaddr: VAddr) -> (r: usize)
        requires
            self.wf(),
            vaddr.0 % 4096 == 0,
            vaddr.0 >= self.start_va(),
            (vaddr.0 - self.start_va()) / 4096 <= self.nr_pages,
        ensures
            r == (vaddr.0 - self.start_va()) / 4096,
            r <= self.nr_pages,
    {
        (vaddr.0 - self.start.0) / PAGE_SIZE
    }
}

/// A virtual address handed out by the memory manager: either a low-memory
/// address, which needs no cleanup, or the first of `nr_pages` high-memory
/// pages that are mapped for the holder and must be given back.
pub struct HighmemGuard {
    addr: VAddr,
    nr_highmem_pages: usize,
}

/// The slot of the page-table entry that maps page `i` of the area at `addr`.
pub open spec fn page_slot(mem: Seq<u64>, root: u64, addr: VAddr, i: int) -> int {
    pt_slot(mem, root, (addr.0 + i * 4096) as usize)->0
}

impl HighmemGuard {
    pub closed spec fn vaddr(&self) -> VAddr {
        self.addr
    }

    /// The number of high-memory pages held; 0 for a low-memory address.
    pub closed spec fn nr_pages(&self) -> nat {
        self.nr_highmem_pages as nat
    }

    /// A guard over `nr_pages` high-memory pages from `addr` on, which the
    /// caller has reserved and mapped.
    pub fn new_allocated_highmem(addr: VAddr, nr_pages: usize) -> (r: Self)
        ensures
            r.vaddr() == addr,
            r.nr_pages() == nr_pages,
    {
        Self { addr, nr_highmem_pages: nr_pages }
    }

    /// A guard over a low-memory address.
    pub fn new_lowmem(addr: VAddr) -> (r: Self)
        ensures
            r.vaddr() == addr,
            r.nr_pages() == 0,
    {
        Self { addr, nr_highmem_pages: 0 }
    }

    /// The low-memory address held; the guard must hold one.
    pub fn unwrap_lowmem(self) -> (r: VAddr)
        requires
            self.nr_pages() == 0,
        ensures
            r == self.vaddr(),
    {
        self.addr
    }

    pub fn is_highmem(&self) -> (r: bool)
        ensures
            r == (self.nr_pages() > 0),
    {
        self.nr_highmem_pages > 0
    }

    pub fn is_lowmem(&self) -> (r: bool)
        ensures
            r == (self.nr_pages() == 0),
    {
        !self.is_highmem()
    }

    /// Give up the guard without releasing anything and return the address.
    pub fn leak(self) -> (r: VAddr)
        ensures
            r == self.vaddr(),
    {
        self.addr
    }

    /// The address held.
    pub fn addr(&self) -> (r: VAddr)
        ensures
            r == self.vaddr(),
    {
        self.addr
    }

    /// The guard's high-memory pages are reserved in `allocator` and mapped
    /// through the page tables at `root`.
    pub open spec fn releasable(&self, mem: Seq<u64>, root: u64, allocator: HighmemAllocator) -> bool {
        let first = (self.vaddr().0 - allocator.start_va()) / 4096;
        &&& allocator.wf()
        &&& self.vaddr().0 % 4096 == 0
        &&& self.vaddr().0 >= allocator.start_va()
        &&& self.vaddr().0 + self.nr_pages() * 4096 <= usize::MAX
        &&& first + self.nr_pages() <= allocator@.len()
        &&& forall|k: int| first <= k < first + self.nr_pages() ==> #[trigger] allocator@[k]
        &&& forall|i: int| 0 <= i < self.nr_pages()
            ==> #[trigger] mapped_by_pte(mem, root, (self.vaddr().0 + i * 4096) as usize)
    }

    /// Release the guard. For high memory, the page-table entry of every page
    /// loses its present bit and the pages are given back to `allocator`; for
    /// low memory nothing happens.
    pub fn release(self, mem: &mut VmMemory, root: PAddr, allocator: &mut HighmemAllocator)
        requires
            self.nr_pages() > 0 ==> self.releasable(old(mem).0@, root.0, *old(allocator)),
        ensures
            self.nr_pages() == 0 ==> *final(mem) == *old(mem) && *final(allocator) == *old(allocator),
            self.nr_pages() > 0 ==> {
                &&& final(allocator).wf()
                &&& final(allocator).start_va() == old(allocator).start_va()
                &&& final(allocator)@ == set_bits(
                    old(allocator)@,
                    (self.vaddr().0 - old(allocator).start_va()) / 4096,
                    self.nr_pages() as int,
                    false,
                )
                &&& final(mem).0.len() == old(mem).0.len()
                &&& forall|i: int| 0 <= i < self.nr_pages() ==> !present(
                    #[trigger] final(mem).0@[page_slot(old(mem).0@, root.0, self.vaddr(), i) / 8],
                )
                &&& forall|w: int| 0 <= w < old(mem).0.len() && (forall|i: int| 0 <= i < self.nr_pages()
                    ==> page_slot(old(mem).0@, root.0, self.vaddr(), i) / 8 != w)
                    ==> #[trigger] final(mem).0@[w] == old(mem).0@[w]
            },
    {
        if self.is_lowmem() {
            return;
        }
        let n = self.nr_highmem_pages;
        let ghost m0 = mem.0@;
        let mut slots: Vec<u64> = Vec::new();
        let mut i: usize = 0;
        while i < n
            invariant
                n == self.nr_pages(),
                i <= n,
                mem.0@ == m0,
                self.releasable(m0, root.0, *old(allocator)),
                slots.len() == i,
                forall|k: int| 0 <= k < i ==> slots@[k] as int == #[trigger] page_slot(m0, root.0, self.vaddr(), k),
                forall|k: int| 0 <= k < i ==> (#[trigger] slots@[k]) as int / 8 < m0.len(),
            decreases n - i,
        {
            assert(i * 4096 <= n * 4096) by (nonlinear_arith)
                requires
                    i <= n,
            ;
            let va = VAddr(self.addr.0 + i * PAGE_SIZE);
            assert(mapped_by_pte(m0, root.0, (self.vaddr().0 + i * 4096) as usize));
            match locate_pt_slot(mem, root, va) {
                Some(slot) => slots.push(slot),
                None => {
                    proof {
                        assert(false);
                    }
                },
            }
            i = i + 1;
        }
        let mut j: usize = 0;
        while j < n
            invariant
                n == self.nr_pages(),
                j <= n,
                slots.len() == n,
                mem.0.len() == m0.len(),
                self.releasable(m0, root.0, *old(allocator)),
                forall|k: int| 0 <= k < n ==> slots@[k] as int == #[trigger] page_slot(m0, root.0, self.vaddr(), k),
                forall|k: int| 0 <= k < n ==> (#[trigger] slots@[k]) as int / 8 < m0.len(),
                forall|k: int| 0 <= k < j ==> !present(#[trigger] mem.0@[slots@[k] as int / 8]),
                forall|w: int| 0 <= w < m0.len() && (forall|k: int| 0 <= k < j ==> slots@[k] as int / 8 != w)
                    ==> #[trigger] mem.0@[w] == m0[w],
            decreases n - j,
        {
            let slot = slots[j];
            proof {
                let va = (self.vaddr().0 + j * 4096) as usize;
                assert(mapped_by_pte(m0, root.0, va));
                assert(page_slot(m0, root.0, self.vaddr(), j as int) == slots@[j as int] as int);
            }
            let ghost before = mem.0@;
            clear_present_at(mem, slot);
            proof {
                assert forall|k: int| 0 <= k < j + 1 implies !present(#[trigger] mem.0@[slots@[k] as int / 8]) by {
                    if slots@[k] as int / 8 != slot as int / 8 {
                        assert(mem.0@[slots@[k] as int / 8] == before[slots@[k] as int / 8]);
                    }
                }
                assert forall|w: int| 0 <= w < m0.len() && (forall|k: int| 0 <= k < j + 1 ==> slots@[k] as int / 8 != w)
                    implies #[trigger] mem.0@[w] == m0[w] by {
                    assert(slots@[j as int] as int / 8 != w);
                }
            }
            j = j + 1;
        }
        proof {
            assert forall|w: int| 0 <= w < old(mem).0.len() && (forall|i: int| 0 <= i < self.nr_pages()
                ==> page_slot(old(mem).0@, root.0, self.vaddr(), i) / 8 != w)
                implies #[trigger] mem.0@[w] == old(mem).0@[w] by {
                assert forall|k: int| 0 <= k < n implies slots@[k] as int / 8 != w by {
                    assert(page_slot(old(mem).0@, root.0, self.vaddr(), k) / 8 != w);
                }
            }
            assert forall|i: int| 0 <= i < self.nr_pages() implies !present(
                #[trigger] mem.0@[page_slot(old(mem).0@, root.0, self.vaddr(), i) / 8]) by {
                assert(slots@[i] as int == page_slot(m0, root.0, self.vaddr(), i));
            }
        }
        allocator.free(self.addr, n);
    }
}

/// Reserving a clear run and clearing it again gives the bitmap back.
proof fn lemma_set_then_clear(s: Seq<bool>, i: int, n: int)
    requires
        clear_run(s, i, n),
    ensures
        set_bits(set_bits(s, i, n, true), i, n, false) == s,
{
    assert(set_bits(set_bits(s, i, n, true), i, n, false) =~= s);
}

/// The walk to `v` reads the same slots in `m` as in `m0`.
pub open spec fn same_walk(m: Seq<u64>, m0: Seq<u64>, root: u64, v: usize) -> bool {
    &&& pdpt_slot(m, root, v) == pdpt_slot(m0, root, v)
    &&& pd_slot(m, root, v) == pd_slot(m0, root, v)
    &&& pt_slot(m, root, v) == pt_slot(m0, root, v)
}

/// Page `i` of the area at `va`.
pub open spec fn page_of(va: VAddr, i: int) -> usize {
    (va.0 + i * 4096) as usize
}

/// The leaf slot of page `u` is none of the slots the walk to `v` reads.
pub open spec fn slots_apart(m: Seq<u64>, root: u64, u: usize, v: usize) -> bool {
    let l = pt_slot(m, root, u)->0;
    &&& l != pt_slot(m, root, v)->0
    &&& l != root + 8 * pml4_index(v)
    &&& l != pdpt_slot(m, root, v)->0
    &&& l != pd_slot(m, root, v)->0
}

/// Every one of the `n` pages from `va` on has its page table and a free
/// leaf, and no page's leaf slot is a slot that another page's walk reads.
pub open spec fn pages_free_apart(m: Seq<u64>, root: u64, va: VAddr, n: int) -> bool {
    &&& forall|i: int| 0 <= i < n ==> #[trigger] leaf_free_and_apart(m, root, page_of(va, i))
    &&& forall|i: int, j: int| 0 <= i < n && 0 <= j < n && i != j ==> #[trigger] slots_apart(
        m,
        root,
        page_of(va, i),
        page_of(va, j),
    )
}

/// Mapping page `i` (`mi` before, `m` after) keeps the walks of the other
/// pages, the free leaves after it and the mappings before it.
proof fn lemma_map_step(mi: Seq<u64>, m: Seq<u64>, m0: Seq<u64>, root: u64, va: VAddr, pa: PAddr, n: int, i: int)
    requires
        0 <= i < n,
        pages_free_apart(m0, root, va, n),
        forall|j: int| 0 <= j < n ==> #[trigger] same_walk(mi, m0, root, page_of(va, j)),
        forall|j: int| i <= j < n ==> #[trigger] leaf_free_and_apart(mi, root, page_of(va, j)),
        forall|j: int| 0 <= j < i ==> #[trigger] maps_rw(mi, root, (va.0 + j * 4096) as usize, (pa.0 + j * 4096) as u64),
        exists|w: u64|
            m == mi.update(pt_slot(mi, root, page_of(va, i))->0 / 8, w) && #[trigger] entry_addr(w) == (pa.0 + i * 4096) as u64
                && present(w) && writable(w) && !executable(w),
        maps_rw(m, root, page_of(va, i), (pa.0 + i * 4096) as u64),
    ensures
        forall|j: int| 0 <= j < n ==> #[trigger] same_walk(m, m0, root, page_of(va, j)),
        forall|j: int| i + 1 <= j < n ==> #[trigger] leaf_free_and_apart(m, root, page_of(va, j)),
        forall|j: int| 0 <= j < i + 1 ==> #[trigger] maps_rw(m, root, (va.0 + j * 4096) as usize, (pa.0 + j * 4096) as u64),
{
    let pi = page_of(va, i);
    assert(leaf_free_and_apart(mi, root, pi));
    let li = pt_slot(mi, root, pi)->0;
    assert(word_at(mi, li) is Some);
    let x = li / 8;
    assert(x * 8 == li);
    let w = choose|w: u64|
        m == mi.update(li / 8, w) && #[trigger] entry_addr(w) == (pa.0 + i * 4096) as u64 && present(w) && writable(w)
            && !executable(w);
    lemma_walk_frame(mi, x, w, root, pi);
    assert forall|j: int| 0 <= j < n && j != i implies {
        &&& same_walk(m, mi, root, page_of(va, j))
        &&& locate(m, root, page_of(va, j)) == locate(mi, root, page_of(va, j))
        &&& word_at(m, pt_slot(mi, root, page_of(va, j))->0) == word_at(mi, pt_slot(mi, root, page_of(va, j))->0)
    } by {
        assert(slots_apart(m0, root, pi, page_of(va, j)));
        assert(same_walk(mi, m0, root, page_of(va, j)));
        assert(same_walk(mi, m0, root, pi));
        assert(leaf_free_and_apart(m0, root, page_of(va, j)));
        lemma_walk_frame(mi, x, w, root, page_of(va, j));
    }
    assert forall|j: int| 0 <= j < n implies #[trigger] same_walk(m, m0, root, page_of(va, j)) by {
        assert(same_walk(mi, m0, root, page_of(va, j)));
    }
    assert forall|j: int| i + 1 <= j < n implies #[trigger] leaf_free_and_apart(m, root, page_of(va, j)) by {
        assert(leaf_free_and_apart(mi, root, page_of(va, j)));
    }
    assert forall|j: int| 0 <= j < i + 1 implies #[trigger] maps_rw(m, root, (va.0 + j * 4096) as usize, (pa.0 + j
        * 4096) as u64) by {
        assert(page_of(va, j) == (va.0 + j * 4096) as usize);
        if j < i {
            assert(maps_rw(mi, root, (va.0 + j * 4096) as usize, (pa.0 + j * 4096) as u64));
        }
    }
}

/// Map the `nr_pages` pages from `va` on to the frames from `pa` on, then
/// check each of them through the walker; `false` when a mapping fails or
/// a check does not hold.
fn map_pages(mem: &mut VmMemory, root: PAddr, frames: &mut FrameAllocator, va: VAddr, pa: PAddr, nr_pages: usize) -> (ok: bool)
    requires
        old(frames).wf(),
        va.0 + nr_pages * 4096 <= usize::MAX,
        pa.0 % 4096 == 0,
        pa.0 + nr_pages * 4096 <= 0x4000_0000_0000_0000,
    ensures
        final(frames).wf(),
        final(mem).0.len() == old(mem).0.len(),
        ok ==> forall|i: int| 0 <= i < nr_pages ==> #[trigger] maps_rw(
            final(mem).0@,
            root.0,
            (va.0 + i * 4096) as usize,
            (pa.0 + i * 4096) as u64,
        ),
        pages_free_apart(old(mem).0@, root.0, va, nr_pages as int) ==> ok,
{
    let ghost m0 = mem.0@;
    let ghost apart = pages_free_apart(m0, root.0, va, nr_pages as int);
    let mut i: usize = 0;
    while i < nr_pages
        invariant
            frames.wf(),
            mem.0.len() == old(mem).0.len(),
            m0 == old(mem).0@,
            apart == pages_free_apart(m0, root.0, va, nr_pages as int),
            apart ==> forall|j: int| 0 <= j < nr_pages ==> #[trigger] same_walk(mem.0@, m0, root.0, page_of(va, j)),
            apart ==> forall|j: int| i <= j < nr_pages ==> #[trigger] leaf_free_and_apart(mem.0@, root.0, page_of(va, j)),
            apart ==> forall|j: int| 0 <= j < i ==> #[trigger] maps_rw(
                mem.0@,
                root.0,
                (va.0 + j * 4096) as usize,
                (pa.0 + j * 4096) as u64,
            ),
            i <= nr_pages,
            va.0 + nr_pages * 4096 <= usize::MAX,
            pa.0 % 4096 == 0,
            pa.0 + nr_pages * 4096 <= 0x4000_0000_0000_0000,
        decreases nr_pages - i,
    {
        assert(i * 4096 <= nr_pages * 4096) by (nonlinear_arith)
            requires
                i <= nr_pages,
        ;
        let page = VAddr(va.0 + i * 4096);
        let frame = PAddr(pa.0 + i as u64 * 4096);
        let a: u64 = frame.0;
        assert(a & !ENTRY_ADDR_MASK == 0) by (bit_vector)
            requires
                a % 4096 == 0,
                a < 0x4000_0000_0000_0000,
        ;
        let ghost mi = mem.0@;
        proof {
            if apart {
                assert(page.0 == page_of(va, i as int));
                assert(leaf_free_and_apart(mi, root.0, page.0));
            }
        }
        match map_highmem_vaddr(mem, root, frames, page, frame) {
            Ok(()) => {},
            Err(_) => return false,
        }
        proof {
            if apart {
                lemma_map_step(mi, mem.0@, m0, root.0, va, pa, nr_pages as int, i as int);
            }
        }
        i = i + 1;
    }
    let mut j: usize = 0;
    while j < nr_pages
        invariant
            j <= nr_pages,
            frames.wf(),
            mem.0.len() == old(mem).0.len(),
            va.0 + nr_pages * 4096 <= usize::MAX,
            pa.0 + nr_pages * 4096 <= 0x4000_0000_0000_0000,
            apart == pages_free_apart(m0, root.0, va, nr_pages as int),
            m0 == old(mem).0@,
            apart ==> forall|k: int| 0 <= k < nr_pages ==> #[trigger] maps_rw(
                mem.0@,
                root.0,
                (va.0 + k * 4096) as usize,
                (pa.0 + k * 4096) as u64,
            ),
            forall|k: int| 0 <= k < j ==> #[trigger] maps_rw(
                mem.0@,
                root.0,
                (va.0 + k * 4096) as usize,
                (pa.0 + k * 4096) as u64,
            ),
        decreases nr_pages - j,
    {
        assert(j * 4096 <= nr_pages * 4096) by (nonlinear_arith)
            requires
                j <= nr_pages,
        ;
        let page = VAddr(va.0 + j * 4096);
        let frame: u64 = pa.0 + j as u64 * 4096;
        proof {
            if apart {
                assert(maps_rw(mem.0@, root.0, (va.0 + j * 4096) as usize, (pa.0 + j * 4096) as u64));
                assert(page.0 == (va.0 + j * 4096) as usize);
                assert(frame == (pa.0 + j * 4096) as u64);
            }
        }
        match locate_page_entry(mem, root, page) {
            Some(AnyEntry::PTEntry(e)) => {
                if !(e.addr().0 == frame && e.is_present() && e.is_writable() && !e.is_executable()) {
                    return false;
                }
            },
            _ => return false,
        }
        j = j + 1;
    }
    true
}

/// Remove the mappings that `map_pages` may have left for the pages from
/// `va` on: every page whose entry is present and maps its frame from `pa`
/// on loses its present bit. Other entries are left alone.
fn unmap_pages(mem: &mut VmMemory, root: PAddr, va: VAddr, pa: PAddr, nr_pages: usize)
    requires
        va.0 + nr_pages * 4096 <= usize::MAX,
        pa.0 + nr_pages * 4096 <= 0x4000_0000_0000_0000,
    ensures
        final(mem).0.len() == old(mem).0.len(),
{
    let mut k: usize = 0;
    while k < nr_pages
        invariant
            k <= nr_pages,
            mem.0.len() == old(mem).0.len(),
            va.0 + nr_pages * 4096 <= usize::MAX,
            pa.0 + nr_pages * 4096 <= 0x4000_0000_0000_0000,
        decreases nr_pages - k,
    {
        assert(k * 4096 <= nr_pages * 4096) by (nonlinear_arith)
            requires
                k <= nr_pages,
        ;
        let page = VAddr(va.0 + k * 4096);
        let frame: u64 = pa.0 + k as u64 * 4096;
        if let Some(slot) = locate_pt_slot(mem, root, page) {
            if let Some(w) = mem.read_u64(slot) {
                let e = crate::paging::PTEntry(w);
                if e.is_present() && e.addr().0 == frame {
                    clear_present_at(mem, slot);
                }
            }
        }
        k = k + 1;
    }
}

impl PAddr {
    /// A virtual address for the `nr_pages` frames from this address on. Low
    /// memory is mapped already: the guard holds its low-memory address. High
    /// memory gets `nr_pages` pages reserved in `highmem` and mapped
    /// read-write to the frames through the tables at `root`; `None` when
    /// that cannot be done, with the pages given back and the entries it
    /// made cleared (page tables it created stay linked, for later use).
    pub fn into_vaddr(
        self,
        nr_pages: usize,
        mem: &mut VmMemory,
        root: PAddr,
        frames: &mut FrameAllocator,
        highmem: &mut HighmemAllocator,
    ) -> (r: Option<HighmemGuard>)
        requires
            old(frames).wf(),
            old(highmem).wf(),
            self.0 % 4096 == 0,
            self.0 + nr_pages * 4096 <= 0x4000_0000_0000_0000,
        ensures
            final(frames).wf(),
            final(highmem).wf(),
            final(highmem).start_va() == old(highmem).start_va(),
            final(mem).0.len() == old(mem).0.len(),
            !is_highmem_pa(self.0) ==> (r matches Some(g) && g.nr_pages() == 0 && g.vaddr().0 == self.0
                + lowmem_va_start()) && *final(mem) == *old(mem),
            is_highmem_pa(self.0) ==> (r is None ==> final(highmem)@ == old(highmem)@),
            is_highmem_pa(self.0) && nr_pages > 0 && (exists|i: int| #[trigger] clear_run(old(highmem)@, i, nr_pages as int))
                && (forall|i: int|
                clear_run(old(highmem)@, i, nr_pages as int) && no_earlier_clear_run(old(highmem)@, i, nr_pages as int)
                    ==> #[trigger] pages_free_apart(
                    old(mem).0@,
                    root.0,
                    VAddr((old(highmem).start_va() + i * 4096) as usize),
                    nr_pages as int,
                )) ==> r is Some,
            is_highmem_pa(self.0) ==> (r matches Some(g) ==> {
                let first = (g.vaddr().0 - old(highmem).start_va()) / 4096;
                &&& g.nr_pages() == nr_pages
                &&& nr_pages > 0
                &&& g.vaddr().0 >= old(highmem).start_va()
                &&& clear_run(old(highmem)@, first, nr_pages as int)
                &&& no_earlier_clear_run(old(highmem)@, first, nr_pages as int)
                &&& final(highmem)@ == set_bits(old(highmem)@, first, nr_pages as int, true)
                &&& forall|i: int| 0 <= i < nr_pages ==> #[trigger] maps_rw(
                    final(mem).0@,
                    root.0,
                    (g.vaddr().0 + i * 4096) as usize,
                    (self.0 + i * 4096) as u64,
                )
            }),
    {
        if !self.is_highmem() {
            return Some(HighmemGuard::new_lowmem(VAddr(self.0 as usize + LOWMEM_VA_START)));
        }
        let ghost h0 = highmem@;
        let va = match highmem.allocate(nr_pages) {
            Some(va) => va,
            None => return None,
        };
        let ghost first = (va.0 - old(highmem).start_va()) / 4096;
        proof {
            assert(va.0 == old(highmem).start_va() + first * 4096);
            assert(va == VAddr((old(highmem).start_va() + first * 4096) as usize));
        }
        if !map_pages(mem, root, frames, va, self, nr_pages) {
            unmap_pages(mem, root, va, self, nr_pages);
            proof {
                lemma_set_then_clear(h0, first, nr_pages as int);
            }
            highmem.free(va, nr_pages);
            return None;
        }
        Some(HighmemGuard::new_allocated_highmem(va, nr_pages))
    }
}

} // verus!
