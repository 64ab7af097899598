//! The kernel heap: a free-list allocator with boundary tags over whole
//! frames taken from the frame allocator and mapped in low memory.
//!
//! The heap is a list of blocks in address order. Each block is a header of
//! `HEADER_SIZE` bytes followed by `bsize` bytes for its user. Two blocks
//! merge only when they touch: blocks on pages that are not contiguous stay
//! apart.

use vstd::prelude::*;

use crate::addr::{PAddr, LOWMEM_VA_START, lowmem_va_start};
use crate::frame::{allocation_result, lemma_release_paint, low_run, paint, FrameAllocator, FrameState};
use crate::misc::{align_up, aligned_up};

verus! {

/// The bytes of a block header, which every block starts with.
pub const HEADER_SIZE: usize = 48;

/// The alignment of headers and of the pointers handed out.
pub const BLOCK_ALIGN: usize = 16;

/// A free block is split only when what is left can hold a header and this
/// many bytes.
pub const MIN_BLOCK_SIZE: usize = 8;

/// The largest request served; larger ones fail.
pub const MAX_ALLOC_SIZE: usize = 0x4000_0000;

/// One block of the heap.
#[derive(Clone, Copy, Debug, PartialEq, Eq, Structural)]
pub struct Block {
    /// The virtual address of the header.
    pub addr: usize,
    /// The bytes available to the user after the header.
    pub bsize: usize,
    pub allocated: bool,
}

/// Why a deallocation was refused.
#[derive(Clone, Copy, Debug, PartialEq, Eq, Structural)]
pub enum HeapError {
    /// The pointer does not start any block of the heap: a corrupted header
    /// or a pointer that the heap never handed out.
    InvalidPointer,
    /// The block is already free.
    DoubleFree,
}

/// The address one past the block's last byte.
pub open spec fn block_end(b: Block) -> int {
    b.addr + HEADER_SIZE + b.bsize
}

/// The pointer that the block's user gets.
pub open spec fn user_ptr(b: Block) -> int {
    b.addr + HEADER_SIZE
}

/// Blocks are aligned, not empty, in address order and apart.
pub open spec fn blocks_wf(s: Seq<Block>) -> bool {
    &&& forall|i: int| 0 <= i < s.len() ==> {
        &&& #[trigger] s[i].addr % 16 == 0
        &&& s[i].bsize % 16 == 0
        &&& s[i].bsize > 0
        &&& block_end(s[i]) <= usize::MAX
    }
    &&& forall|i: int, j: int| 0 <= i < j < s.len() ==> block_end(#[trigger] s[i]) <= (#[trigger] s[j]).addr
}

/// `p` is the pointer of an allocated block.
pub open spec fn allocated_at(s: Seq<Block>, p: int) -> bool {
    exists|i: int| 0 <= i < s.len() && s[i].allocated && #[trigger] user_ptr(s[i]) == p
}

/// `p` is the pointer of a free block.
pub open spec fn free_at(s: Seq<Block>, p: int) -> bool {
    exists|i: int| 0 <= i < s.len() && !s[i].allocated && #[trigger] user_ptr(s[i]) == p
}

/// Block `i` is free and large enough for `user` bytes.
pub open spec fn fits(s: Seq<Block>, i: int, user: int) -> bool {
    0 <= i < s.len() && !s[i].allocated && s[i].bsize >= user
}

/// Block `k` is the first free block large enough for `user` bytes.
pub open spec fn first_fit(s: Seq<Block>, k: int, user: int) -> bool {
    fits(s, k, user) && forall|i: int| 0 <= i < k ==> !#[trigger] fits(s, i, user)
}

/// The two block lists have the same allocated blocks.
pub open spec fn same_allocated(s: Seq<Block>, t: Seq<Block>) -> bool {
    forall|p: int| allocated_at(s, p) <==> #[trigger] allocated_at(t, p)
}

/// Two blocks in a well-formed list with the same user pointer are one.
proof fn lemma_unique_ptr(s: Seq<Block>, i: int, j: int)
    requires
        blocks_wf(s),
        0 <= i < s.len(),
        0 <= j < s.len(),
        user_ptr(s[i]) == user_ptr(s[j]),
    ensures
        i == j,
{
    if i < j {
        assert(block_end(s[i]) <= s[j].addr);
    } else if j < i {
        assert(block_end(s[j]) <= s[i].addr);
    }
}

/// A free-list heap allocator.
pub struct FreelistAllocator {
    blocks: Vec<Block>,
}

impl View for FreelistAllocator {
    type V = Seq<Block>;

    closed spec fn view(&self) -> Seq<Block> {
        self.blocks@
    }
}

impl FreelistAllocator {
    /// An empty heap.
    pub fn new() -> (r: Self)
        ensures
            r@.len() == 0,
            blocks_wf(r@),
    {
        FreelistAllocator { blocks: Vec::new() }
    }

    /// The number of blocks, allocated or free.
    pub fn count_blocks(&self) -> (r: usize)
        ensures
            r == self@.len(),
    {
        self.blocks.len()
    }

    /// Block `i`.
    pub fn block(&self, i: usize) -> (r: Block)
        requires
            i < self@.len(),
        ensures
            r == self@[i as int],
    {
        self.blocks[i]
    }

    /// The first free block large enough for `user` bytes.
    fn find_free_block(&self, user: usize) -> (r: Option<usize>)
        ensures
            r matches Some(k) ==> first_fit(self@, k as int, user as int),
            r is None ==> forall|i: int| !#[trigger] fits(self@, i, user as int),
    {
        let mut i: usize = 0;
        while i < self.blocks.len()
            invariant
                i <= self.blocks.len(),
                forall|j: int| 0 <= j < i ==> !#[trigger] fits(self@, j, user as int),
            decreases self.blocks.len() - i,
        {
            let b = self.blocks[i];
            if !b.allocated && b.bsize >= user {
                return Some(i);
            }
            i = i + 1;
        }
        None
    }
}

/// `s` with free block `k` split so that it holds `user` bytes: when what
/// is left makes a block of its own (a header and `MIN_BLOCK_SIZE` bytes),
/// that block follows it, free.
pub open spec fn cut(s: Seq<Block>, k: int, user: int) -> Seq<Block> {
    if s[k].bsize - user >= HEADER_SIZE + MIN_BLOCK_SIZE {
        s.update(k, Block { bsize: user as usize, ..s[k] }).insert(
            k + 1,
            Block {
                addr: (s[k].addr + HEADER_SIZE + user) as usize,
                bsize: (s[k].bsize - user - HEADER_SIZE) as usize,
                allocated: false,
            },
        )
    } else {
        s
    }
}

/// `s` with free block `k` cut to `user` bytes and allocated.
pub open spec fn take_block(s: Seq<Block>, k: int, user: int) -> Seq<Block> {
    let c = cut(s, k, user);
    c.update(k, Block { allocated: true, ..c[k] })
}

/// `p` is the pointer of an allocated block of at least `n` bytes.
pub open spec fn allocated_with_size(s: Seq<Block>, p: int, n: int) -> bool {
    exists|i: int| 0 <= i < s.len() && s[i].allocated && #[trigger] user_ptr(s[i]) == p && s[i].bsize >= n
}

/// The number of frames the heap takes to serve `user` bytes that no free
/// block holds.
pub open spec fn frames_for(user: int) -> int {
    crate::misc::aligned_up(user + HEADER_SIZE, 4096) / 4096
}

impl FreelistAllocator {
    /// Split free block `k` so that it holds `user` bytes, when what is left
    /// makes a block of its own; that block follows it, free.
    fn cut_free_block(&mut self, k: usize, user: usize)
        requires
            blocks_wf(old(self)@),
            fits(old(self)@, k as int, user as int),
            user % 16 == 0,
            user > 0,
        ensures
            blocks_wf(final(self)@),
            same_allocated(old(self)@, final(self)@),
            k < final(self)@.len(),
            final(self)@[k as int].addr == old(self)@[k as int].addr,
            final(self)@[k as int].bsize >= user,
            !final(self)@[k as int].allocated,
            final(self)@ == cut(old(self)@, k as int, user as int),
    {
        let ghost s = self@;
        let b = self.blocks[k];
        let rest = b.bsize - user;
        if rest < HEADER_SIZE + MIN_BLOCK_SIZE {
            return;
        }
        let left = Block { addr: b.addr, bsize: user, allocated: false };
        let right = Block { addr: b.addr + HEADER_SIZE + user, bsize: rest - HEADER_SIZE, allocated: false };
        let len = self.blocks.len();
        assert(k < len);
        let next: usize = k + 1;
        self.blocks.set(k, left);
        self.blocks.insert(next, right);
        proof {
            let t = self@;
            assert(t == s.update(k as int, left).insert(k + 1, right));
            assert forall|i: int| 0 <= i < t.len() implies {
                &&& #[trigger] t[i].addr % 16 == 0
                &&& t[i].bsize % 16 == 0
                &&& t[i].bsize > 0
                &&& block_end(t[i]) <= usize::MAX
            } by {
                if i < k {
                    assert(t[i] == s[i]);
                } else if i > k + 1 {
                    assert(t[i] == s[i - 1]);
                }
            }
            assert forall|i: int, j: int| 0 <= i < j < t.len() implies block_end(#[trigger] t[i])
                <= (#[trigger] t[j]).addr by {
                let si = if i <= k { i } else { i - 1 };
                let sj = if j <= k { j } else { j - 1 };
                if i == k && j == k + 1 {
                } else if i == k {
                    assert(block_end(s[k as int]) <= s[sj].addr);
                } else if i == k + 1 {
                    assert(block_end(s[k as int]) <= s[sj].addr);
                } else if j == k + 1 {
                    assert(block_end(s[si]) <= s[k as int].addr);
                } else if j == k {
                    assert(block_end(s[si]) <= s[k as int].addr);
                } else {
                    assert(t[i] == s[si] && t[j] == s[sj]);
                    assert(block_end(s[si]) <= s[sj].addr);
                }
            }
            assert forall|p: int| allocated_at(s, p) <==> #[trigger] allocated_at(t, p) by {
                if allocated_at(s, p) {
                    let i = choose|i: int| 0 <= i < s.len() && s[i].allocated && #[trigger] user_ptr(s[i]) == p;
                    if i < k {
                        assert(t[i] == s[i]);
                    } else {
                        assert(t[i + 1] == s[i]);
                    }
                }
                if allocated_at(t, p) {
                    let j = choose|j: int| 0 <= j < t.len() && t[j].allocated && #[trigger] user_ptr(t[j]) == p;
                    if j < k {
                        assert(t[j] == s[j]);
                    } else {
                        assert(t[j] == s[j - 1]);
                    }
                }
            }
        }
    }

    /// Mark free block `k` allocated.
    fn mark_allocated(&mut self, k: usize)
        requires
            blocks_wf(old(self)@),
            k < old(self)@.len(),
            !old(self)@[k as int].allocated,
        ensures
            final(self)@ == old(self)@.update(k as int, Block { allocated: true, ..old(self)@[k as int] }),
            blocks_wf(final(self)@),
            forall|q: int| #[trigger] allocated_at(final(self)@, q) <==> (allocated_at(old(self)@, q) || q
                == user_ptr(old(self)@[k as int])),
    {
        let ghost s = self@;
        let b = self.blocks[k];
        self.blocks.set(k, Block { allocated: true, ..b });
        proof {
            let t = self@;
            assert forall|i: int, j: int| 0 <= i < j < t.len() implies block_end(#[trigger] t[i])
                <= (#[trigger] t[j]).addr by {
                assert(block_end(s[i]) <= s[j].addr);
            }
            assert forall|i: int| 0 <= i < t.len() implies #[trigger] t[i].addr % 16 == 0 && t[i].bsize % 16 == 0
                && t[i].bsize > 0 && block_end(t[i]) <= usize::MAX by {
                assert(s[i].addr % 16 == 0);
            }
            assert forall|q: int| #[trigger] allocated_at(t, q) <==> (allocated_at(s, q) || q == user_ptr(s[k as int])) by {
                if allocated_at(s, q) {
                    let i = choose|i: int| 0 <= i < s.len() && s[i].allocated && #[trigger] user_ptr(s[i]) == q;
                    assert(t[i].allocated && user_ptr(t[i]) == q);
                }
                if q == user_ptr(s[k as int]) {
                    assert(t[k as int].allocated && user_ptr(t[k as int]) == q);
                }
                if allocated_at(t, q) {
                    let j = choose|j: int| 0 <= j < t.len() && t[j].allocated && #[trigger] user_ptr(t[j]) == q;
                    if j != k {
                        assert(s[j].allocated && user_ptr(s[j]) == q);
                    }
                }
            }
        }
    }
}

impl FreelistAllocator {
    /// The index of the first block that does not start below `va`.
    fn insertion_point(&self, va: usize) -> (p: usize)
        ensures
            p <= self@.len(),
            forall|i: int| 0 <= i < p ==> #[trigger] self@[i].addr < va,
            p < self@.len() ==> self@[p as int].addr >= va,
    {
        let len = self.blocks.len();
        let mut p: usize = 0;
        while p < len && self.blocks[p].addr < va
            invariant
                p <= len,
                len == self.blocks.len(),
                forall|i: int| 0 <= i < p ==> #[trigger] self@[i].addr < va,
            decreases len - p,
        {
            p = p + 1;
        }
        p
    }

    /// Add the `nr` frames at `pa`, mapped in low memory, to the heap:
    /// the free block that ends where they start grows over them, else they
    /// become a new free block. Returns the index of that free block; `None`,
    /// with nothing changed, when they would overlap the heap.
    #[verifier::rlimit(100)]
    fn place_pages(&mut self, pa: PAddr, nr: usize) -> (r: Option<usize>)
        requires
            blocks_wf(old(self)@),
            pa.0 % 4096 == 0,
            nr > 0,
            pa.0 + nr * 4096 <= 0x3800_0000,
        ensures
            blocks_wf(final(self)@),
            r is None ==> final(self)@ == old(self)@ && overlaps_heap(old(self)@, pa.0 as int, nr as int),
            r matches Some(k) ==> {
                &&& same_allocated(old(self)@, final(self)@)
                &&& carve_ok(old(self)@, pa, k as int)
                &&& final(self)@ == carve(old(self)@, pa, nr * 4096, k as int)
                &&& carved_at(old(self)@, pa, user_ptr(final(self)@[k as int]))
                &&& k < final(self)@.len()
                &&& !final(self)@[k as int].allocated
                &&& final(self)@[k as int].bsize >= nr * 4096 - HEADER_SIZE
            },
    {
        let ghost s = self@;
        let ext: usize = nr * 4096;
        let va: usize = pa.0 as usize + LOWMEM_VA_START;
        let p = self.insertion_point(va);
        let len = self.blocks.len();
        let prev_ok = p == 0 || self.blocks[p - 1].addr + HEADER_SIZE + self.blocks[p - 1].bsize <= va;
        let next_ok = p == len || va + ext <= self.blocks[p].addr;
        if !prev_ok || !next_ok {
            proof {
                if !prev_ok {
                    assert(s[p - 1].addr < va + nr * 4096 && va < block_end(s[p - 1]));
                } else {
                    assert(s[p as int].addr < va + nr * 4096 && va < block_end(s[p as int]));
                }
            }
            return None;
        }
        if p > 0 {
            let prev = self.blocks[p - 1];
            if !prev.allocated && prev.addr + HEADER_SIZE + prev.bsize == va {
                self.blocks.set(p - 1, Block { bsize: prev.bsize + ext, ..prev });
                proof {
                    lemma_place_extend(s, pa, p - 1, nr as int);
                }
                return Some(p - 1);
            }
        }
        let nb = Block { addr: va, bsize: ext - HEADER_SIZE, allocated: false };
        self.blocks.insert(p, nb);
        proof {
            lemma_place_insert(s, pa, p as int, nr as int);
        }
        Some(p)
    }

    /// Take new frames for a block of `user` bytes and add them to the heap
    /// as `place_pages` does. Returns the index of the free block that holds
    /// them; `None` when no frames are left, or when the frames would overlap
    /// the heap.
    fn alloc_free_block(&mut self, frames: &mut FrameAllocator, user: usize) -> (r: Option<usize>)
        requires
            blocks_wf(old(self)@),
            old(frames).wf(),
            user % 16 == 0,
            0 < user <= MAX_ALLOC_SIZE,
        ensures
            blocks_wf(final(self)@),
            final(frames).wf(),
            r matches Some(k) ==> fits(final(self)@, k as int, user as int),
            r is Some ==> same_allocated(old(self)@, final(self)@),
            r is Some ==> pages_taken(old(frames)@, final(frames)@, user as int),
            r matches Some(k) ==> exists|pa: PAddr| #[trigger]
                pages_taken_at(old(frames)@, final(frames)@, user as int, pa) && carved_at(
                    old(self)@,
                    pa,
                    user_ptr(final(self)@[k as int]),
                ) && carve_ok(old(self)@, pa, k as int) && final(self)@ == carve(
                    old(self)@,
                    pa,
                    frames_for(user as int) * 4096,
                    k as int,
                ),
            r is None ==> final(self)@ == old(self)@,
            r is None ==> final(frames)@ == old(frames)@ && no_pages_for(old(frames)@, old(self)@, user as int),
    {
        let ghost fs = frames@;
        let (pa, nr) = match take_pages(frames, user) {
            Some(t) => t,
            None => return None,
        };
        match self.place_pages(pa, nr) {
            Some(k) => {
                proof {
                    assert(pages_taken_at(fs, frames@, user as int, pa));
                }
                Some(k)
            },
            None => {
                proof {
                    lemma_release_paint(fs, pa.0 as int / 4096, nr as int);
                }
                frames.free(pa, nr);
                proof {
                    lemma_no_pages(fs, old(self)@, pa, user as int);
                }
                None
            },
        }
    }
}

/// Growing the free block `k`, which ends where the frames at `pa` start,
/// over them.
proof fn lemma_place_extend(s: Seq<Block>, pa: PAddr, k: int, nr: int)
    requires
        blocks_wf(s),
        0 <= k < s.len(),
        !s[k].allocated,
        block_end(s[k]) == pa.0 + lowmem_va_start(),
        pa.0 % 4096 == 0,
        nr > 0,
        pa.0 + nr * 4096 <= 0x3800_0000,
        k + 1 < s.len() ==> pa.0 + lowmem_va_start() + nr * 4096 <= s[k + 1].addr,
    ensures
        ({
            let t = s.update(k, Block { bsize: (s[k].bsize + nr * 4096) as usize, ..s[k] });
            &&& blocks_wf(t)
            &&& same_allocated(s, t)
            &&& carve_ok(s, pa, k)
            &&& t == carve(s, pa, nr * 4096, k)
            &&& carved_at(s, pa, user_ptr(t[k]))
            &&& !t[k].allocated
            &&& t[k].bsize >= nr * 4096 - HEADER_SIZE
        }),
{
    lemma_extend_free(s, k, nr * 4096);
    let t = s.update(k, Block { bsize: (s[k].bsize + nr * 4096) as usize, ..s[k] });
    assert(free_block_ends_at(s, pa));
    assert(user_ptr(t[k]) == user_ptr(s[k]));
    assert(carved_at(s, pa, user_ptr(t[k])));
    assert(t == carve(s, pa, nr * 4096, k));
}

/// Adding the frames at `pa` as a new free block at `p`, where no free block
/// ends where they start.
proof fn lemma_place_insert(s: Seq<Block>, pa: PAddr, p: int, nr: int)
    requires
        blocks_wf(s),
        0 <= p <= s.len(),
        pa.0 % 4096 == 0,
        nr > 0,
        pa.0 + nr * 4096 <= 0x3800_0000,
        forall|i: int| 0 <= i < p ==> #[trigger] s[i].addr < pa.0 + lowmem_va_start(),
        p < s.len() ==> s[p].addr >= pa.0 + lowmem_va_start(),
        p > 0 ==> block_end(s[p - 1]) <= pa.0 + lowmem_va_start(),
        p > 0 ==> !(!s[p - 1].allocated && block_end(s[p - 1]) == pa.0 + lowmem_va_start()),
        p < s.len() ==> pa.0 + lowmem_va_start() + nr * 4096 <= s[p].addr,
    ensures
        ({
            let nb = Block { addr: (pa.0 + lowmem_va_start()) as usize, bsize: (nr * 4096 - HEADER_SIZE) as usize, allocated: false };
            let t = s.insert(p, nb);
            &&& blocks_wf(t)
            &&& same_allocated(s, t)
            &&& carve_ok(s, pa, p)
            &&& t == carve(s, pa, nr * 4096, p)
            &&& carved_at(s, pa, user_ptr(t[p]))
            &&& !t[p].allocated
            &&& t[p].bsize >= nr * 4096 - HEADER_SIZE
        }),
{
    let va = pa.0 + lowmem_va_start();
    let nb = Block { addr: va as usize, bsize: (nr * 4096 - HEADER_SIZE) as usize, allocated: false };
    lemma_insert_free(s, p, nb);
    assert(!free_block_ends_at(s, pa)) by {
        if free_block_ends_at(s, pa) {
            let i = choose|i: int| 0 <= i < s.len() && !s[i].allocated && #[trigger] block_end(s[i]) == va;
            if i < p - 1 {
                assert(block_end(s[i]) <= s[p - 1].addr);
            } else if i >= p {
                assert(s[i].addr >= va);
            }
        }
    }
    assert(s.insert(p, nb)[p] == nb);
}

/// The frames of `after` are those of `before` with the first fit of the
/// frames for a block of `user` bytes taken, in low memory.
pub open spec fn pages_taken(before: Seq<FrameState>, after: Seq<FrameState>, user: int) -> bool {
    exists|pa: PAddr|
        allocation_result(before, frames_for(user), false, Some(pa))
        && after == paint(before, pa.0 as int / 4096, frames_for(user), FrameState::AllocatedRAM)
}

/// `after` is `before` with the frames from `pa` on, the first fit of the
/// frames for a block of `user` bytes in low memory, allocated.
pub open spec fn pages_taken_at(before: Seq<FrameState>, after: Seq<FrameState>, user: int, pa: PAddr) -> bool {
    allocation_result(before, frames_for(user), false, Some(pa))
        && after == paint(before, pa.0 as int / 4096, frames_for(user), FrameState::AllocatedRAM)
}

/// Some free block of `s` ends where the low-memory mapping of `pa` starts.
pub open spec fn free_block_ends_at(s: Seq<Block>, pa: PAddr) -> bool {
    exists|i: int| 0 <= i < s.len() && !s[i].allocated && #[trigger] block_end(s[i]) == pa.0 + lowmem_va_start()
}

/// `p` is the pointer of the block served from new frames at `pa`: the free
/// block of `s` that ends where they start grows over them, else a new block
/// starts at the frames.
pub open spec fn carved_at(s: Seq<Block>, pa: PAddr, p: int) -> bool {
    if free_block_ends_at(s, pa) {
        exists|i: int|
            0 <= i < s.len() && !s[i].allocated && block_end(s[i]) == pa.0 + lowmem_va_start() && #[trigger] user_ptr(s[i])
                == p
    } else {
        p == pa.0 + lowmem_va_start() + HEADER_SIZE
    }
}

/// Where the block list `s` takes in the `ext` bytes of new frames at `pa`:
/// the free block that ends where they start (`k`) grows over them, else a
/// new free block goes in at `k`, the place that keeps the list in address
/// order.
pub open spec fn carve_ok(s: Seq<Block>, pa: PAddr, k: int) -> bool {
    let va = pa.0 + lowmem_va_start();
    if free_block_ends_at(s, pa) {
        0 <= k < s.len() && !s[k].allocated && block_end(s[k]) == va
    } else {
        &&& 0 <= k <= s.len()
        &&& forall|i: int| 0 <= i < k ==> #[trigger] s[i].addr < va
        &&& k < s.len() ==> s[k].addr >= va
    }
}

/// The block list after taking in the `ext` bytes at `pa` at `k`.
pub open spec fn carve(s: Seq<Block>, pa: PAddr, ext: int, k: int) -> Seq<Block> {
    if free_block_ends_at(s, pa) {
        s.update(k, Block { bsize: (s[k].bsize + ext) as usize, ..s[k] })
    } else {
        s.insert(k, Block { addr: (pa.0 + lowmem_va_start()) as usize, bsize: (ext - HEADER_SIZE) as usize, allocated: false })
    }
}

/// No frames can be had for a block of `user` bytes that would not overlap
/// the heap.
pub open spec fn no_pages_for(fs: Seq<FrameState>, s: Seq<Block>, user: int) -> bool {
    !exists|pa: PAddr|
        allocation_result(fs, frames_for(user), false, Some(pa))
        && !overlaps_heap(s, pa.0 as int, frames_for(user))
}

/// Take, in low memory, the frames for a block of `user` bytes; returns
/// their address and number.
fn take_pages(frames: &mut FrameAllocator, user: usize) -> (r: Option<(PAddr, usize)>)
    requires
        old(frames).wf(),
        user % 16 == 0,
        0 < user <= MAX_ALLOC_SIZE,
    ensures
        final(frames).wf(),
        r matches Some((pa, nr)) ==> {
            &&& nr == frames_for(user as int)
            &&& nr > 0
            &&& pa.0 % 4096 == 0
            &&& pa.0 + nr * 4096 <= 0x3800_0000
            &&& allocation_result(old(frames)@, nr as int, false, Some(pa))
            &&& final(frames)@ == paint(old(frames)@, pa.0 as int / 4096, nr as int, FrameState::AllocatedRAM)
            &&& pages_taken(old(frames)@, final(frames)@, user as int)
        },
        r is None ==> final(frames)@ == old(frames)@ && forall|pa: PAddr|
            !allocation_result(old(frames)@, frames_for(user as int), false, Some(pa)),
{
    let ext64 = align_up(user as u64 + HEADER_SIZE as u64, 4096);
    let nr = (ext64 / 4096) as usize;
    let ghost fs = frames@;
    match frames.allocate(nr, false) {
        Some(pa) => {
            proof {
                assert(low_run(pa.0 as int / 4096, nr as int));
                assert(allocation_result(fs, frames_for(user as int), false, Some(pa)));
            }
            Some((pa, nr))
        },
        None => {
            proof {
                assert forall|pa: PAddr| !allocation_result(fs, frames_for(user as int), false, Some(pa)) by {
                    if allocation_result(fs, frames_for(user as int), false, Some(pa)) {
                    }
                }
            }
            None
        },
    }
}

/// When the first fit overlaps the heap, no frames can be had.
proof fn lemma_no_pages(fs: Seq<FrameState>, s: Seq<Block>, pa: PAddr, user: int)
    requires
        allocation_result(fs, frames_for(user), false, Some(pa)),
        overlaps_heap(s, pa.0 as int, frames_for(user)),
    ensures
        no_pages_for(fs, s, user),
{
    assert forall|q: PAddr| !(allocation_result(fs, frames_for(user), false, Some(q))
        && !overlaps_heap(s, q.0 as int, frames_for(user))) by {
        if allocation_result(fs, frames_for(user), false, Some(q)) {
            lemma_first_fit_unique(fs, q, pa, frames_for(user));
        }
    }
}

/// Growing a free block into the bytes that follow it, up to the next block.
proof fn lemma_extend_free(s: Seq<Block>, k: int, ext: int)
    requires
        blocks_wf(s),
        0 <= k < s.len(),
        !s[k].allocated,
        ext % 16 == 0,
        ext > 0,
        block_end(s[k]) + ext <= usize::MAX,
        k + 1 < s.len() ==> block_end(s[k]) + ext <= s[k + 1].addr,
    ensures
        ({
            let t = s.update(k, Block { bsize: (s[k].bsize + ext) as usize, ..s[k] });
            blocks_wf(t) && same_allocated(s, t)
        }),
{
    let t = s.update(k, Block { bsize: (s[k].bsize + ext) as usize, ..s[k] });
    assert forall|i: int| 0 <= i < t.len() implies {
        &&& #[trigger] t[i].addr % 16 == 0
        &&& t[i].bsize % 16 == 0
        &&& t[i].bsize > 0
        &&& block_end(t[i]) <= usize::MAX
    } by {
        assert(s[i].addr % 16 == 0);
    }
    assert forall|i: int, j: int| 0 <= i < j < t.len() implies block_end(#[trigger] t[i])
        <= (#[trigger] t[j]).addr by {
        if i == k {
            if j > k + 1 {
                assert(block_end(s[k + 1]) <= s[j].addr);
            }
        } else {
            assert(block_end(s[i]) <= s[j].addr);
        }
    }
    assert forall|q: int| allocated_at(s, q) <==> #[trigger] allocated_at(t, q) by {
        if allocated_at(s, q) {
            let i = choose|i: int| 0 <= i < s.len() && s[i].allocated && #[trigger] user_ptr(s[i]) == q;
            assert(t[i].allocated && user_ptr(t[i]) == q);
        }
        if allocated_at(t, q) {
            let j = choose|j: int| 0 <= j < t.len() && t[j].allocated && #[trigger] user_ptr(t[j]) == q;
            assert(s[j].allocated && user_ptr(s[j]) == q);
        }
    }
}

/// Adding a free block between two blocks it does not overlap.
proof fn lemma_insert_free(s: Seq<Block>, p: int, nb: Block)
    requires
        blocks_wf(s),
        0 <= p <= s.len(),
        !nb.allocated,
        nb.addr % 16 == 0,
        nb.bsize % 16 == 0,
        nb.bsize > 0,
        block_end(nb) <= usize::MAX,
        p > 0 ==> block_end(s[p - 1]) <= nb.addr,
        p < s.len() ==> block_end(nb) <= s[p].addr,
    ensures
        blocks_wf(s.insert(p, nb)),
        same_allocated(s, s.insert(p, nb)),
{
    let t = s.insert(p, nb);
    assert forall|i: int| 0 <= i < t.len() implies {
        &&& #[trigger] t[i].addr % 16 == 0
        &&& t[i].bsize % 16 == 0
        &&& t[i].bsize > 0
        &&& block_end(t[i]) <= usize::MAX
    } by {
        if i < p {
            assert(t[i] == s[i]);
        } else if i > p {
            assert(t[i] == s[i - 1]);
        }
    }
    assert forall|i: int, j: int| 0 <= i < j < t.len() implies block_end(#[trigger] t[i])
        <= (#[trigger] t[j]).addr by {
        if i == p {
            assert(t[j] == s[j - 1]);
            if j - 1 > p {
                assert(block_end(s[p]) <= s[j - 1].addr);
            }
        } else if j == p {
            assert(t[i] == s[i]);
            if i < p - 1 {
                assert(block_end(s[i]) <= s[p - 1].addr);
            }
        } else {
            let si = if i < p { i } else { i - 1 };
            let sj = if j < p { j } else { j - 1 };
            assert(t[i] == s[si] && t[j] == s[sj]);
            assert(block_end(s[si]) <= s[sj].addr);
        }
    }
    assert forall|q: int| allocated_at(s, q) <==> #[trigger] allocated_at(t, q) by {
        if allocated_at(s, q) {
            let i = choose|i: int| 0 <= i < s.len() && s[i].allocated && #[trigger] user_ptr(s[i]) == q;
            if i < p {
                assert(t[i] == s[i]);
            } else {
                assert(t[i + 1] == s[i]);
            }
        }
        if allocated_at(t, q) {
            let j = choose|j: int| 0 <= j < t.len() && t[j].allocated && #[trigger] user_ptr(t[j]) == q;
            if j < p {
                assert(t[j] == s[j]);
            } else {
                assert(t[j] == s[j - 1]);
            }
        }
    }
}

/// The `n` frames from `pa` on, mapped in low memory, would overlap a block.
pub open spec fn overlaps_heap(s: Seq<Block>, pa: int, n: int) -> bool {
    let va = pa + lowmem_va_start();
    exists|i: int| 0 <= i < s.len() && #[trigger] s[i].addr < va + n * 4096 && va < block_end(s[i])
}

/// First-fit allocation has one result.
proof fn lemma_first_fit_unique(s: Seq<FrameState>, a: PAddr, b: PAddr, n: int)
    requires
        allocation_result(s, n, false, Some(a)),
        allocation_result(s, n, false, Some(b)),
    ensures
        a == b,
{
    let ia = a.0 as int / 4096;
    let ib = b.0 as int / 4096;
    if ia < ib {
        assert(crate::frame::free_run(s, ia, n));
    } else if ib < ia {
        assert(crate::frame::free_run(s, ib, n));
    }
}

/// The start of the free block that block `k` merges into when it is freed:
/// that of the block before when it is free and touches it.
pub open spec fn merged_start(s: Seq<Block>, k: int) -> int {
    if k > 0 && !s[k - 1].allocated && block_end(s[k - 1]) == s[k].addr {
        s[k - 1].addr as int
    } else {
        s[k].addr as int
    }
}

/// The end of the free block that block `k` merges into when it is freed:
/// that of the block after when it is free and touches it.
pub open spec fn merged_end(s: Seq<Block>, k: int) -> int {
    if k + 1 < s.len() && !s[k + 1].allocated && block_end(s[k]) == s[k + 1].addr {
        block_end(s[k + 1])
    } else {
        block_end(s[k])
    }
}

/// The first block that freeing block `k` merges into one: the block
/// before when it is free and touches it, else `k` itself.
pub open spec fn merge_lo(s: Seq<Block>, k: int) -> int {
    if k > 0 && !s[k - 1].allocated && block_end(s[k - 1]) == s[k].addr { k - 1 } else { k }
}

/// The last block that freeing block `k` merges into one: the block after
/// when it is free and touches it, else `k` itself.
pub open spec fn merge_hi(s: Seq<Block>, k: int) -> int {
    if k + 1 < s.len() && !s[k + 1].allocated && block_end(s[k]) == s[k + 1].addr { k + 1 } else { k }
}

/// The blocks after freeing block `k`: the blocks it merges with become one
/// free block, every other block stays as it was.
pub open spec fn freed(s: Seq<Block>, k: int) -> Seq<Block> {
    let lo = merge_lo(s, k);
    let hi = merge_hi(s, k);
    let start = merged_start(s, k);
    let end = merged_end(s, k);
    s.subrange(0, lo).push(Block { addr: start as usize, bsize: (end - start - HEADER_SIZE) as usize, allocated: false })
        + s.subrange(hi + 1, s.len() as int)
}

/// A block list shaped like `s` with block `k` freed and merged is
/// `freed(s, k)`.
proof fn lemma_freed_shape(s: Seq<Block>, k: int, t: Seq<Block>)
    requires
        0 <= k < s.len(),
        0 <= merge_lo(s, k) <= k <= merge_hi(s, k) < s.len(),
        merged_end(s, k) - merged_start(s, k) - HEADER_SIZE >= 0,
        t.len() == s.len() - (merge_hi(s, k) - merge_lo(s, k)),
        forall|i: int| 0 <= i < merge_lo(s, k) ==> #[trigger] t[i] == s[i],
        !t[merge_lo(s, k)].allocated,
        t[merge_lo(s, k)].addr == merged_start(s, k),
        block_end(t[merge_lo(s, k)]) == merged_end(s, k),
        forall|i: int| merge_lo(s, k) < i < t.len() ==> #[trigger] t[i] == s[i + (merge_hi(s, k) - merge_lo(s, k))],
    ensures
        t == freed(s, k),
{
    let f = freed(s, k);
    let lo = merge_lo(s, k);
    let hi = merge_hi(s, k);
    assert(f.len() == t.len());
    assert forall|i: int| 0 <= i < t.len() implies #[trigger] t[i] == f[i] by {
        if i < lo {
            assert(f[i] == s[i]);
        } else if i == lo {
            assert(f[i] == Block {
                addr: merged_start(s, k) as usize,
                bsize: (merged_end(s, k) - merged_start(s, k) - HEADER_SIZE) as usize,
                allocated: false,
            });
        } else {
            assert(f[i] == s[i - lo - 1 + hi + 1]);
        }
    }
    assert(t =~= f);
}

/// Freeing the block at `ptr` in `s` left in `t` one free block that spans
/// it and the free blocks that touched it.
pub open spec fn freed_into(s: Seq<Block>, t: Seq<Block>, ptr: int) -> bool {
    forall|k: int| 0 <= k < s.len() && #[trigger] user_ptr(s[k]) == ptr
        ==> exists|j: int| 0 <= j < t.len() && !t[j].allocated
        && #[trigger] t[j].addr == merged_start(s, k)
        && block_end(t[j]) == merged_end(s, k)
}

/// Some free block is large enough for `user` bytes: the first one is.
proof fn lemma_first_fit_exists(s: Seq<Block>, j: int, user: int) -> (k: int)
    requires
        fits(s, j, user),
    ensures
        first_fit(s, k, user),
    decreases j,
{
    if exists|i: int| 0 <= i < j && fits(s, i, user) {
        let i = choose|i: int| 0 <= i < j && fits(s, i, user);
        lemma_first_fit_exists(s, i, user)
    } else {
        j
    }
}

/// Once a block of at least `n` bytes is freed, a request for `n` bytes is
/// served again from the free blocks, without new frames.
pub proof fn lemma_freed_block_serves_again(s: Seq<Block>, t: Seq<Block>, p: int, n: int)
    requires
        blocks_wf(s),
        blocks_wf(t),
        allocated_with_size(s, p, n),
        freed_into(s, t, p),
    ensures
        exists|k: int| #[trigger] first_fit(t, k, aligned_up(n, 16)),
{
    let i = choose|i: int| 0 <= i < s.len() && s[i].allocated && #[trigger] user_ptr(s[i]) == p && s[i].bsize >= n;
    let j = choose|j: int| 0 <= j < t.len() && !t[j].allocated
        && #[trigger] t[j].addr == merged_start(s, i) && block_end(t[j]) == merged_end(s, i);
    assert(t[j].bsize >= s[i].bsize);
    assert(t[j].bsize % 16 == 0);
    assert(t[j].bsize >= aligned_up(n, 16)) by {
        assert(s[i].bsize % 16 == 0);
        if n % 16 != 0 {
            assert(aligned_up(n, 16) == n + (16 - n % 16));
        }
    }
    let k = lemma_first_fit_exists(t, j, aligned_up(n, 16));
}

/// The blocks of `freed(s, k)`: those before the merged ones, the merged
/// block, and those after, moved down.
proof fn lemma_freed_index(s: Seq<Block>, k: int)
    requires
        blocks_wf(s),
        0 <= k < s.len(),
    ensures
        ({
            let t = freed(s, k);
            let lo = merge_lo(s, k);
            let hi = merge_hi(s, k);
            &&& t.len() == s.len() - (hi - lo)
            &&& forall|i: int| 0 <= i < lo ==> #[trigger] t[i] == s[i]
            &&& !t[lo].allocated
            &&& t[lo].addr == merged_start(s, k)
            &&& block_end(t[lo]) == merged_end(s, k)
            &&& forall|i: int| lo < i < t.len() ==> #[trigger] t[i] == s[i + (hi - lo)]
        }),
{
    let t = freed(s, k);
    let lo = merge_lo(s, k);
    let hi = merge_hi(s, k);
    assert(merged_end(s, k) - merged_start(s, k) - HEADER_SIZE >= 0) by {
        if lo < k {
            assert(block_end(s[k - 1]) <= s[k].addr);
        }
    }
    assert(merged_end(s, k) <= usize::MAX) by {
        assert(block_end(s[hi]) <= usize::MAX);
    }
    assert forall|i: int| lo < i < t.len() implies #[trigger] t[i] == s[i + (hi - lo)] by {
        assert(t[i] == s.subrange(hi + 1, s.len() as int)[i - lo - 1]);
    }
}

/// Freeing allocated block `k`, which no free block before it touches, when
/// no block before it holds `n` bytes, makes it the first fit for `n` bytes
/// again: a request for `n` bytes then gets back its pointer.
pub proof fn lemma_freed_block_reused(s: Seq<Block>, k: int, n: int)
    requires
        blocks_wf(s),
        0 <= k < s.len(),
        s[k].allocated,
        0 < n <= s[k].bsize,
        merge_lo(s, k) == k,
        forall|i: int| 0 <= i < k ==> !#[trigger] fits(s, i, aligned_up(n, 16)),
    ensures
        first_fit(freed(s, k), k, aligned_up(n, 16)),
        user_ptr(freed(s, k)[k]) == user_ptr(s[k]),
{
    lemma_freed_index(s, k);
    let t = freed(s, k);
    assert(t[k].bsize >= s[k].bsize) by {
        assert(merged_end(s, k) >= block_end(s[k]));
    }
    assert(t[k].bsize >= aligned_up(n, 16)) by {
        assert(s[k].bsize % 16 == 0);
        assert(t[k].bsize % 16 == 0) by {
            assert(t[k].addr % 16 == 0);
        }
    }
    assert forall|i: int| 0 <= i < k implies !#[trigger] fits(t, i, aligned_up(n, 16)) by {
        assert(t[i] == s[i]);
        assert(!fits(s, i, aligned_up(n, 16)));
        assert(i < t.len());
    }
}

/// Three touching allocated blocks A, B and C, freed in the order A, C, B,
/// end up as one free block that holds a request of their three sizes plus
/// two headers.
pub proof fn lemma_three_neighbours_coalesce(
    s0: Seq<Block>,
    a: int,
    t1: Seq<Block>,
    kc: int,
    t2: Seq<Block>,
    kb: int,
    t3: Seq<Block>,
)
    requires
        blocks_wf(s0),
        blocks_wf(t1),
        blocks_wf(t2),
        0 <= a,
        a + 2 < s0.len(),
        s0[a].allocated,
        s0[a + 1].allocated,
        s0[a + 2].allocated,
        block_end(s0[a]) == s0[a + 1].addr,
        block_end(s0[a + 1]) == s0[a + 2].addr,
        t1 == freed(s0, a),
        0 <= kc < t1.len(),
        user_ptr(t1[kc]) == user_ptr(s0[a + 2]),
        t2 == freed(t1, kc),
        0 <= kb < t2.len(),
        user_ptr(t2[kb]) == user_ptr(s0[a + 1]),
        t3 == freed(t2, kb),
    ensures
        exists|j: int|
            #[trigger] fits(t3, j, s0[a].bsize + s0[a + 1].bsize + s0[a + 2].bsize + 2 * HEADER_SIZE)
                && t3[j].addr <= s0[a].addr,
{
    lemma_freed_index(s0, a);
    let lo1 = merge_lo(s0, a);
    assert(merge_hi(s0, a) == a);
    assert(t1[lo1 + 1] == s0[a + 1]);
    assert(t1[lo1 + 2] == s0[a + 2]);
    lemma_unique_ptr(t1, kc, lo1 + 2);
    lemma_freed_index(t1, kc);
    assert(merge_lo(t1, kc) == kc);
    assert(t2[lo1] == t1[lo1]);
    assert(t2[lo1 + 1] == s0[a + 1]);
    let m2 = t2[lo1 + 2];
    assert(!m2.allocated && m2.addr == s0[a + 2].addr && block_end(m2) >= block_end(s0[a + 2]));
    lemma_unique_ptr(t2, kb, lo1 + 1);
    lemma_freed_index(t2, kb);
    assert(merge_lo(t2, kb) == lo1);
    assert(merge_hi(t2, kb) == lo1 + 2);
    let j = lo1;
    assert(t3[j].addr == t1[lo1].addr);
    assert(block_end(t3[j]) == block_end(m2));
    assert(fits(t3, j, s0[a].bsize + s0[a + 1].bsize + s0[a + 2].bsize + 2 * HEADER_SIZE));
}

/// Block `k` absorbs the free block after it, which it touches.
proof fn lemma_merge_next(s: Seq<Block>, k: int)
    requires
        blocks_wf(s),
        0 <= k,
        k + 1 < s.len(),
        !s[k + 1].allocated,
        block_end(s[k]) == s[k + 1].addr,
    ensures
        ({
            let t = s.update(k, Block { bsize: (s[k].bsize + HEADER_SIZE + s[k + 1].bsize) as usize, ..s[k] }).remove(k + 1);
            &&& blocks_wf(t)
            &&& same_allocated(s, t)
            &&& t.len() == s.len() - 1
            &&& t[k].addr == s[k].addr
            &&& block_end(t[k]) == block_end(s[k + 1])
            &&& t[k].allocated == s[k].allocated
            &&& t[k].bsize == s[k].bsize + HEADER_SIZE + s[k + 1].bsize
            &&& forall|i: int| 0 <= i < k ==> t[i] == s[i]
            &&& forall|i: int| k < i < t.len() ==> t[i] == s[i + 1]
        }),
{
    let u = s.update(k, Block { bsize: (s[k].bsize + HEADER_SIZE + s[k + 1].bsize) as usize, ..s[k] });
    let t = u.remove(k + 1);
    assert forall|i: int| 0 <= i < t.len() implies {
        &&& #[trigger] t[i].addr % 16 == 0
        &&& t[i].bsize % 16 == 0
        &&& t[i].bsize > 0
        &&& block_end(t[i]) <= usize::MAX
    } by {
        if i < k {
            assert(t[i] == s[i]);
        } else if i > k {
            assert(t[i] == s[i + 1]);
        } else {
            assert(s[k].addr % 16 == 0 && s[k + 1].addr % 16 == 0);
        }
    }
    assert forall|i: int, j: int| 0 <= i < j < t.len() implies block_end(#[trigger] t[i])
        <= (#[trigger] t[j]).addr by {
        let si = if i <= k { i } else { i + 1 };
        let sj = if j < k { j } else { j + 1 };
        if i == k {
            assert(t[j] == s[j + 1]);
            assert(block_end(s[k + 1]) <= s[j + 1].addr);
        } else if j == k {
            assert(t[i] == s[i]);
            assert(block_end(s[i]) <= s[k].addr);
        } else {
            assert(t[i] == s[si] && t[j] == s[sj]);
            assert(block_end(s[si]) <= s[sj].addr);
        }
    }
    assert forall|q: int| allocated_at(s, q) <==> #[trigger] allocated_at(t, q) by {
        if allocated_at(s, q) {
            let i = choose|i: int| 0 <= i < s.len() && s[i].allocated && #[trigger] user_ptr(s[i]) == q;
            if i < k {
                assert(t[i] == s[i]);
            } else if i == k {
                assert(t[k].allocated && user_ptr(t[k]) == q);
            } else {
                assert(t[i - 1] == s[i]);
            }
        }
        if allocated_at(t, q) {
            let j = choose|j: int| 0 <= j < t.len() && t[j].allocated && #[trigger] user_ptr(t[j]) == q;
            if j < k {
                assert(t[j] == s[j]);
            } else if j == k {
                assert(s[k].allocated && user_ptr(s[k]) == q);
            } else {
                assert(t[j] == s[j + 1]);
            }
        }
    }
}

/// Block `k` of `s` can grow in place to `n` bytes: the free block right
/// after it touches it and makes up the difference.
pub open spec fn grows_in_place(s: Seq<Block>, k: int, n: int) -> bool {
    &&& k + 1 < s.len()
    &&& n <= MAX_ALLOC_SIZE
    &&& !s[k + 1].allocated
    &&& block_end(s[k]) == s[k + 1].addr
    &&& n <= s[k].bsize + HEADER_SIZE + s[k + 1].bsize
}

/// What allocating `bsize` bytes from the heap `s` and the frames `fs` does,
/// leaving `t` and `ft` and returning `r`: a new 16-aligned block of at least
/// `bsize` bytes, the first free one that fits if any does, else one carved
/// from new frames; `None` only for an empty or too large request, or when no
/// block fits and no frames can be had, and then nothing changes.
pub open spec fn allocation_outcome(
    s: Seq<Block>,
    t: Seq<Block>,
    fs: Seq<FrameState>,
    ft: Seq<FrameState>,
    bsize: int,
    r: Option<usize>,
) -> bool {
    &&& r matches Some(p) ==> {
        &&& p % 16 == 0
        &&& allocated_with_size(t, p as int, bsize)
        &&& !allocated_at(s, p as int)
        &&& forall|q: int| q != p ==> (#[trigger] allocated_at(t, q) <==> allocated_at(s, q))
    }
    &&& forall|k: int| #[trigger] first_fit(s, k, aligned_up(bsize, 16)) && 0 < bsize <= MAX_ALLOC_SIZE
        ==> r == Some((user_ptr(s[k])) as usize) && ft == fs
    &&& r is Some && (forall|k: int| !#[trigger] fits(s, k, aligned_up(bsize, 16))) ==> pages_taken(
        fs,
        ft,
        aligned_up(bsize, 16),
    )
    &&& r matches Some(p) ==> ((forall|k: int| !#[trigger] fits(s, k, aligned_up(bsize, 16))) ==> exists|pa: PAddr|
        #[trigger] pages_taken_at(fs, ft, aligned_up(bsize, 16), pa) && carved_at(s, pa, p as int))
    &&& forall|k: int| #[trigger] first_fit(s, k, aligned_up(bsize, 16)) && 0 < bsize <= MAX_ALLOC_SIZE
        ==> t == take_block(s, k, aligned_up(bsize, 16))
    &&& r is Some && (forall|k: int| !#[trigger] fits(s, k, aligned_up(bsize, 16))) ==> exists|pa: PAddr, k: int|
        #![trigger pages_taken_at(fs, ft, aligned_up(bsize, 16), pa), carve_ok(s, pa, k)]
        pages_taken_at(fs, ft, aligned_up(bsize, 16), pa) && carve_ok(s, pa, k) && t == take_block(
            carve(s, pa, frames_for(aligned_up(bsize, 16)) * 4096, k),
            k,
            aligned_up(bsize, 16),
        )
    &&& r is None ==> t == s && ft == fs
    &&& r is None ==> bsize == 0 || bsize > MAX_ALLOC_SIZE || ((forall|k: int| !#[trigger] fits(s, k, aligned_up(bsize, 16)))
        && no_pages_for(fs, s, aligned_up(bsize, 16)))
}

impl FreelistAllocator {
    /// Allocate `bsize` bytes, rounded up to 16, from the first free block
    /// large enough, or else from new frames; returns the user pointer, which
    /// is 16-byte aligned. `None` for an empty or too large request, or when
    /// no frames are left.
    #[verifier::rlimit(100)]
    pub fn allocate(&mut self, frames: &mut FrameAllocator, bsize: usize) -> (r: Option<usize>)
        requires
            blocks_wf(old(self)@),
            old(frames).wf(),
        ensures
            blocks_wf(final(self)@),
            final(frames).wf(),
            allocation_outcome(old(self)@, final(self)@, old(frames)@, final(frames)@, bsize as int, r),
    {
        if bsize == 0 || bsize > MAX_ALLOC_SIZE {
            return None;
        }
        let ghost s0 = self@;
        let user = align_up(bsize as u64, 16) as usize;
        let k = match self.find_free_block(user) {
            Some(k) => k,
            None => match self.alloc_free_block(frames, user) {
                Some(k) => k,
                None => return None,
            },
        };
        let ghost s1 = self@;
        self.cut_free_block(k, user);
        let ghost s2 = self@;
        self.mark_allocated(k);
        let p = self.blocks[k].addr + HEADER_SIZE;
        proof {
            assert(p == user_ptr(s2[k as int]));
            assert(self@[k as int].allocated && user_ptr(self@[k as int]) == p && self@[k as int].bsize >= bsize);
            assert(allocated_with_size(self@, p as int, bsize as int));
            if allocated_at(s0, p as int) {
                assert(allocated_at(s2, p as int));
                let j = choose|j: int| 0 <= j < s2.len() && s2[j].allocated && #[trigger] user_ptr(s2[j]) == p;
                lemma_unique_ptr(s2, j, k as int);
            }
            assert(p % 16 == 0) by {
                assert(s2[k as int].addr % 16 == 0);
            }
            assert forall|kk: int| #[trigger] first_fit(s0, kk, aligned_up(bsize as int, 16))
                implies kk == k by {
                if kk < k {
                    assert(!fits(s0, kk, user as int));
                } else if k < kk {
                    assert(!fits(s0, k as int, user as int));
                }
            }
        }
        Some(p)
    }

    /// Allocate `size` bytes aligned on `align`, a power of two. Alignments up
    /// to the block alignment are always met; larger ones are refused.
    pub fn allocate_aligned(&mut self, frames: &mut FrameAllocator, size: usize, align: usize) -> (r: Option<usize>)
        requires
            blocks_wf(old(self)@),
            old(frames).wf(),
        ensures
            blocks_wf(final(self)@),
            final(frames).wf(),
            align > BLOCK_ALIGN ==> r is None && final(self)@ == old(self)@ && final(frames)@ == old(frames)@,
            align <= BLOCK_ALIGN ==> allocation_outcome(
                old(self)@,
                final(self)@,
                old(frames)@,
                final(frames)@,
                size as int,
                r,
            ),
    {
        if align > BLOCK_ALIGN {
            return None;
        }
        self.allocate(frames, size)
    }

    /// Resize the allocated block at `ptr` to hold `new_size` bytes; a null
    /// `ptr` asks for a new block, as `allocate` does. The block stays
    /// in place when it is large enough already, or when the free block right
    /// after it, which it touches, makes up the difference; otherwise a new
    /// block is allocated and returned while the old one stays allocated: the
    /// caller copies the bytes over, then frees `ptr`. `None` when a new
    /// block cannot be had: the old one is kept. `ptr` must be null or pass
    /// `check_dealloc`.
    pub fn realloc(&mut self, frames: &mut FrameAllocator, ptr: usize, new_size: usize) -> (r: Option<usize>)
        requires
            blocks_wf(old(self)@),
            old(frames).wf(),
            ptr == 0 || allocated_at(old(self)@, ptr as int),
        ensures
            blocks_wf(final(self)@),
            final(frames).wf(),
            ptr == 0 ==> allocation_outcome(old(self)@, final(self)@, old(frames)@, final(frames)@, new_size as int, r),
            r is None ==> final(self)@ == old(self)@ && final(frames)@ == old(frames)@,
            ptr != 0 ==> forall|k: int| 0 <= k < old(self)@.len() && #[trigger] user_ptr(old(self)@[k]) == ptr
                && old(self)@[k].allocated ==> {
                &&& new_size <= old(self)@[k].bsize ==> r == Some(ptr)
                &&& r is None ==> {
                    &&& !grows_in_place(old(self)@, k, new_size as int)
                    &&& (new_size > MAX_ALLOC_SIZE || ((forall|i: int| !#[trigger] fits(old(self)@, i, aligned_up(new_size as int, 16)))
                        && no_pages_for(old(frames)@, old(self)@, aligned_up(new_size as int, 16))))
                }
            },
            r matches Some(p) ==> p % 16 == 0 && allocated_with_size(final(self)@, p as int, new_size as int),
            r matches Some(p) ==> forall|q: int| q != p ==> (#[trigger] allocated_at(final(self)@, q)
                <==> allocated_at(old(self)@, q)),
            r matches Some(p) ==> p == ptr || !allocated_at(old(self)@, p as int),
    {
        match self.resize(frames, ptr, new_size) {
            Ok(r) => r,
            Err(_) => None,
        }
    }

    /// Resize the allocated block at `ptr` to hold `new_size` bytes; a null
    /// `ptr` asks for a new block, as `allocate` does. The block stays
    /// in place when it is large enough already, or when the free block right
    /// after it, which it touches, makes up the difference; otherwise a new
    /// block is allocated and returned while the old one stays allocated: the
    /// caller copies the bytes over, then frees `ptr`. `Ok(None)` when a new block cannot be had: the old one is
    /// kept. A pointer that starts no block, or one of a free block, is
    /// refused as `dealloc` refuses it.
    fn resize(&mut self, frames: &mut FrameAllocator, ptr: usize, new_size: usize) -> (r: Result<
        Option<usize>,
        HeapError,
    >)
        requires
            blocks_wf(old(self)@),
            old(frames).wf(),
        ensures
            blocks_wf(final(self)@),
            final(frames).wf(),
            ptr == 0 ==> (r matches Ok(q) && allocation_outcome(
                old(self)@,
                final(self)@,
                old(frames)@,
                final(frames)@,
                new_size as int,
                q,
            )),
            ptr != 0 ==> ((r is Ok) <==> allocated_at(old(self)@, ptr as int)),
            (r == Err::<Option<usize>, HeapError>(HeapError::DoubleFree)) <==> free_at(old(self)@, ptr as int),
            r is Err ==> final(self)@ == old(self)@ && final(frames)@ == old(frames)@,
            r == Ok::<Option<usize>, HeapError>(None) ==> final(self)@ == old(self)@ && final(frames)@ == old(frames)@,
            ptr != 0 ==> forall|k: int| 0 <= k < old(self)@.len() && #[trigger] user_ptr(old(self)@[k]) == ptr
                && old(self)@[k].allocated ==> {
                &&& new_size <= old(self)@[k].bsize ==> r == Ok::<Option<usize>, HeapError>(Some(ptr))
                &&& r == Ok::<Option<usize>, HeapError>(None) ==> {
                    &&& !grows_in_place(old(self)@, k, new_size as int)
                    &&& (new_size > MAX_ALLOC_SIZE || ((forall|i: int| !#[trigger] fits(old(self)@, i, aligned_up(new_size as int, 16)))
                        && no_pages_for(old(frames)@, old(self)@, aligned_up(new_size as int, 16))))
                }
            },
            r matches Ok(Some(p)) ==> p % 16 == 0 && allocated_with_size(final(self)@, p as int, new_size as int),
            r matches Ok(Some(p)) ==> forall|q: int| q != p ==> (#[trigger] allocated_at(final(self)@, q)
                <==> allocated_at(old(self)@, q)),
            r matches Ok(Some(p)) ==> p == ptr || !allocated_at(old(self)@, p as int),
    {
        let ghost s0 = self@;
        if ptr == 0 {
            proof {
                assert forall|i: int| 0 <= i < s0.len() implies #[trigger] user_ptr(s0[i]) != 0 by {}
                assert(!free_at(s0, 0));
            }
            return Ok(self.allocate(frames, new_size));
        }
        let k = match self.find_block(ptr) {
            Some(k) => k,
            None => {
                proof {
                    assert(!allocated_at(s0, ptr as int));
                    assert(!free_at(s0, ptr as int));
                }
                return Err(HeapError::InvalidPointer);
            },
        };
        let b = self.blocks[k];
        if !b.allocated {
            proof {
                assert(free_at(s0, ptr as int) && user_ptr(s0[k as int]) == ptr);
                if allocated_at(s0, ptr as int) {
                    let j = choose|j: int| 0 <= j < s0.len() && s0[j].allocated && #[trigger] user_ptr(s0[j]) == ptr;
                    lemma_unique_ptr(s0, j, k as int);
                }
            }
            return Err(HeapError::DoubleFree);
        }
        proof {
            assert(allocated_at(s0, ptr as int) && user_ptr(s0[k as int]) == ptr);
            if free_at(s0, ptr as int) {
                let j = choose|j: int| 0 <= j < s0.len() && !s0[j].allocated && #[trigger] user_ptr(s0[j]) == ptr;
                lemma_unique_ptr(s0, j, k as int);
            }
            assert(ptr % 16 == 0) by {
                assert(s0[k as int].addr % 16 == 0);
            }
            assert forall|kk: int| 0 <= kk < s0.len() && #[trigger] user_ptr(s0[kk]) == ptr implies kk == k by {
                lemma_unique_ptr(s0, kk, k as int);
            }
        }
        if new_size <= b.bsize {
            return Ok(Some(ptr));
        }
        let len = self.blocks.len();
        if k < len - 1 && new_size <= MAX_ALLOC_SIZE {
            let next = self.blocks[k + 1];
            if !next.allocated && b.addr + HEADER_SIZE + b.bsize == next.addr
                && new_size <= b.bsize + HEADER_SIZE + next.bsize {
                proof {
                    lemma_merge_next(s0, k as int);
                }
                self.blocks.set(k, Block { bsize: b.bsize + HEADER_SIZE + next.bsize, ..b });
                self.blocks.remove(k + 1);
                proof {
                    assert(self@[k as int].allocated && user_ptr(self@[k as int]) == ptr);
                }
                return Ok(Some(ptr));
            }
        }
        let q = match self.allocate(frames, new_size) {
            Some(q) => q,
            None => {
                return Ok(None);
            },
        };
        let ghost s1 = self@;
        proof {
            assert(allocated_at(s1, ptr as int));
        }
        proof {
            assert(allocated_at(s1, q as int));
            assert(q != ptr);
        }
        Ok(Some(q))
    }

    /// The index of the block whose user pointer is `ptr`.
    fn find_block(&self, ptr: usize) -> (r: Option<usize>)
        requires
            blocks_wf(self@),
        ensures
            r matches Some(k) ==> k < self@.len() && user_ptr(self@[k as int]) == ptr,
            r is None ==> forall|i: int| 0 <= i < self@.len() ==> #[trigger] user_ptr(self@[i]) != ptr,
    {
        let mut k: usize = 0;
        while k < self.blocks.len()
            invariant
                k <= self.blocks.len(),
                blocks_wf(self@),
                forall|i: int| 0 <= i < k ==> #[trigger] user_ptr(self@[i]) != ptr,
            decreases self.blocks.len() - k,
        {
            let b = self.blocks[k];
            assert(block_end(self@[k as int]) <= usize::MAX);
            if b.addr + HEADER_SIZE == ptr {
                return Some(k);
            }
            k = k + 1;
        }
        None
    }

    /// Whether `ptr` may be given back: `Ok` when it is the pointer of an
    /// allocated block, `DoubleFree` when its block is free already, and
    /// `InvalidPointer` when it starts no block (a corrupted header, or a
    /// pointer the heap never handed out).
    pub fn check_dealloc(&self, ptr: usize) -> (r: Result<(), HeapError>)
        requires
            blocks_wf(self@),
        ensures
            (r is Ok) <==> allocated_at(self@, ptr as int),
            (r == Err::<(), HeapError>(HeapError::DoubleFree)) <==> free_at(self@, ptr as int),
    {
        let ghost s0 = self@;
        let k = match self.find_block(ptr) {
            Some(k) => k,
            None => {
                proof {
                    assert(!allocated_at(s0, ptr as int));
                    assert(!free_at(s0, ptr as int));
                }
                return Err(HeapError::InvalidPointer);
            },
        };
        proof {
            if allocated_at(s0, ptr as int) {
                let j = choose|j: int| 0 <= j < s0.len() && s0[j].allocated && #[trigger] user_ptr(s0[j]) == ptr;
                lemma_unique_ptr(s0, j, k as int);
            }
            if free_at(s0, ptr as int) {
                let j = choose|j: int| 0 <= j < s0.len() && !s0[j].allocated && #[trigger] user_ptr(s0[j]) == ptr;
                lemma_unique_ptr(s0, j, k as int);
            }
        }
        if self.blocks[k].allocated {
            Ok(())
        } else {
            Err(HeapError::DoubleFree)
        }
    }

    /// Give back the allocated block whose user pointer is `ptr`. It is
    /// merged with the free blocks right before and after it when they touch
    /// it. Freeing a pointer that `check_dealloc` refuses is a bug of the
    /// caller, which fails there.
    pub fn dealloc(&mut self, ptr: usize)
        requires
            blocks_wf(old(self)@),
            allocated_at(old(self)@, ptr as int),
        ensures
            blocks_wf(final(self)@),
            !allocated_at(final(self)@, ptr as int),
            forall|q: int| q != ptr ==> (#[trigger] allocated_at(final(self)@, q) <==> allocated_at(old(self)@, q)),
            freed_into(old(self)@, final(self)@, ptr as int),
            forall|k: int| 0 <= k < old(self)@.len() && #[trigger] user_ptr(old(self)@[k]) == ptr
                ==> final(self)@ == freed(old(self)@, k),
    {
        let _ = self.release_block(ptr);
    }

    #[verifier::rlimit(100)]
    fn release_block(&mut self, ptr: usize) -> (r: Result<(), HeapError>)
        requires
            blocks_wf(old(self)@),
        ensures
            blocks_wf(final(self)@),
            (r is Ok) <==> allocated_at(old(self)@, ptr as int),
            (r == Err::<(), HeapError>(HeapError::DoubleFree)) <==> free_at(old(self)@, ptr as int),
            r is Err ==> final(self)@ == old(self)@,
            r is Ok ==> !allocated_at(final(self)@, ptr as int),
            r is Ok ==> forall|q: int| q != ptr ==> (#[trigger] allocated_at(final(self)@, q) <==> allocated_at(old(self)@, q)),
            r is Ok ==> freed_into(old(self)@, final(self)@, ptr as int),
            r is Ok ==> forall|k: int| 0 <= k < old(self)@.len() && #[trigger] user_ptr(old(self)@[k]) == ptr
                ==> final(self)@ == freed(old(self)@, k),
    {
        let ghost s0 = self@;
        let len = self.blocks.len();
        let k = match self.find_block(ptr) {
            Some(k) => k,
            None => {
                proof {
                    assert(!allocated_at(s0, ptr as int));
                    assert(!free_at(s0, ptr as int));
                }
                return Err(HeapError::InvalidPointer);
            },
        };
        let b = self.blocks[k];
        if !b.allocated {
            proof {
                assert(free_at(s0, ptr as int) && user_ptr(s0[k as int]) == ptr);
                if allocated_at(s0, ptr as int) {
                    let j = choose|j: int| 0 <= j < s0.len() && s0[j].allocated && #[trigger] user_ptr(s0[j]) == ptr;
                    lemma_unique_ptr(s0, j, k as int);
                }
            }
            return Err(HeapError::DoubleFree);
        }
        proof {
            assert(allocated_at(s0, ptr as int) && user_ptr(s0[k as int]) == ptr);
            if free_at(s0, ptr as int) {
                let j = choose|j: int| 0 <= j < s0.len() && !s0[j].allocated && #[trigger] user_ptr(s0[j]) == ptr;
                lemma_unique_ptr(s0, j, k as int);
            }
        }
        self.blocks.set(k, Block { allocated: false, ..b });
        let ghost s1 = self@;
        proof {
            lemma_mark_free(s0, k as int);
        }
        let mut at: usize = k;
        if k + 1 < len {
            let next = self.blocks[k + 1];
            if !next.allocated && b.addr + HEADER_SIZE + b.bsize == next.addr {
                proof {
                    lemma_merge_next(s1, k as int);
                }
                self.blocks.set(k, Block { bsize: b.bsize + HEADER_SIZE + next.bsize, allocated: false, ..b });
                self.blocks.remove(k + 1);
            }
        }
        let ghost s2 = self@;
        if k > 0 {
            let prev = self.blocks[k - 1];
            let cur = self.blocks[k];
            if !prev.allocated && prev.addr + HEADER_SIZE + prev.bsize == cur.addr {
                proof {
                    lemma_merge_next(s2, k - 1);
                }
                self.blocks.set(k - 1, Block { bsize: prev.bsize + HEADER_SIZE + cur.bsize, ..prev });
                self.blocks.remove(k);
                at = k - 1;
            }
        }
        proof {
            let t = self@;
            assert(!t[at as int].allocated);
            assert(t[at as int].addr == merged_start(s0, k as int));
            assert(block_end(t[at as int]) == merged_end(s0, k as int));
            assert forall|kk: int| 0 <= kk < s0.len() && #[trigger] user_ptr(s0[kk]) == ptr implies kk == k by {
                lemma_unique_ptr(s0, kk, k as int);
            }
            let lo = merge_lo(s0, k as int);
            let hi = merge_hi(s0, k as int);
            assert(at == lo);
            assert(t.len() == s0.len() - (hi - lo));
            assert forall|i: int| 0 <= i < lo implies #[trigger] t[i] == s0[i] by {
                assert(s1[i] == s0[i]);
                assert(s2[i] == s1[i]);
            }
            assert forall|i: int| lo < i < t.len() implies #[trigger] t[i] == s0[i + (hi - lo)] by {
                if lo < k {
                    assert(t[i] == s2[i + 1]);
                    if hi > k {
                        assert(s2[i + 1] == s1[i + 2]);
                    }
                } else if hi > k {
                    assert(s2[i] == s1[i + 1]);
                }
            }
            lemma_freed_shape(s0, k as int, t);
        }
        Ok(())
    }
}

/// Marking allocated block `k` free takes its pointer, and only it, out of
/// the allocated ones.
proof fn lemma_mark_free(s: Seq<Block>, k: int)
    requires
        blocks_wf(s),
        0 <= k < s.len(),
        s[k].allocated,
    ensures
        ({
            let t = s.update(k, Block { allocated: false, ..s[k] });
            &&& blocks_wf(t)
            &&& forall|q: int| #[trigger] allocated_at(t, q) <==> (allocated_at(s, q) && q != user_ptr(s[k]))
        }),
{
    let t = s.update(k, Block { allocated: false, ..s[k] });
    assert forall|i: int, j: int| 0 <= i < j < t.len() implies block_end(#[trigger] t[i])
        <= (#[trigger] t[j]).addr by {
        assert(block_end(s[i]) <= s[j].addr);
    }
    assert forall|i: int| 0 <= i < t.len() implies #[trigger] t[i].addr % 16 == 0 && t[i].bsize % 16 == 0
        && t[i].bsize > 0 && block_end(t[i]) <= usize::MAX by {
        assert(s[i].addr % 16 == 0);
    }
    assert forall|q: int| #[trigger] allocated_at(t, q) <==> (allocated_at(s, q) && q != user_ptr(s[k])) by {
        if allocated_at(s, q) && q != user_ptr(s[k]) {
            let i = choose|i: int| 0 <= i < s.len() && s[i].allocated && #[trigger] user_ptr(s[i]) == q;
            assert(t[i].allocated && user_ptr(t[i]) == q);
        }
        if allocated_at(t, q) {
            let j = choose|j: int| 0 <= j < t.len() && t[j].allocated && #[trigger] user_ptr(t[j]) == q;
            assert(s[j].allocated && user_ptr(s[j]) == q);
            if q == user_ptr(s[k]) {
                lemma_unique_ptr(s, j, k);
            }
        }
    }
}

} // verus!
