//! A flat model of physical memory, as 64-bit words starting at physical
//! address 0. Page tables live in it and the allocators zero frames in it.

use vstd::prelude::*;

verus! {

/// The word at physical address `pa`; `None` when `pa` is not 8-byte aligned
/// or lies past the end of memory.
pub open spec fn word_at(mem: Seq<u64>, pa: int) -> Option<u64> {
    if 0 <= pa && pa % 8 == 0 && pa / 8 < mem.len() {
        Some(mem[pa / 8])
    } else {
        None
    }
}

/// Every word of the `nr_bytes` bytes from `pa` on is zero.
pub open spec fn zeroed(mem: Seq<u64>, pa: int, nr_bytes: int) -> bool {
    forall|i: int| pa / 8 <= i < (pa + nr_bytes) / 8 ==> #[trigger] mem[i] == 0
}

/// Physical memory: word `i` holds the bytes at physical addresses `8 * i` to
/// `8 * i + 7`.
pub struct VmMemory(pub Vec<u64>);

impl VmMemory {
    /// A memory of `nr_frames` frames of 4096 bytes, each word set to `fill`.
    pub fn new(nr_frames: usize, fill: u64) -> (r: VmMemory)
        requires
            nr_frames * 512 <= usize::MAX,
        ensures
            r.0@ == Seq::new((nr_frames * 512) as nat, |_i: int| fill),
    {
        let n: usize = nr_frames * 512;
        let mut words: Vec<u64> = Vec::new();
        while words.len() < n
            invariant
                words.len() <= n,
                forall|i: int| 0 <= i < words.len() ==> words@[i] == fill,
            decreases n - words.len(),
        {
            words.push(fill);
        }
        assert(words@ =~= Seq::new(n as nat, |_i: int| fill));
        VmMemory(words)
    }

    /// The number of bytes of memory.
    pub open spec fn byte_len(&self) -> int {
        self.0.len() * 8
    }

    /// The word at physical address `pa`.
    pub fn read_u64(&self, pa: u64) -> (r: Option<u64>)
        ensures
            r == word_at(self.0@, pa as int),
    {
        if pa % 8 != 0 || pa / 8 >= self.0.len() as u64 {
            None
        } else {
            Some(self.0[(pa / 8) as usize])
        }
    }

    /// Store `value` at physical address `pa`, which must hold a word.
    pub fn write_u64(&mut self, pa: u64, value: u64)
        requires
            word_at(old(self).0@, pa as int).is_some(),
        ensures
            final(self).0@ == old(self).0@.update(pa as int / 8, value),
    {
        assert((pa / 8) as int == pa as int / 8);
        assert(pa as int / 8 < self.0.len());
        let i: usize = (pa / 8) as usize;
        assert(i as int == pa as int / 8);
        self.0.set(i, value);
    }

    /// Set to zero the `nr_bytes` bytes from `pa` on, which must lie in memory
    /// and be 8-byte aligned; every other word is kept.
    pub fn zero(&mut self, pa: u64, nr_bytes: u64)
        requires
            pa % 8 == 0,
            nr_bytes % 8 == 0,
            pa + nr_bytes <= old(self).byte_len(),
        ensures
            final(self).0.len() == old(self).0.len(),
            zeroed(final(self).0@, pa as int, nr_bytes as int),
            forall|i: int|
                0 <= i < old(self).0.len() && !(pa / 8 <= i < (pa + nr_bytes) / 8)
                    ==> #[trigger] final(self).0@[i] == old(self).0@[i],
    {
        let start: usize = (pa / 8) as usize;
        let end: usize = (pa / 8 + nr_bytes / 8) as usize;
        let mut i: usize = start;
        while i < end
            invariant
                start <= i <= end,
                start == pa / 8,
                end == (pa + nr_bytes) / 8,
                end <= self.0.len(),
                self.0.len() == old(self).0.len(),
                forall|k: int| start <= k < i ==> #[trigger] self.0@[k] == 0,
                forall|k: int|
                    0 <= k < old(self).0.len() && !(start <= k < i)
                        ==> #[trigger] self.0@[k] == old(self).0@[k],
            decreases end - i,
        {
            self.0.set(i, 0);
            i = i + 1;
        }
    }
}

} // verus!
