//! Critical regions, per-CPU values and the spinlock discipline.
//!
//! The hardware side (disabling and enabling interrupts) belongs to the
//! architecture layer: the functions here return what it has to do.

use vstd::prelude::*;

verus! {

/// The critical-region state of one CPU: how deeply nested the current
/// region is, and whether interrupts are enabled.
#[derive(Clone, Copy, Debug, PartialEq, Eq, Structural)]
pub struct CriticalRegion {
    pub depth: u32,
    pub interrupts_enabled: bool,
}

/// Entering a region: the depth grows and interrupts are off.
pub open spec fn entered(s: CriticalRegion) -> CriticalRegion {
    CriticalRegion { depth: (s.depth + 1) as u32, interrupts_enabled: false }
}

/// Leaving a region: the depth shrinks, and interrupts come back on when the
/// outermost region is left.
pub open spec fn left(s: CriticalRegion) -> CriticalRegion {
    CriticalRegion {
        depth: (s.depth - 1) as u32,
        interrupts_enabled: if s.depth == 1 { true } else { s.interrupts_enabled },
    }
}

/// The state after entering `k` nested regions.
pub open spec fn entered_n(s: CriticalRegion, k: nat) -> CriticalRegion
    decreases k,
{
    if k == 0 {
        s
    } else {
        entered(entered_n(s, (k - 1) as nat))
    }
}

/// The state after leaving `k` nested regions.
pub open spec fn left_n(s: CriticalRegion, k: nat) -> CriticalRegion
    decreases k,
{
    if k == 0 {
        s
    } else {
        left(left_n(s, (k - 1) as nat))
    }
}

/// Interrupts are enabled exactly when no region is entered.
pub open spec fn consistent(s: CriticalRegion) -> bool {
    s.interrupts_enabled <==> s.depth == 0
}

impl CriticalRegion {
    /// The state of a CPU outside any region, with interrupts enabled.
    pub fn new() -> (r: CriticalRegion)
        ensures
            r.depth == 0,
            r.interrupts_enabled,
    {
        CriticalRegion { depth: 0, interrupts_enabled: true }
    }
}

/// Enter a critical region. Returns whether interrupts must be disabled now,
/// which is the case when entering the outermost region.
pub fn push_critical_region(cr: &mut CriticalRegion) -> (disable: bool)
    requires
        old(cr).depth < u32::MAX,
    ensures
        *final(cr) == entered(*old(cr)),
        disable == (old(cr).depth == 0),
{
    let disable = cr.depth == 0;
    cr.depth = cr.depth + 1;
    cr.interrupts_enabled = false;
    disable
}

/// Leave a critical region, which must have been entered. Returns whether
/// interrupts must be enabled again, which is the case when leaving the
/// outermost region.
pub fn pop_critical_region(cr: &mut CriticalRegion) -> (enable: bool)
    requires
        old(cr).depth > 0,
    ensures
        *final(cr) == left(*old(cr)),
        enable == (old(cr).depth == 1),
{
    let enable = cr.depth == 1;
    cr.depth = cr.depth - 1;
    if enable {
        cr.interrupts_enabled = true;
    }
    enable
}

/// Entering `k` nested regions and leaving them all gives back the state
/// before, interrupts included; in between, interrupts stay disabled.
pub proof fn lemma_critical_region_nesting(s: CriticalRegion, k: nat)
    requires
        consistent(s),
        s.depth + k <= u32::MAX,
    ensures
        left_n(entered_n(s, k), k) == s,
        forall|j: nat| 1 <= j <= k ==> !(#[trigger] entered_n(s, j)).interrupts_enabled,
        forall|j: nat| j < k ==> !(#[trigger] left_n(entered_n(s, k), j)).interrupts_enabled,
{
    lemma_entered_depth(s, k);
    lemma_left_after_entered(s, k, k);
    assert forall|j: nat| 1 <= j <= k implies !(#[trigger] entered_n(s, j)).interrupts_enabled by {
        lemma_entered_depth(s, j);
    }
    assert forall|j: nat| j < k implies !(#[trigger] left_n(entered_n(s, k), j)).interrupts_enabled by {
        lemma_left_after_entered(s, k, j);
    }
}

proof fn lemma_entered_depth(s: CriticalRegion, k: nat)
    requires
        s.depth + k <= u32::MAX,
    ensures
        entered_n(s, k).depth == s.depth + k,
        k > 0 ==> !entered_n(s, k).interrupts_enabled,
        k == 0 ==> entered_n(s, k) == s,
    decreases k,
{
    if k > 0 {
        lemma_entered_depth(s, (k - 1) as nat);
    }
}

/// Leaving `j` of the `k` regions entered from `s`.
proof fn lemma_left_after_entered(s: CriticalRegion, k: nat, j: nat)
    requires
        consistent(s),
        s.depth + k <= u32::MAX,
        j <= k,
    ensures
        left_n(entered_n(s, k), j).depth == s.depth + k - j,
        j < k ==> !left_n(entered_n(s, k), j).interrupts_enabled,
        j == k ==> left_n(entered_n(s, k), j) == s,
    decreases j,
{
    lemma_entered_depth(s, k);
    if j > 0 {
        lemma_left_after_entered(s, k, (j - 1) as nat);
    }
}

/// The number of CPUs that per-CPU values are kept for.
pub const MAX_CPUS: usize = 32;

/// The index of the CPU that runs the holder, valid while the holder stays in
/// the critical region entered to obtain it.
pub struct CpuIndex(usize);

impl CpuIndex {
    pub closed spec fn index(&self) -> int {
        self.0 as int
    }

    pub fn get(&self) -> (r: usize)
        ensures
            r == self.index(),
    {
        self.0
    }

    /// Give the index up and leave the region entered to obtain it.
    pub fn release(self, cr: &mut CriticalRegion) -> (enable: bool)
        requires
            old(cr).depth > 0,
        ensures
            *final(cr) == left(*old(cr)),
            enable == (old(cr).depth == 1),
    {
        pop_critical_region(cr)
    }
}

/// Enter a critical region and return the index of the current CPU, which
/// stays valid until the index is released. Only CPU 0 runs for now.
pub fn current_cpu_index(cr: &mut CriticalRegion) -> (r: CpuIndex)
    requires
        old(cr).depth < u32::MAX,
    ensures
        *final(cr) == entered(*old(cr)),
        r.index() == 0,
{
    push_critical_region(cr);
    CpuIndex(0)
}

/// One value per CPU.
pub struct CpuLocal<T>(Vec<T>);

impl<T> View for CpuLocal<T> {
    type V = Seq<T>;

    closed spec fn view(&self) -> Seq<T> {
        self.0@
    }
}

impl<T> CpuLocal<T> {
    /// The values, one per CPU: `items` must hold `MAX_CPUS` of them.
    pub fn new(items: Vec<T>) -> (r: Self)
        requires
            items.len() == MAX_CPUS,
        ensures
            r@ == items@,
    {
        CpuLocal(items)
    }

    /// The current CPU's value.
    pub fn get(&self, cpu_index: &CpuIndex) -> (r: &T)
        requires
            self@.len() == MAX_CPUS,
            cpu_index.index() < MAX_CPUS,
        ensures
            *r == self@[cpu_index.index()],
    {
        &self.0[cpu_index.get()]
    }
}

impl<T: Copy> CpuLocal<T> {
    /// The same value for every CPU.
    pub fn new_copy(item: T) -> (r: Self)
        ensures
            r@ == Seq::new(MAX_CPUS as nat, |_i: int| item),
    {
        let mut v: Vec<T> = Vec::new();
        while v.len() < MAX_CPUS
            invariant
                v.len() <= MAX_CPUS,
                forall|i: int| 0 <= i < v.len() ==> v@[i] == item,
            decreases MAX_CPUS - v.len(),
        {
            v.push(item);
        }
        assert(v@ =~= Seq::new(MAX_CPUS as nat, |_i: int| item));
        CpuLocal(v)
    }
}

/// A lock around a value. Taking it enters a critical region, so that the
/// holder is never interrupted; giving it back leaves the region.
pub struct Spinlock<T> {
    locked: bool,
    data: T,
}

impl<T> Spinlock<T> {
    pub closed spec fn held(&self) -> bool {
        self.locked
    }

    pub closed spec fn value(&self) -> T {
        self.data
    }

    pub fn new(value: T) -> (r: Self)
        ensures
            !r.held(),
            r.value() == value,
    {
        Spinlock { locked: false, data: value }
    }

    /// Whether the lock is held right now.
    pub fn is_locked(&self) -> (r: bool)
        ensures
            r == self.held(),
    {
        self.locked
    }

    /// One attempt to take the lock. A critical region is entered first; if
    /// the lock is held, the region is left again so that interrupts can run
    /// while the caller spins, and `false` is returned.
    pub fn try_lock(&mut self, cr: &mut CriticalRegion) -> (acquired: bool)
        requires
            old(cr).depth < u32::MAX,
        ensures
            acquired == !old(self).held(),
            final(self).held(),
            final(self).value() == old(self).value(),
            acquired ==> *final(cr) == entered(*old(cr)),
            !acquired ==> *final(cr) == left(entered(*old(cr))),
    {
        push_critical_region(cr);
        if self.locked {
            pop_critical_region(cr);
            false
        } else {
            self.locked = true;
            true
        }
    }

    /// The protected value; the lock must be held.
    pub fn get_mut(&mut self) -> (r: &mut T)
        requires
            old(self).held(),
        ensures
            *r == old(self).value(),
            final(self).value() == *final(r),
            final(self).held(),
    {
        &mut self.data
    }

    /// Give the lock back and leave the critical region it was taken in.
    pub fn unlock(&mut self, cr: &mut CriticalRegion)
        requires
            old(self).held(),
            old(cr).depth > 0,
        ensures
            !final(self).held(),
            final(self).value() == old(self).value(),
            *final(cr) == left(*old(cr)),
    {
        self.locked = false;
        pop_critical_region(cr);
    }
}

} // verus!
