use nucloid::sync::{
    current_cpu_index, pop_critical_region, push_critical_region, CpuLocal, CriticalRegion, Spinlock, MAX_CPUS,
};

#[test]
fn nested_critical_regions_keep_interrupts_off_until_the_last_leave() {
    let mut cr = CriticalRegion::new();
    assert!(push_critical_region(&mut cr));
    assert!(!cr.interrupts_enabled);
    assert!(!push_critical_region(&mut cr));
    assert!(!push_critical_region(&mut cr));
    assert_eq!(cr.depth, 3);
    assert!(!pop_critical_region(&mut cr));
    assert!(!cr.interrupts_enabled);
    assert!(!pop_critical_region(&mut cr));
    assert!(!cr.interrupts_enabled);
    assert!(pop_critical_region(&mut cr));
    assert!(cr.interrupts_enabled);
    assert_eq!(cr, CriticalRegion::new());
}

#[test]
fn spinlock_enters_a_region_while_held() {
    let mut cr = CriticalRegion::new();
    let mut lock = Spinlock::new(5u32);
    assert!(!lock.is_locked());
    assert!(lock.try_lock(&mut cr));
    assert!(lock.is_locked());
    assert_eq!(cr.depth, 1);
    assert!(!cr.interrupts_enabled);
    *lock.get_mut() += 1;
    assert!(!lock.try_lock(&mut cr));
    assert_eq!(cr.depth, 1);
    lock.unlock(&mut cr);
    assert!(!lock.is_locked());
    assert!(cr.interrupts_enabled);
    assert!(lock.try_lock(&mut cr));
    assert_eq!(*lock.get_mut(), 6);
    lock.unlock(&mut cr);
}

#[test]
fn cpu_local_values_are_per_cpu() {
    let mut cr = CriticalRegion::new();
    let locals = CpuLocal::new_copy(7u8);
    let idx = current_cpu_index(&mut cr);
    assert_eq!(cr.depth, 1);
    assert_eq!(idx.get(), 0);
    assert_eq!(*locals.get(&idx), 7);
    let items: Vec<u32> = (0..MAX_CPUS as u32).collect();
    let locals = CpuLocal::new(items);
    assert_eq!(*locals.get(&idx), 0);
    assert!(idx.release(&mut cr));
    assert_eq!(cr.depth, 0);
}
