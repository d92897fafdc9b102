use os_sync::banker::{ResType, ResourceManager};
use os_sync::process::{insert_first_free, ProcessSync};
use os_sync::sync_call::{
    finish_mutex_lock, finish_semaphore_down, sys_condvar_create, sys_condvar_signal, sys_condvar_wait,
    sys_enable_deadlock_detect, sys_mutex_create, sys_mutex_lock, sys_mutex_unlock, sys_semaphore_create,
    sys_semaphore_down, sys_semaphore_up, MutexKind, SyscallStep, DEADLOCK_ERROR,
};

type Proc = ProcessSync<&'static str, &'static str, &'static str>;

fn detecting_process(threads: usize) -> (Proc, ResourceManager) {
    let mut p: Proc = ProcessSync::new();
    assert_eq!(sys_enable_deadlock_detect(&mut p, 1), 0);
    let mut rm = ResourceManager::new();
    for tid in 0..threads {
        rm.add_thread(tid);
    }
    (p, rm)
}

#[test]
fn deadlock_error_value() {
    assert_eq!(DEADLOCK_ERROR, -0xDEAD);
}

#[test]
fn insert_first_free_fills_holes_first() {
    let mut slots: Vec<Option<u8>> = vec![Some(1), None, Some(3), None];
    assert_eq!(insert_first_free(&mut slots, 9), 1);
    assert_eq!(slots, vec![Some(1), Some(9), Some(3), None]);
    assert_eq!(insert_first_free(&mut slots, 8), 3);
    assert_eq!(insert_first_free(&mut slots, 7), 4);
    assert_eq!(slots, vec![Some(1), Some(9), Some(3), Some(8), Some(7)]);
}

#[test]
fn mutex_create_without_detection_leaves_manager() {
    let mut p: Proc = ProcessSync::new();
    let mut rm = ResourceManager::new();
    assert_eq!(sys_mutex_create(&mut p, &mut rm, 0, "m0"), 0);
    assert_eq!(sys_mutex_create(&mut p, &mut rm, 0, "m1"), 1);
    assert_eq!(p.mutex_list, vec![Some("m0"), Some("m1")]);
    assert!(rm.available.is_empty());
    p.mutex_list[0] = None;
    assert_eq!(sys_mutex_create(&mut p, &mut rm, 0, "m2"), 0);
    assert_eq!(p.mutex_list, vec![Some("m2"), Some("m1")]);
}

#[test]
fn mutex_create_with_detection_registers_one_unit() {
    let (mut p, mut rm) = detecting_process(1);
    assert_eq!(sys_mutex_create(&mut p, &mut rm, 0, "m0"), 0);
    assert_eq!(rm.available, vec![1]);
    assert_eq!(rm.res_types, vec![ResType::Mutex]);
}

#[test]
fn semaphore_create_with_detection_registers_count() {
    let (mut p, mut rm) = detecting_process(1);
    assert_eq!(sys_semaphore_create(&mut p, &mut rm, 0, 3, "s0"), 0);
    assert_eq!(sys_semaphore_create(&mut p, &mut rm, 0, 2, "s1"), 1);
    assert_eq!(rm.available, vec![3, 2]);
    assert_eq!(rm.res_types, vec![ResType::Semaphore, ResType::Semaphore]);
    assert_eq!(p.semaphore_list, vec![Some("s0"), Some("s1")]);
    assert!(p.mutex_list.is_empty());
}

#[test]
fn mutex_lock_without_detection_proceeds() {
    let mut p: Proc = ProcessSync::new();
    let mut rm = ResourceManager::new();
    sys_mutex_create(&mut p, &mut rm, 0, "m0");
    assert_eq!(sys_mutex_lock(&p, &mut rm, 0, 0), SyscallStep::Proceed);
    assert_eq!(finish_mutex_lock(&p, &mut rm, 0, 0), 0);
    assert_eq!(sys_mutex_unlock(&p, &mut rm, 0, 0), 0);
    assert!(rm.allocation.is_empty());
}

#[test]
fn mutex_lock_unlock_round_trip_with_detection() {
    let (mut p, mut rm) = detecting_process(2);
    sys_mutex_create(&mut p, &mut rm, 0, "m0");
    assert_eq!(sys_mutex_lock(&p, &mut rm, 0, 0), SyscallStep::Proceed);
    assert_eq!(rm.need[0], vec![1usize]);
    assert_eq!(finish_mutex_lock(&p, &mut rm, 0, 0), 0);
    assert_eq!(rm.allocation[0], vec![1usize]);
    assert_eq!(rm.need[0], vec![0usize]);
    assert_eq!(rm.available, vec![0]);
    assert_eq!(sys_mutex_unlock(&p, &mut rm, 0, 0), 0);
    assert_eq!(rm.allocation[0], vec![0usize]);
    assert_eq!(rm.available, vec![1]);
}

#[test]
fn mutex_lock_on_held_mutex_is_refused_and_changes_nothing() {
    let (mut p, mut rm) = detecting_process(2);
    sys_mutex_create(&mut p, &mut rm, 0, "m0");
    sys_mutex_lock(&p, &mut rm, 0, 0);
    finish_mutex_lock(&p, &mut rm, 0, 0);
    let before = (rm.available.clone(), rm.allocation.clone(), rm.need.clone());
    assert_eq!(sys_mutex_lock(&p, &mut rm, 1, 0), SyscallStep::Finish(DEADLOCK_ERROR));
    assert_eq!((rm.available.clone(), rm.allocation.clone(), rm.need.clone()), before);
}

#[test]
fn semaphore_cross_wait_is_refused() {
    let (mut p, mut rm) = detecting_process(2);
    // thread 0 creates both semaphores; thread 1's rows grow to cover them
    sys_semaphore_create(&mut p, &mut rm, 0, 1, "a");
    sys_semaphore_create(&mut p, &mut rm, 0, 1, "b");
    assert_eq!(rm.allocation[1], vec![0usize, 0]);
    assert_eq!(sys_semaphore_down(&p, &mut rm, 0, 0), SyscallStep::Proceed);
    assert_eq!(finish_semaphore_down(&p, &mut rm, 0, 0), 0);
    assert_eq!(sys_semaphore_down(&p, &mut rm, 1, 1), SyscallStep::Proceed);
    assert_eq!(finish_semaphore_down(&p, &mut rm, 1, 1), 0);
    // thread 0 holds a and wants b: still safe, thread 1 can finish first
    assert_eq!(sys_semaphore_down(&p, &mut rm, 0, 1), SyscallStep::Proceed);
    assert_eq!(rm.need[0], vec![0usize, 1]);
    // thread 1 holds b and now wants a: nobody could finish
    let before = rm.need.clone();
    assert_eq!(sys_semaphore_down(&p, &mut rm, 1, 0), SyscallStep::Finish(DEADLOCK_ERROR));
    assert_eq!(rm.need, before);
}

#[test]
fn semaphore_down_up_round_trip() {
    let (mut p, mut rm) = detecting_process(1);
    sys_semaphore_create(&mut p, &mut rm, 0, 2, "s");
    assert_eq!(sys_semaphore_down(&p, &mut rm, 0, 0), SyscallStep::Proceed);
    assert_eq!(finish_semaphore_down(&p, &mut rm, 0, 0), 0);
    assert_eq!(rm.available, vec![1]);
    assert_eq!(rm.allocation[0], vec![1usize]);
    assert_eq!(sys_semaphore_up(&p, &mut rm, 0, 0), 0);
    assert_eq!(rm.available, vec![2]);
    assert_eq!(rm.allocation[0], vec![0usize]);
    assert_eq!(rm.need[0], vec![0usize]);
}

#[test]
fn condvar_create_signal_wait_find_objects() {
    let mut p: Proc = ProcessSync::new();
    let mut rm = ResourceManager::new();
    assert_eq!(sys_condvar_create(&mut p, "c0"), 0);
    assert_eq!(sys_condvar_create(&mut p, "c1"), 1);
    sys_mutex_create(&mut p, &mut rm, 0, "m0");
    assert_eq!(*sys_condvar_signal(&p, 1), "c1");
    let (c, m) = sys_condvar_wait(&p, 0, 0);
    assert_eq!((*c, *m), ("c0", "m0"));
}

#[test]
fn enable_deadlock_detect_sets_flag() {
    let mut p: Proc = ProcessSync::new();
    assert!(!p.is_deadlock_detect);
    assert_eq!(sys_enable_deadlock_detect(&mut p, 7), 0);
    assert!(p.is_deadlock_detect);
    assert_eq!(sys_enable_deadlock_detect(&mut p, 0), 0);
    assert!(!p.is_deadlock_detect);
}

#[test]
fn process_lookups() {
    let mut p: Proc = ProcessSync::new();
    let mut rm = ResourceManager::new();
    sys_mutex_create(&mut p, &mut rm, 0, "m0");
    sys_semaphore_create(&mut p, &mut rm, 0, 1, "s0");
    sys_condvar_create(&mut p, "c0");
    assert_eq!(*p.mutex(0), "m0");
    assert_eq!(*p.semaphore(0), "s0");
    assert_eq!(*p.condvar(0), "c0");
}

#[test]
fn mutex_kind_follows_blocking_flag() {
    assert_eq!(MutexKind::from_blocking(true), MutexKind::Blocking);
    assert_eq!(MutexKind::from_blocking(false), MutexKind::Spin);
}
