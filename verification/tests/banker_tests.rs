use os_sync::banker::{ResType, ResourceManager};
use os_sync::process::ProcessSync;
use os_sync::sync_call::{
    finish_semaphore_down, sys_enable_deadlock_detect, sys_semaphore_create, sys_semaphore_down, sys_semaphore_up,
};

fn manager(available: Vec<i32>, allocation: Vec<Vec<usize>>, need: Vec<Vec<usize>>, res_types: Vec<ResType>) -> ResourceManager {
    ResourceManager { available, allocation, need, res_types }
}

#[test]
fn new_manager_is_empty() {
    let rm = ResourceManager::new();
    assert!(rm.available.is_empty());
    assert!(rm.allocation.is_empty());
    assert!(rm.need.is_empty());
    assert!(rm.res_types.is_empty());
}

#[test]
fn add_thread_gives_rows_one_longer_than_resources() {
    let mut rm = ResourceManager::new();
    rm.add_thread(0);
    assert_eq!(rm.allocation, vec![vec![0usize]]);
    assert_eq!(rm.need, vec![vec![0usize]]);
}

#[test]
fn add_thread_fills_rows_up_to_tid() {
    let mut rm = ResourceManager::new();
    rm.add_thread(0);
    rm.add_resource(0, 0, ResType::Mutex, 1);
    rm.add_thread(2);
    assert_eq!(rm.allocation.len(), 3);
    assert_eq!(rm.need.len(), 3);
    assert_eq!(rm.allocation[1], vec![0usize, 0]);
    assert_eq!(rm.allocation[2], vec![0usize, 0]);
    assert_eq!(rm.allocation[0], vec![0usize]);
}

#[test]
fn add_thread_known_changes_nothing() {
    let mut rm = ResourceManager::new();
    rm.add_thread(1);
    rm.allocation[0][0] = 4;
    rm.add_thread(0);
    rm.add_thread(1);
    assert_eq!(rm.allocation, vec![vec![4usize], vec![0]]);
    assert_eq!(rm.need, vec![vec![0usize], vec![0]]);
}

#[test]
fn add_resource_grows_tables_and_all_rows() {
    let mut rm = ResourceManager::new();
    rm.add_thread(0);
    rm.add_thread(1);
    rm.add_resource(2, 0, ResType::Semaphore, 3);
    assert_eq!(rm.available, vec![0, 0, 3]);
    assert_eq!(rm.res_types, vec![ResType::Mutex, ResType::Mutex, ResType::Semaphore]);
    assert_eq!(rm.allocation[0], vec![0usize, 0, 0]);
    assert_eq!(rm.need[0], vec![0usize, 0, 0]);
    // every thread's rows cover every resource
    assert_eq!(rm.allocation[1], vec![0usize, 0, 0]);
    assert_eq!(rm.need[1], vec![0usize, 0, 0]);
}

#[test]
fn add_resource_reuses_existing_slot() {
    let mut rm = ResourceManager::new();
    rm.add_thread(0);
    rm.add_resource(1, 0, ResType::Semaphore, 2);
    rm.add_resource(0, 0, ResType::Mutex, 1);
    assert_eq!(rm.available, vec![1, 2]);
    assert_eq!(rm.res_types, vec![ResType::Mutex, ResType::Semaphore]);
    assert_eq!(rm.allocation[0].len(), 2);
}

#[test]
fn add_resource_total_wraps_into_i32() {
    let mut rm = ResourceManager::new();
    rm.add_thread(0);
    rm.add_resource(0, 0, ResType::Semaphore, (1usize << 32) + 5);
    assert_eq!(rm.available, vec![5]);
}

#[test]
fn is_safe_refuses_mutex_without_free_unit() {
    let rm = manager(vec![0], vec![vec![1], vec![0]], vec![vec![0], vec![1]], vec![ResType::Mutex]);
    assert!(!rm.is_safe(1, 0));
}

#[test]
fn is_safe_admits_semaphore_without_free_unit_when_holder_can_finish() {
    // thread 0 holds the only unit and needs nothing more; thread 1 waits for it
    let rm = manager(vec![0], vec![vec![1], vec![0]], vec![vec![0], vec![1]], vec![ResType::Semaphore]);
    assert!(rm.is_safe(1, 0));
}

#[test]
fn is_safe_textbook_safe_state() {
    // five threads, three resources, the classic safe example (order 1, 3, 4, 0, 2)
    let rm = manager(
        vec![3, 3, 2],
        vec![vec![0, 1, 0], vec![2, 0, 0], vec![3, 0, 2], vec![2, 1, 1], vec![0, 0, 2]],
        vec![vec![7, 4, 3], vec![1, 2, 2], vec![6, 0, 0], vec![0, 1, 1], vec![4, 3, 1]],
        vec![ResType::Semaphore, ResType::Semaphore, ResType::Semaphore],
    );
    assert!(rm.is_safe(0, 0));
}

#[test]
fn is_safe_textbook_unsafe_state() {
    let rm = manager(
        vec![0, 0, 1],
        vec![vec![1, 0, 0], vec![0, 1, 0], vec![0, 0, 1]],
        vec![vec![0, 1, 1], vec![1, 0, 1], vec![1, 1, 1]],
        vec![ResType::Semaphore, ResType::Semaphore, ResType::Semaphore],
    );
    assert!(!rm.is_safe(0, 2));
}

#[test]
fn is_safe_cross_waiting_semaphores_is_unsafe() {
    // each thread holds one semaphore unit and waits for the other's
    let rm = manager(
        vec![0, 0],
        vec![vec![1, 0], vec![0, 1]],
        vec![vec![0, 1], vec![1, 0]],
        vec![ResType::Semaphore, ResType::Semaphore],
    );
    assert!(!rm.is_safe(0, 1));
}

#[test]
fn is_safe_no_need_is_safe() {
    let rm = manager(
        vec![1, 0],
        vec![vec![0, 2], vec![1, 0]],
        vec![vec![0, 0], vec![0, 0]],
        vec![ResType::Semaphore, ResType::Mutex],
    );
    assert!(rm.is_safe(0, 0));
}

#[test]
fn is_safe_with_no_threads() {
    let rm = manager(vec![1], vec![], vec![], vec![ResType::Mutex]);
    assert!(rm.is_safe(0, 0));
}

#[test]
fn ready_for_check_accepts_registered_state() {
    let mut rm = ResourceManager::new();
    rm.add_thread(0);
    rm.add_resource(0, 0, ResType::Mutex, 1);
    rm.add_thread(1);
    assert!(rm.ready_for_check());
}

#[test]
fn add_resource_keeps_rows_covering_so_check_can_run() {
    let mut rm = ResourceManager::new();
    rm.add_thread(0);
    rm.add_thread(1);
    rm.add_resource(3, 0, ResType::Mutex, 1);
    assert!(rm.ready_for_check());
    assert!(rm.allocation.iter().all(|row| row.len() == 4));
    assert!(rm.need.iter().all(|row| row.len() == 4));
}

#[test]
fn ready_for_check_rejects_short_rows() {
    let rm = manager(vec![1, 1], vec![vec![0, 0], vec![0]], vec![vec![0, 0], vec![0]], vec![ResType::Mutex, ResType::Mutex]);
    assert!(!rm.ready_for_check());
}

#[test]
fn add_resource_twice_equals_once() {
    let mut a = ResourceManager::new();
    a.add_thread(0);
    a.add_thread(1);
    a.add_resource(2, 1, ResType::Semaphore, 4);
    let (av, al, ne, ty) = (a.available.clone(), a.allocation.clone(), a.need.clone(), a.res_types.clone());
    a.add_resource(2, 1, ResType::Semaphore, 4);
    assert_eq!((a.available, a.allocation, a.need, a.res_types), (av, al, ne, ty));
}

#[test]
fn ready_for_check_rejects_overflowing_totals() {
    let rm = manager(vec![i32::MAX], vec![vec![1]], vec![vec![0]], vec![ResType::Semaphore]);
    assert!(!rm.ready_for_check());
    let rm = manager(vec![i32::MAX - 1], vec![vec![1]], vec![vec![0]], vec![ResType::Semaphore]);
    assert!(rm.ready_for_check());
}

#[test]
fn ready_for_check_rejects_mismatched_shapes() {
    let rm = manager(vec![1], vec![vec![0]], vec![], vec![ResType::Mutex]);
    assert!(!rm.ready_for_check());
    let rm = manager(vec![1], vec![vec![0]], vec![vec![0]], vec![]);
    assert!(!rm.ready_for_check());
    let rm = manager(vec![1], vec![vec![0]], vec![vec![0, 0]], vec![ResType::Mutex]);
    assert!(!rm.ready_for_check());
}

#[test]
fn request_grant_release_checks() {
    let rm = manager(vec![1], vec![vec![0]], vec![vec![1]], vec![ResType::Mutex]);
    assert!(rm.request_allowed(0, 0));
    assert!(!rm.request_allowed(1, 0));
    assert!(!rm.request_allowed(0, 1));
    assert!(rm.grant_allowed(0, 0));
    assert!(!rm.release_allowed(0, 0));
    let rm = manager(vec![0], vec![vec![1]], vec![vec![0]], vec![ResType::Mutex]);
    assert!(!rm.grant_allowed(0, 0));
    assert!(rm.release_allowed(0, 0));
    let rm = manager(vec![0], vec![vec![0]], vec![vec![usize::MAX]], vec![ResType::Mutex]);
    assert!(!rm.request_allowed(0, 0));
}

fn column_totals(rm: &ResourceManager) -> Vec<i64> {
    (0..rm.available.len())
        .map(|j| rm.available[j] as i64 + rm.allocation.iter().map(|row| row[j] as i64).sum::<i64>())
        .collect()
}

#[test]
fn grant_and_release_keep_column_totals() {
    let mut p: ProcessSync<u8, u8, u8> = ProcessSync::new();
    sys_enable_deadlock_detect(&mut p, 1);
    let mut rm = ResourceManager::new();
    rm.add_thread(0);
    rm.add_thread(1);
    sys_semaphore_create(&mut p, &mut rm, 0, 3, 1);
    let totals = column_totals(&rm);
    sys_semaphore_down(&p, &mut rm, 1, 0);
    finish_semaphore_down(&p, &mut rm, 1, 0);
    assert_eq!(column_totals(&rm), totals);
    sys_semaphore_down(&p, &mut rm, 0, 0);
    finish_semaphore_down(&p, &mut rm, 0, 0);
    assert_eq!(column_totals(&rm), totals);
    sys_semaphore_up(&p, &mut rm, 1, 0);
    assert_eq!(column_totals(&rm), totals);
    assert_eq!(rm.available, vec![2]);
}

fn textbook(order: &[usize]) -> ResourceManager {
    let allocation = vec![vec![0usize, 1, 0], vec![2, 0, 0], vec![3, 0, 2], vec![2, 1, 1], vec![0, 0, 2]];
    let need = vec![vec![7usize, 4, 3], vec![1, 2, 2], vec![6, 0, 0], vec![0, 1, 1], vec![4, 3, 1]];
    manager(
        vec![3, 3, 2],
        order.iter().map(|&i| allocation[i].clone()).collect(),
        order.iter().map(|&i| need[i].clone()).collect(),
        vec![ResType::Semaphore, ResType::Semaphore, ResType::Semaphore],
    )
}

#[test]
fn safety_verdict_ignores_thread_order() {
    assert!(textbook(&[0, 1, 2, 3, 4]).is_safe(0, 0));
    assert!(textbook(&[4, 3, 2, 1, 0]).is_safe(0, 0));
    assert!(textbook(&[2, 0, 4, 1, 3]).is_safe(0, 0));
}

#[test]
fn more_need_never_makes_a_state_safer() {
    let mut rm = textbook(&[0, 1, 2, 3, 4]);
    assert!(rm.is_safe(0, 0));
    // thread 1 now waits for far more than the system has: unsafe
    rm.need[1] = vec![9, 9, 9];
    rm.need[3] = vec![9, 9, 9];
    rm.need[0] = vec![9, 9, 9];
    assert!(!rm.is_safe(0, 0));
    // more need on top of an unsafe state keeps it unsafe
    rm.need[2] = vec![9, 9, 9];
    assert!(!rm.is_safe(0, 0));
}
