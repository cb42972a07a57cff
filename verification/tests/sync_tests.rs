use rcore_os::sync::{ProcessSync, ShareResourceType, SyncAction};
use rcore_os::syscall::sync::{
    sys_condvar_create, sys_condvar_signal, sys_condvar_wait, sys_enable_deadlock_detect,
    sys_mutex_create, sys_mutex_lock, sys_mutex_unlock, sys_semaphore_create, sys_semaphore_down,
    sys_semaphore_up, DEADLOCK_REFUSED,
};

fn two_tasks_two_mutexes() -> ProcessSync {
    let mut p = ProcessSync::new(2);
    assert_eq!(sys_mutex_create(&mut p, true), 0);
    assert_eq!(sys_mutex_create(&mut p, true), 1);
    p
}

#[test]
fn mutex_create_adds_a_column_per_mutex() {
    let p = two_tasks_two_mutexes();
    assert_eq!(p.mutex_list.len(), 2);
    assert_eq!(
        p.share_resources,
        vec![ShareResourceType::ShareMutex(0), ShareResourceType::ShareMutex(1)]
    );
    assert_eq!(p.resource_available, vec![1, 1]);
    assert_eq!(p.resource_allocation, vec![vec![0, 0], vec![0, 0]]);
    assert_eq!(p.resource_need, vec![vec![0, 0], vec![0, 0]]);
}

#[test]
fn semaphore_create_counts_its_units() {
    let mut p = ProcessSync::new(3);
    assert_eq!(sys_semaphore_create(&mut p, 4), 0);
    assert_eq!(sys_mutex_create(&mut p, false), 0);
    assert_eq!(sys_semaphore_create(&mut p, 2), 1);
    assert_eq!(p.resource_available, vec![4, 1, 2]);
    assert_eq!(p.resource_allocation.len(), 3);
    assert_eq!(p.resource_need[2], vec![0, 0, 0]);
    assert_eq!(p.semaphore_list[1].as_ref().unwrap().count, 2);
}

#[test]
fn condvar_create_reuses_free_slots() {
    let mut p = ProcessSync::new(1);
    assert_eq!(sys_condvar_create(&mut p), 0);
    assert_eq!(sys_condvar_create(&mut p), 1);
    p.condvar_list[0] = None;
    assert_eq!(sys_condvar_create(&mut p), 0);
    assert_eq!(p.condvar_list.len(), 2);
}

#[test]
fn enable_deadlock_detect_accepts_only_zero_and_one() {
    let mut p = ProcessSync::new(1);
    assert_eq!(sys_enable_deadlock_detect(&mut p, 1), 0);
    assert!(p.enable_deadlock_detect);
    assert_eq!(sys_enable_deadlock_detect(&mut p, 2), -1);
    assert!(p.enable_deadlock_detect);
    assert_eq!(sys_enable_deadlock_detect(&mut p, 0), 0);
    assert!(!p.enable_deadlock_detect);
}

#[test]
fn deadlock_detection_refuses_the_closing_request() {
    let mut p = two_tasks_two_mutexes();
    sys_enable_deadlock_detect(&mut p, 1);
    // task 1 takes mutex 0, task 0 takes mutex 1
    assert_eq!(sys_mutex_lock(&mut p, 1, 0), SyncAction::Done(0));
    assert_eq!(sys_mutex_lock(&mut p, 0, 1), SyncAction::Done(0));
    assert_eq!(p.resource_available, vec![0, 0]);
    assert_eq!(p.resource_allocation, vec![vec![0, 1], vec![1, 0]]);
    // task 1 asks for mutex 1: task 0 can still finish, so task 1 waits
    assert_eq!(sys_mutex_lock(&mut p, 1, 1), SyncAction::Block);
    assert_eq!(p.resource_wait_queue, vec![1]);
    assert_eq!(p.resource_need, vec![vec![0, 0], vec![0, 1]]);
    // task 0 asks for mutex 0: nobody could finish, the request is refused
    assert_eq!(sys_mutex_lock(&mut p, 0, 0), SyncAction::Done(DEADLOCK_REFUSED));
    assert_eq!(DEADLOCK_REFUSED, -0xdead);
    assert_eq!(p.resource_need, vec![vec![0, 0], vec![0, 1]]);
    // task 0 lets mutex 1 go: task 1 gets it and is woken
    assert_eq!(sys_mutex_unlock(&mut p, 1), SyncAction::Wake(1));
    assert_eq!(p.resource_available, vec![0, 0]);
    assert_eq!(p.resource_allocation, vec![vec![0, 1], vec![1, 1]]);
    assert_eq!(p.resource_need, vec![vec![0, 0], vec![0, 0]]);
    assert!(p.resource_wait_queue.is_empty());
}

#[test]
fn deadlock_detection_gives_the_main_task_what_it_asks_for() {
    let mut p = two_tasks_two_mutexes();
    sys_enable_deadlock_detect(&mut p, 1);
    assert_eq!(sys_mutex_lock(&mut p, 1, 0), SyncAction::Done(0));
    // the state stays safe, and task 0 is served at once
    assert_eq!(sys_mutex_lock(&mut p, 0, 0), SyncAction::Done(0));
    assert_eq!(p.resource_available, vec![-1, 1]);
    assert_eq!(p.resource_allocation, vec![vec![1, 0], vec![1, 0]]);
}

#[test]
fn deadlock_detection_refuses_unknown_resources() {
    let mut p = two_tasks_two_mutexes();
    sys_enable_deadlock_detect(&mut p, 1);
    assert_eq!(sys_mutex_lock(&mut p, 0, 7), SyncAction::Done(-1));
    assert_eq!(sys_mutex_unlock(&mut p, 7), SyncAction::Done(-1));
    assert_eq!(sys_semaphore_down(&mut p, 0, 0), SyncAction::Done(-1));
    assert_eq!(sys_semaphore_up(&mut p, 0), SyncAction::Done(-1));
}

#[test]
fn deadlock_detection_counts_semaphore_units() {
    let mut p = ProcessSync::new(2);
    assert_eq!(sys_semaphore_create(&mut p, 1), 0);
    sys_enable_deadlock_detect(&mut p, 1);
    assert_eq!(sys_semaphore_down(&mut p, 1, 0), SyncAction::Done(0));
    assert_eq!(sys_semaphore_up(&mut p, 0), SyncAction::Done(0));
    assert_eq!(p.resource_available, vec![1]);
    assert_eq!(p.resource_allocation, vec![vec![0], vec![1]]);
}

#[test]
fn is_safety_on_a_textbook_state() {
    let mut p = ProcessSync::new(3);
    for _ in 0..2 {
        sys_semaphore_create(&mut p, 0);
    }
    p.resource_available = vec![1, 0];
    p.resource_allocation = vec![vec![1, 0], vec![0, 1], vec![0, 0]];
    p.resource_need = vec![vec![0, 1], vec![1, 0], vec![1, 1]];
    // task 1 can finish, then task 0, then task 2
    assert!(p.is_safety());
    p.resource_available = vec![0, 0];
    assert!(!p.is_safety());
}

#[test]
fn blocking_mutex_queues_and_hands_over() {
    let mut p = ProcessSync::new(3);
    sys_mutex_create(&mut p, true);
    assert_eq!(sys_mutex_lock(&mut p, 0, 0), SyncAction::Done(0));
    assert_eq!(sys_mutex_lock(&mut p, 1, 0), SyncAction::Block);
    assert_eq!(sys_mutex_lock(&mut p, 2, 0), SyncAction::Block);
    assert_eq!(sys_mutex_unlock(&mut p, 0), SyncAction::Wake(1));
    assert!(p.mutex_list[0].as_ref().unwrap().locked);
    assert_eq!(sys_mutex_unlock(&mut p, 0), SyncAction::Wake(2));
    assert_eq!(sys_mutex_unlock(&mut p, 0), SyncAction::Done(0));
    assert!(!p.mutex_list[0].as_ref().unwrap().locked);
}

#[test]
fn spinning_mutex_makes_the_task_yield() {
    let mut p = ProcessSync::new(2);
    sys_mutex_create(&mut p, false);
    assert_eq!(sys_mutex_lock(&mut p, 0, 0), SyncAction::Done(0));
    assert_eq!(sys_mutex_lock(&mut p, 1, 0), SyncAction::Yield);
    assert_eq!(sys_mutex_unlock(&mut p, 0), SyncAction::Done(0));
    assert_eq!(sys_mutex_lock(&mut p, 1, 0), SyncAction::Done(0));
}

#[test]
fn semaphore_blocks_below_zero_and_wakes_in_order() {
    let mut p = ProcessSync::new(3);
    sys_semaphore_create(&mut p, 1);
    assert_eq!(sys_semaphore_down(&mut p, 0, 0), SyncAction::Done(0));
    assert_eq!(sys_semaphore_down(&mut p, 1, 0), SyncAction::Block);
    assert_eq!(sys_semaphore_down(&mut p, 2, 0), SyncAction::Block);
    assert_eq!(p.semaphore_list[0].as_ref().unwrap().count, -2);
    assert_eq!(sys_semaphore_up(&mut p, 0), SyncAction::Wake(1));
    assert_eq!(sys_semaphore_up(&mut p, 0), SyncAction::Wake(2));
    assert_eq!(sys_semaphore_up(&mut p, 0), SyncAction::Done(0));
    assert_eq!(p.semaphore_list[0].as_ref().unwrap().count, 1);
}

#[test]
fn condvar_wait_releases_the_mutex_and_signal_wakes() {
    let mut p = ProcessSync::new(3);
    sys_mutex_create(&mut p, true);
    sys_condvar_create(&mut p);
    assert_eq!(sys_mutex_lock(&mut p, 1, 0), SyncAction::Done(0));
    assert_eq!(sys_mutex_lock(&mut p, 2, 0), SyncAction::Block);
    // task 1 waits: the mutex passes to task 2, task 1 queues
    assert_eq!(sys_condvar_wait(&mut p, 1, 0, 0), SyncAction::Wake(2));
    assert_eq!(p.condvar_list[0].as_ref().unwrap().wait_queue, vec![1]);
    assert_eq!(sys_condvar_signal(&mut p, 0), SyncAction::Wake(1));
    assert_eq!(sys_condvar_signal(&mut p, 0), SyncAction::Done(0));
}

#[test]
fn sleep_expires_after_the_delay() {
    assert_eq!(rcore_os::syscall::sync::sys_sleep(1000, 250), 1250);
    assert_eq!(rcore_os::syscall::sync::sys_sleep(0, 0), 0);
}

#[test]
fn reused_slots_keep_one_column_per_resource() {
    let mut p = ProcessSync::new(2);
    assert_eq!(sys_mutex_create(&mut p, true), 0);
    assert_eq!(sys_semaphore_create(&mut p, 2), 0);
    assert_eq!(sys_mutex_create(&mut p, false), 1);
    // a freed mutex slot is taken again, and its column is set up afresh
    p.mutex_list[0] = None;
    p.resource_available[0] = 0;
    assert_eq!(sys_mutex_create(&mut p, false), 0);
    assert_eq!(
        p.share_resources,
        vec![
            ShareResourceType::ShareMutex(0),
            ShareResourceType::ShareSemaphore(0),
            ShareResourceType::ShareMutex(1),
        ]
    );
    assert_eq!(p.resource_available, vec![1, 2, 1]);
}
