use rcore_os::config::{BIG_STRIDE, TASK_INIT_PRIORITY};
use rcore_os::syscall::process::sys_set_priority;
use rcore_os::task::manager::{StrideTask, TaskManager};

fn task(id: usize, stride: u64, pass: u64) -> StrideTask {
    StrideTask { id, stride, pass }
}

#[test]
fn fetch_gives_the_smallest_stride_first() {
    let mut m = TaskManager::new();
    m.add(task(1, 50, 10));
    m.add(task(2, 5, 10));
    m.add(task(3, 20, 10));
    assert_eq!(m.fetch(), Some(task(2, 15, 10)));
    assert_eq!(m.fetch(), Some(task(3, 30, 10)));
    assert_eq!(m.fetch(), Some(task(1, 60, 10)));
    assert_eq!(m.fetch(), None);
}

#[test]
fn new_task_has_initial_priority_pass() {
    let t = StrideTask::new(4);
    assert_eq!(t.stride, 0);
    assert_eq!(t.pass, BIG_STRIDE / TASK_INIT_PRIORITY);
}

#[test]
fn stride_step_wraps_and_clear_resets() {
    let mut t = task(1, u64::MAX - 1, 10);
    assert!(t.stride_overflow());
    assert_eq!(t.stride_add_step(), 8);
    assert!(!t.stride_overflow());
    t.stride_clear();
    assert_eq!(t.stride, 0);
}

#[test]
fn overflowing_task_waits_in_the_other_queue() {
    let mut m = TaskManager::new();
    m.add(task(1, u64::MAX - 1, 10)); // overflows: inactive queue, stride 8
    m.add(task(2, 100, 10)); // rewind period: active queue, stride 110
    assert_eq!(m.fetch(), Some(task(2, 110, 10)));
    // the active queue is empty: the queues swap
    assert_eq!(m.fetch(), Some(task(1, 8, 10)));
    assert_eq!(m.fetch(), None);
}

#[test]
fn rewind_counter_resets_strides_in_the_upper_half() {
    let mut m = TaskManager::new();
    m.add(task(1, u64::MAX, 1)); // overflow: counter 1
    assert_eq!(m.fetch(), Some(task(1, 0, 1))); // swap, rewind period over
    m.add(task(2, u64::MAX / 2 + 5, 1)); // counter runs down: stride reset to 0
    assert_eq!(m.fetch(), Some(task(2, 0, 1)));
    m.add(task(3, 7, 1)); // counter is zero: plain step
    assert_eq!(m.fetch(), Some(task(3, 8, 1)));
}

#[test]
fn set_priority_sets_the_pass() {
    let mut t = task(1, 0, 1);
    assert_eq!(sys_set_priority(&mut t, 1), -1);
    assert_eq!(t.pass, 1);
    assert_eq!(sys_set_priority(&mut t, 2), 2);
    assert_eq!(t.pass, BIG_STRIDE / 2);
    assert_eq!(sys_set_priority(&mut t, 16), 16);
    assert_eq!(t.pass, BIG_STRIDE / 16);
}

#[test]
fn strides_stay_within_half_the_big_stride() {
    let mut m = TaskManager::new();
    let mut prios = [2isize, 3, 5, 8];
    let mut tasks = Vec::new();
    for (i, p) in prios.iter_mut().enumerate() {
        let mut t = StrideTask::new(i);
        sys_set_priority(&mut t, *p);
        tasks.push(t);
    }
    for t in tasks {
        m.add(t);
    }
    for _ in 0..100 {
        let t = m.fetch().unwrap();
        assert!(!t.stride_overflow());
        m.add(t);
        let mut all = Vec::new();
        while let Some(u) = m.fetch() {
            all.push(u);
        }
        let max = all.iter().map(|u| u.stride).max().unwrap();
        let min = all.iter().map(|u| u.stride).min().unwrap();
        assert!(max - min <= BIG_STRIDE / 2);
        for u in all {
            // put them back without a step: undo the step that add makes
            m.add(StrideTask { stride: u.stride - u.pass, ..u });
        }
    }
}
