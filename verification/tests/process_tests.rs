use rcore_os::syscall::process::{
    sys_get_time, sys_waitpid, time_val_from_us, ChildProcess, TimeVal, WaitResult,
};

fn child(pid: usize, is_zombie: bool, exit_code: i32) -> ChildProcess {
    ChildProcess { pid, is_zombie, exit_code }
}

#[test]
fn waitpid_without_children_gives_minus_one() {
    let mut c: Vec<ChildProcess> = Vec::new();
    let r = sys_waitpid(&mut c, -1);
    assert_eq!(r, WaitResult::NoChild);
    assert_eq!(r.code(), -1);
}

#[test]
fn waitpid_on_running_children_gives_minus_two() {
    let mut c = vec![child(3, false, 0), child(4, false, 0)];
    let r = sys_waitpid(&mut c, 4);
    assert_eq!(r, WaitResult::NotExited);
    assert_eq!(r.code(), -2);
    assert_eq!(sys_waitpid(&mut c, 9), WaitResult::NoChild);
    assert_eq!(c.len(), 2);
}

#[test]
fn waitpid_reaps_the_first_exited_match() {
    let mut c = vec![child(3, false, 0), child(4, true, 7), child(5, true, 9)];
    let r = sys_waitpid(&mut c, -1);
    assert_eq!(r, WaitResult::Reaped { pid: 4, exit_code: 7 });
    assert_eq!(r.code(), 4);
    assert_eq!(c, vec![child(3, false, 0), child(5, true, 9)]);
    assert_eq!(sys_waitpid(&mut c, 5), WaitResult::Reaped { pid: 5, exit_code: 9 });
    assert_eq!(c, vec![child(3, false, 0)]);
}

#[test]
fn time_splits_microseconds() {
    assert_eq!(time_val_from_us(3_250_000), TimeVal { sec: 3, usec: 250_000 });
    assert_eq!(sys_get_time(1, 999_999), Some(TimeVal { sec: 0, usec: 999_999 }));
    assert_eq!(sys_get_time(0, 5), None);
}
