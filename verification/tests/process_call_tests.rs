use os_sync::process_call::{sys_get_time, sys_sbrk, sys_sleep, sys_trace, TimeVal, TraceAction, MICROS_PER_SEC};

#[test]
fn get_time_splits_microseconds() {
    assert_eq!(sys_get_time(1_234_567), TimeVal { sec: 1, usec: 234_567 });
    assert_eq!(sys_get_time(999_999), TimeVal { sec: 0, usec: 999_999 });
    assert_eq!(sys_get_time(3 * MICROS_PER_SEC), TimeVal { sec: 3, usec: 0 });
    let t = sys_get_time(usize::MAX);
    assert_eq!(t.sec * MICROS_PER_SEC + t.usec, usize::MAX);
}

#[test]
fn sbrk_returns_old_break_or_error() {
    assert_eq!(sys_sbrk(Some(0x8000)), 0x8000);
    assert_eq!(sys_sbrk(None), -1);
    assert_eq!(sys_sbrk(Some(usize::MAX)), -1);
}

#[test]
fn sleep_wakes_after_delay() {
    assert_eq!(sys_sleep(1000, 250), 1250);
    assert_eq!(sys_sleep(7, 0), 7);
}

#[test]
fn trace_decodes_requests() {
    assert_eq!(sys_trace(0, 0x1000, 5), TraceAction::Read { addr: 0x1000 });
    assert_eq!(sys_trace(1, 0x1000, 5), TraceAction::Write { addr: 0x1000, value: 5 });
    assert_eq!(sys_trace(1, 0x1000, usize::MAX), TraceAction::Write { addr: 0x1000, value: -1 });
    assert_eq!(sys_trace(2, 64, 0), TraceAction::Count { syscall_id: 64 });
    assert_eq!(sys_trace(3, 64, 0), TraceAction::Fail);
}
