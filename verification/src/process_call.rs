//! The computing parts of the process system calls: the kernel reads the
//! clock or performs the memory operation, these functions compute what the
//! call writes or returns.
use vstd::prelude::*;

verus! {

/// Microseconds in a second.
pub const MICROS_PER_SEC: usize = 1_000_000;

/// A time split into seconds and microseconds, as `get_time` writes it to
/// user memory.
#[derive(Debug, Clone, Copy, PartialEq, Eq, Structural)]
pub struct TimeVal {
    pub sec: usize,
    pub usec: usize,
}

/// The value `get_time` writes for a clock reading of `us` microseconds:
/// whole seconds and the remaining microseconds.
pub fn sys_get_time(us: usize) -> (t: TimeVal)
    ensures
        t.sec == us / MICROS_PER_SEC,
        t.usec == us % MICROS_PER_SEC,
        t.usec < MICROS_PER_SEC,
        t.sec * MICROS_PER_SEC + t.usec == us,
{
    let t = TimeVal { sec: us / MICROS_PER_SEC, usec: us % MICROS_PER_SEC };
    assert(t.sec * MICROS_PER_SEC + t.usec == us) by (nonlinear_arith)
        requires
            t.sec == us / 1_000_000usize,
            t.usec == us % 1_000_000usize,
    ;
    t
}

/// The return value of `sbrk` given the outcome of moving the program
/// break: the old break when it moved, -1 when it could not.
pub fn sys_sbrk(old_brk: Option<usize>) -> (r: isize)
    ensures
        old_brk is None ==> r == -1,
        old_brk is Some ==> r == old_brk->0 as isize,
{
    match old_brk {
        Some(b) => b as isize,
        None => -1,
    }
}

/// The time in milliseconds at which a thread that sleeps `ms` milliseconds
/// from `now_ms` wakes up.
pub fn sys_sleep(now_ms: usize, ms: usize) -> (expire_ms: usize)
    requires
        now_ms + ms <= usize::MAX,
    ensures
        expire_ms == now_ms + ms,
{
    now_ms + ms
}

/// What the `trace` system call does.
#[derive(Debug, Clone, Copy, PartialEq, Eq, Structural)]
pub enum TraceAction {
    /// Read the word at user address `addr` and return it; -1 when the
    /// address does not translate.
    Read { addr: usize },
    /// Write `value` at user address `addr` and return 0; -1 when the
    /// address does not translate.
    Write { addr: usize, value: isize },
    /// Return how many times system call `syscall_id` has been made.
    Count { syscall_id: usize },
    /// Return -1.
    Fail,
}

/// Decodes a `trace` request: 0 reads the word at `id`, 1 writes `data`
/// there, 2 reads the call count of system call `id`, anything else fails.
pub fn sys_trace(trace_request: usize, id: usize, data: usize) -> (a: TraceAction)
    ensures
        trace_request == 0 ==> a == (TraceAction::Read { addr: id }),
        trace_request == 1 ==> a == (TraceAction::Write { addr: id, value: data as isize }),
        trace_request == 2 ==> a == (TraceAction::Count { syscall_id: id }),
        trace_request > 2 ==> a == (TraceAction::Fail),
{
    match trace_request {
        0 => TraceAction::Read { addr: id },
        1 => TraceAction::Write { addr: id, value: data as isize },
        2 => TraceAction::Count { syscall_id: id },
        _ => TraceAction::Fail,
    }
}

} // verus!
