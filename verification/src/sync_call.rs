//! The decision parts of the synchronisation system calls.
//!
//! A call that blocks on a kernel object is split in two: the first function
//! decides whether the request may go on (the banker's check), the kernel
//! then blocks on the object, and the `finish_` function records the grant.
//! Calls that only act on an object (unlock, up, signal, wait) hand the
//! object out or record the release after the kernel acted.
use vstd::prelude::*;
use crate::banker::{ResType, ResourceManager, ResourceState};
use crate::process::{insert_first_free, is_first_free, put_in_slot, ProcessSync};

verus! {

/// Return value of a lock or semaphore request that the deadlock check
/// refuses.
pub const DEADLOCK_ERROR: isize = -0xDEAD;

/// What the kernel does after the decision part of a blocking call.
#[derive(Debug, Clone, Copy, PartialEq, Eq, Structural)]
pub enum SyscallStep {
    /// Block on the object, then call the matching `finish_` function.
    Proceed,
    /// The system call ends here with this return value.
    Finish(isize),
}

/// The kind of kernel mutex that a mutex creation builds.
#[derive(Debug, Clone, Copy, PartialEq, Eq, Structural)]
pub enum MutexKind {
    /// A mutex that spins until it is free.
    Spin,
    /// A mutex that blocks the waiting thread.
    Blocking,
}

impl MutexKind {
    /// The kind asked for by `mutex_create`: blocking when `blocking` is
    /// set, spinning otherwise.
    pub fn from_blocking(blocking: bool) -> (kind: MutexKind)
        ensures
            blocking ==> kind == MutexKind::Blocking,
            !blocking ==> kind == MutexKind::Spin,
    {
        if !blocking {
            MutexKind::Spin
        } else {
            MutexKind::Blocking
        }
    }
}

/// The deadlock check for a request of `res_id` by thread `tid` can run:
/// the state is well formed and checkable, and the request can be counted.
pub open spec fn request_checkable(s: ResourceState, tid: int, res_id: int) -> bool {
    &&& s.wf()
    &&& s.checkable()
    &&& 0 <= res_id < s.num_resources()
    &&& s.can_request(tid, res_id)
}

/// The resource manager after a request guarded by the deadlock check: the
/// request is kept when the check admits it, and withdrawn otherwise.
pub open spec fn after_request(s: ResourceState, tid: int, res_id: int) -> ResourceState {
    if s.requested(tid, res_id).admits(res_id) {
        s.requested(tid, res_id)
    } else {
        s
    }
}

/// The step that the deadlock check gives a request.
pub open spec fn request_step(s: ResourceState, tid: int, res_id: int) -> SyscallStep {
    if s.requested(tid, res_id).admits(res_id) {
        SyscallStep::Proceed
    } else {
        SyscallStep::Finish(DEADLOCK_ERROR)
    }
}

/// What the deadlock check does with a request of one unit of `res_id` by
/// thread `tid`:
/// - a mutex with no free unit is always refused, whoever holds it;
/// - otherwise the request goes on exactly when, with one more unit of need
///   recorded for the thread, every thread can finish in some order;
/// - a request that goes on is recorded as exactly one more unit of need of
///   `tid` for `res_id`, and nothing else changes;
/// - a refused request answers [`DEADLOCK_ERROR`] and changes nothing.
pub proof fn law_guarded_request(s: ResourceState, tid: int, res_id: int)
    requires
        request_checkable(s, tid, res_id),
    ensures
        ({
            let asked = ResourceState {
                available: s.available,
                allocation: s.allocation,
                need: s.need.update(tid, s.need[tid].update(res_id, (s.need[tid][res_id] + 1) as usize)),
                res_types: s.res_types,
            };
            (request_step(s, tid, res_id) == SyscallStep::Proceed) <==> (!(s.res_types[res_id] == ResType::Mutex
                && s.available[res_id] == 0) && exists|order: Seq<int>| asked.is_safe_sequence(order))
        }),
        s.res_types[res_id] == ResType::Mutex && s.available[res_id] == 0 ==> request_step(s, tid, res_id)
            == SyscallStep::Finish(DEADLOCK_ERROR) && after_request(s, tid, res_id) == s,
        request_step(s, tid, res_id) != SyscallStep::Proceed ==> request_step(s, tid, res_id)
            == SyscallStep::Finish(DEADLOCK_ERROR) && after_request(s, tid, res_id) == s,
        request_step(s, tid, res_id) == SyscallStep::Proceed ==> ({
            let a = after_request(s, tid, res_id);
            &&& a.available == s.available
            &&& a.allocation == s.allocation
            &&& a.res_types == s.res_types
            &&& a.need.len() == s.need.len()
            &&& a.need[tid].len() == s.need[tid].len()
            &&& a.need[tid][res_id] == s.need[tid][res_id] + 1
            &&& forall|i: int, j: int|
                0 <= i < s.need.len() && 0 <= j < s.need[i].len() && !(i == tid && j == res_id) ==> #[trigger] a.need[i][j]
                    == s.need[i][j]
            &&& forall|i: int| 0 <= i < s.need.len() ==> #[trigger] a.need[i].len() == s.need[i].len()
        }),
{
    let asked = ResourceState {
        available: s.available,
        allocation: s.allocation,
        need: s.need.update(tid, s.need[tid].update(res_id, (s.need[tid][res_id] + 1) as usize)),
        res_types: s.res_types,
    };
    assert(asked == s.requested(tid, res_id));
    if s.res_types[res_id] == ResType::Mutex && s.available[res_id] == 0 {
        assert(!s.requested(tid, res_id).admits(res_id));
    }
}

/// Records the request and runs the banker's check on it; withdraws the
/// request when the check refuses it.
fn guarded_request(res_mgr: &mut ResourceManager, tid: usize, res_id: usize) -> (step: SyscallStep)
    requires
        request_checkable(old(res_mgr)@, tid as int, res_id as int),
    ensures
        step == request_step(old(res_mgr)@, tid as int, res_id as int),
        final(res_mgr)@ == after_request(old(res_mgr)@, tid as int, res_id as int),
{
    let ghost s0 = res_mgr@;
    res_mgr.request(tid, res_id);
    proof {
        let s1 = res_mgr@;
        assert(s1.allocation == s0.allocation);
        assert(s1.available == s0.available);
        assert forall|j: int| 0 <= j < s1.num_resources() implies #[trigger] s1.total(j) == s0.total(j) by {}
    }
    if !res_mgr.is_safe(tid, res_id) {
        res_mgr.withdraw_request(tid, res_id);
        proof {
            let s2 = res_mgr@;
            assert(s2.need[tid as int] =~= s0.need[tid as int]);
            assert(s2.need =~= s0.need);
            assert(s2 == s0);
        }
        return SyscallStep::Finish(DEADLOCK_ERROR);
    }
    SyscallStep::Proceed
}

/// Creates a mutex: stores `mutex` in the lowest free slot of the process's
/// mutex table and, with deadlock detection on, registers it with the
/// resource manager as a mutex with one unit. Returns the mutex id.
pub fn sys_mutex_create<M, S, C>(
    process: &mut ProcessSync<M, S, C>,
    res_mgr: &mut ResourceManager,
    tid: usize,
    mutex: M,
) -> (id: isize)
    requires
        old(process).mutex_list@.len() < isize::MAX,
        old(process).is_deadlock_detect ==> old(res_mgr)@.wf() && tid < old(res_mgr)@.num_threads(),
    ensures
        is_first_free(old(process).mutex_list@, id as int),
        final(process).mutex_list@ == put_in_slot(old(process).mutex_list@, id as int, mutex),
        final(process).semaphore_list@ == old(process).semaphore_list@,
        final(process).condvar_list@ == old(process).condvar_list@,
        final(process).is_deadlock_detect == old(process).is_deadlock_detect,
        old(process).is_deadlock_detect ==> final(res_mgr)@ == old(res_mgr)@.with_resource(
            id as int,
            tid as int,
            ResType::Mutex,
            1,
        ),
        !old(process).is_deadlock_detect ==> final(res_mgr)@ == old(res_mgr)@,
{
    let id = insert_first_free(&mut process.mutex_list, mutex);
    if process.is_deadlock_detect {
        res_mgr.add_resource(id, tid, ResType::Mutex, 1);
    }
    id as isize
}

/// Decision part of locking mutex `mutex_id` by thread `tid`. With deadlock
/// detection on, the thread's need of the mutex grows by one and the
/// banker's check runs; a refused request is withdrawn and the call returns
/// [`DEADLOCK_ERROR`]. Otherwise the kernel goes on to lock the mutex.
pub fn sys_mutex_lock<M, S, C>(
    process: &ProcessSync<M, S, C>,
    res_mgr: &mut ResourceManager,
    tid: usize,
    mutex_id: usize,
) -> (step: SyscallStep)
    requires
        process.is_deadlock_detect ==> request_checkable(old(res_mgr)@, tid as int, mutex_id as int),
    ensures
        process.is_deadlock_detect ==> step == request_step(old(res_mgr)@, tid as int, mutex_id as int),
        process.is_deadlock_detect ==> final(res_mgr)@ == after_request(
            old(res_mgr)@,
            tid as int,
            mutex_id as int,
        ),
        !process.is_deadlock_detect ==> step == SyscallStep::Proceed && final(res_mgr)@ == old(res_mgr)@,
{
    if process.is_deadlock_detect {
        return guarded_request(res_mgr, tid, mutex_id);
    }
    SyscallStep::Proceed
}

/// Completion of locking mutex `mutex_id` by thread `tid`, once the kernel
/// has acquired it: with deadlock detection on, one unit passes from the
/// free pool to the thread, which no longer waits for it. Returns 0.
pub fn finish_mutex_lock<M, S, C>(
    process: &ProcessSync<M, S, C>,
    res_mgr: &mut ResourceManager,
    tid: usize,
    mutex_id: usize,
) -> (r: isize)
    requires
        process.is_deadlock_detect ==> old(res_mgr)@.can_grant(tid as int, mutex_id as int),
    ensures
        r == 0,
        process.is_deadlock_detect ==> final(res_mgr)@ == old(res_mgr)@.granted(tid as int, mutex_id as int),
        !process.is_deadlock_detect ==> final(res_mgr)@ == old(res_mgr)@,
{
    if process.is_deadlock_detect {
        res_mgr.grant(tid, mutex_id);
    }
    0
}

/// Completion of unlocking mutex `mutex_id` by thread `tid`, once the
/// kernel has released it: with deadlock detection on, one unit passes from
/// the thread back to the free pool. Returns 0.
pub fn sys_mutex_unlock<M, S, C>(
    process: &ProcessSync<M, S, C>,
    res_mgr: &mut ResourceManager,
    tid: usize,
    mutex_id: usize,
) -> (r: isize)
    requires
        process.is_deadlock_detect ==> old(res_mgr)@.can_release(tid as int, mutex_id as int),
    ensures
        r == 0,
        process.is_deadlock_detect ==> final(res_mgr)@ == old(res_mgr)@.released(tid as int, mutex_id as int),
        !process.is_deadlock_detect ==> final(res_mgr)@ == old(res_mgr)@,
{
    if process.is_deadlock_detect {
        res_mgr.release(tid, mutex_id);
    }
    0
}

/// Creates a semaphore with `res_count` units: stores `semaphore` in the
/// lowest free slot of the semaphore table and, with deadlock detection on,
/// registers it with the resource manager. Returns the semaphore id.
pub fn sys_semaphore_create<M, S, C>(
    process: &mut ProcessSync<M, S, C>,
    res_mgr: &mut ResourceManager,
    tid: usize,
    res_count: usize,
    semaphore: S,
) -> (id: isize)
    requires
        old(process).semaphore_list@.len() < isize::MAX,
        old(process).is_deadlock_detect ==> old(res_mgr)@.wf() && tid < old(res_mgr)@.num_threads(),
    ensures
        is_first_free(old(process).semaphore_list@, id as int),
        final(process).semaphore_list@ == put_in_slot(old(process).semaphore_list@, id as int, semaphore),
        final(process).mutex_list@ == old(process).mutex_list@,
        final(process).condvar_list@ == old(process).condvar_list@,
        final(process).is_deadlock_detect == old(process).is_deadlock_detect,
        old(process).is_deadlock_detect ==> final(res_mgr)@ == old(res_mgr)@.with_resource(
            id as int,
            tid as int,
            ResType::Semaphore,
            res_count,
        ),
        !old(process).is_deadlock_detect ==> final(res_mgr)@ == old(res_mgr)@,
{
    let id = insert_first_free(&mut process.semaphore_list, semaphore);
    if process.is_deadlock_detect {
        res_mgr.add_resource(id, tid, ResType::Semaphore, res_count);
    }
    id as isize
}

/// Completion of `up` on semaphore `sem_id` by thread `tid`, once the
/// kernel has done it: with deadlock detection on, one unit passes from the
/// thread back to the free pool. Returns 0.
pub fn sys_semaphore_up<M, S, C>(
    process: &ProcessSync<M, S, C>,
    res_mgr: &mut ResourceManager,
    tid: usize,
    sem_id: usize,
) -> (r: isize)
    requires
        process.is_deadlock_detect ==> old(res_mgr)@.can_release(tid as int, sem_id as int),
    ensures
        r == 0,
        process.is_deadlock_detect ==> final(res_mgr)@ == old(res_mgr)@.released(tid as int, sem_id as int),
        !process.is_deadlock_detect ==> final(res_mgr)@ == old(res_mgr)@,
{
    if process.is_deadlock_detect {
        res_mgr.release(tid, sem_id);
    }
    0
}

/// Decision part of `down` on semaphore `sem_id` by thread `tid`: with
/// deadlock detection on, the thread's need grows by one and the banker's
/// check runs; a refused request is withdrawn and the call returns
/// [`DEADLOCK_ERROR`]. Otherwise the kernel goes on with `down`.
pub fn sys_semaphore_down<M, S, C>(
    process: &ProcessSync<M, S, C>,
    res_mgr: &mut ResourceManager,
    tid: usize,
    sem_id: usize,
) -> (step: SyscallStep)
    requires
        process.is_deadlock_detect ==> request_checkable(old(res_mgr)@, tid as int, sem_id as int),
    ensures
        process.is_deadlock_detect ==> step == request_step(old(res_mgr)@, tid as int, sem_id as int),
        process.is_deadlock_detect ==> final(res_mgr)@ == after_request(
            old(res_mgr)@,
            tid as int,
            sem_id as int,
        ),
        !process.is_deadlock_detect ==> step == SyscallStep::Proceed && final(res_mgr)@ == old(res_mgr)@,
{
    if process.is_deadlock_detect {
        return guarded_request(res_mgr, tid, sem_id);
    }
    SyscallStep::Proceed
}

/// Completion of `down` on semaphore `sem_id` by thread `tid`, once the
/// kernel has obtained the unit: with deadlock detection on, one unit
/// passes from the free pool to the thread, which no longer waits for it.
/// Returns 0.
pub fn finish_semaphore_down<M, S, C>(
    process: &ProcessSync<M, S, C>,
    res_mgr: &mut ResourceManager,
    tid: usize,
    sem_id: usize,
) -> (r: isize)
    requires
        process.is_deadlock_detect ==> old(res_mgr)@.can_grant(tid as int, sem_id as int),
    ensures
        r == 0,
        process.is_deadlock_detect ==> final(res_mgr)@ == old(res_mgr)@.granted(tid as int, sem_id as int),
        !process.is_deadlock_detect ==> final(res_mgr)@ == old(res_mgr)@,
{
    if process.is_deadlock_detect {
        res_mgr.grant(tid, sem_id);
    }
    0
}

/// Creates a condition variable: stores `condvar` in the lowest free slot
/// of the condition variable table. Returns its id.
pub fn sys_condvar_create<M, S, C>(process: &mut ProcessSync<M, S, C>, condvar: C) -> (id: isize)
    requires
        old(process).condvar_list@.len() < isize::MAX,
    ensures
        is_first_free(old(process).condvar_list@, id as int),
        final(process).condvar_list@ == put_in_slot(old(process).condvar_list@, id as int, condvar),
        final(process).mutex_list@ == old(process).mutex_list@,
        final(process).semaphore_list@ == old(process).semaphore_list@,
        final(process).is_deadlock_detect == old(process).is_deadlock_detect,
{
    let id = insert_first_free(&mut process.condvar_list, condvar);
    id as isize
}

/// The condition variable that `signal` acts on; the kernel signals it and
/// the call returns 0.
pub fn sys_condvar_signal<M, S, C>(process: &ProcessSync<M, S, C>, condvar_id: usize) -> (c: &C)
    requires
        condvar_id < process.condvar_list@.len(),
        process.condvar_list@[condvar_id as int] is Some,
    ensures
        Some(*c) == process.condvar_list@[condvar_id as int],
{
    process.condvar(condvar_id)
}

/// The condition variable and the mutex that `wait` acts on; the kernel
/// waits on the pair and the call returns 0.
pub fn sys_condvar_wait<M, S, C>(
    process: &ProcessSync<M, S, C>,
    condvar_id: usize,
    mutex_id: usize,
) -> (pair: (&C, &M))
    requires
        condvar_id < process.condvar_list@.len(),
        process.condvar_list@[condvar_id as int] is Some,
        mutex_id < process.mutex_list@.len(),
        process.mutex_list@[mutex_id as int] is Some,
    ensures
        Some(*pair.0) == process.condvar_list@[condvar_id as int],
        Some(*pair.1) == process.mutex_list@[mutex_id as int],
{
    let c = process.condvar(condvar_id);
    let m = process.mutex(mutex_id);
    (c, m)
}

/// Turns deadlock detection on when `enabled` is nonzero and off when it is
/// zero. Returns 0.
pub fn sys_enable_deadlock_detect<M, S, C>(process: &mut ProcessSync<M, S, C>, enabled: usize) -> (r: isize)
    ensures
        r == 0,
        final(process).is_deadlock_detect == (enabled != 0),
        final(process).mutex_list@ == old(process).mutex_list@,
        final(process).semaphore_list@ == old(process).semaphore_list@,
        final(process).condvar_list@ == old(process).condvar_list@,
{
    process.is_deadlock_detect = enabled != 0;
    0
}

} // verus!
