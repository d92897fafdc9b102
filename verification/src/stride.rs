//! The ready queue of the scheduler and the stride order of tasks. Tasks
//! wait with their stride and leave the queue in the order they were added
//! (first in, first out); the stride order says which of two strides comes
//! first, comparing them across overflow.
use vstd::prelude::*;

verus! {

/// Stride `a` comes before stride `b`: their difference, wrapped and
/// truncated to a signed byte, is negative. Comparing the wrapped
/// difference keeps the order right when strides overflow, as long as
/// strides stay within half the byte range of each other.
pub open spec fn stride_precedes(a: u64, b: u64) -> bool {
    (a.wrapping_sub(b) as i8) < 0
}

/// Whether stride `a` comes before stride `b`.
pub fn precedes(a: u64, b: u64) -> (r: bool)
    ensures
        r == stride_precedes(a, b),
{
    (a.wrapping_sub(b) as i8) < 0
}

/// A task waiting in the ready queue, with the stride it had when queued.
pub struct StrideTask<T> {
    pub stride: u64,
    pub task: T,
}

/// The ready queue of the scheduler: first in, first out.
pub struct TaskManager<T> {
    ready_queue: Vec<StrideTask<T>>,
}

impl<T> View for TaskManager<T> {
    type V = Seq<StrideTask<T>>;

    closed spec fn view(&self) -> Seq<StrideTask<T>> {
        self.ready_queue@
    }
}

impl<T> TaskManager<T> {
    /// An empty ready queue.
    pub fn new() -> (m: Self)
        ensures
            m@ == Seq::<StrideTask<T>>::empty(),
    {
        TaskManager { ready_queue: Vec::new() }
    }

    /// Queues `task` with stride `stride` at the back.
    pub fn add(&mut self, task: T, stride: u64)
        ensures
            final(self)@ == old(self)@.push(StrideTask { stride, task }),
    {
        self.ready_queue.push(StrideTask { stride, task });
    }

    /// Takes the task at the front of the queue, the one added earliest;
    /// `None` when the queue is empty.
    pub fn fetch(&mut self) -> (r: Option<T>)
        ensures
            old(self)@.len() == 0 ==> r is None && final(self)@ == old(self)@,
            old(self)@.len() > 0 ==> r == Some(old(self)@[0].task) && final(self)@ == old(self)@.drop_first(),
    {
        if self.ready_queue.len() == 0 {
            return None;
        }
        let t = self.ready_queue.remove(0);
        assert(self@ =~= old(self)@.drop_first());
        Some(t.task)
    }
}

/// No stride comes before itself, so a task never comes before a task with
/// the same stride.
pub proof fn law_stride_irreflexive(a: u64)
    ensures
        !stride_precedes(a, a),
{
    assert((a.wrapping_sub(a) as i8) == 0i8) by (bit_vector);
}

/// Of two strides whose wrapped difference is not the lowest signed byte,
/// at most one comes before the other.
pub proof fn law_stride_asymmetric(a: u64, b: u64)
    requires
        (a.wrapping_sub(b) as i8) != i8::MIN,
    ensures
        stride_precedes(a, b) ==> !stride_precedes(b, a),
{
    assert(((a.wrapping_sub(b) as i8) != -128i8 && (a.wrapping_sub(b) as i8) < 0i8) ==> (b.wrapping_sub(a) as i8) >= 0i8)
        by (bit_vector);
}

/// Of two strides whose wrapped difference is neither zero nor the lowest
/// signed byte, exactly one comes before the other: the stride order is
/// total and antisymmetric there.
pub proof fn law_stride_exactly_one(a: u64, b: u64)
    requires
        (a.wrapping_sub(b) as i8) != i8::MIN,
        (a.wrapping_sub(b) as i8) != 0i8,
    ensures
        stride_precedes(a, b) != stride_precedes(b, a),
{
    assert(((a.wrapping_sub(b) as i8) != -128i8 && (a.wrapping_sub(b) as i8) != 0i8) ==> (((a.wrapping_sub(
        b,
    ) as i8) < 0i8) != ((b.wrapping_sub(a) as i8) < 0i8))) by (bit_vector);
}

/// A task queued in an empty ready queue is the one fetched next, and the
/// queue is empty again afterwards.
pub proof fn law_single_task_fetched<T>(q: Seq<StrideTask<T>>, t: StrideTask<T>)
    requires
        q.len() == 0,
    ensures
        q.push(t)[0] == t,
        q.push(t).drop_first() =~= q,
{
}

/// Adding at the back does not change which task leaves next: the queue
/// hands tasks out in the order they were added.
pub proof fn law_fifo_order<T>(q: Seq<StrideTask<T>>, t: StrideTask<T>)
    requires
        q.len() > 0,
    ensures
        q.push(t)[0] == q[0],
        q.push(t).drop_first() =~= q.drop_first().push(t),
{
}

} // verus!
