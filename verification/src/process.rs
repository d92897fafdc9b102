//! The synchronisation tables of a process: mutexes, semaphores and
//! condition variables, each found by the id that the creating system call
//! handed to the user.
use vstd::prelude::*;

verus! {

/// `id` is the lowest free slot of `slots`, or its length when none is free.
pub open spec fn is_first_free<T>(slots: Seq<Option<T>>, id: int) -> bool {
    &&& 0 <= id <= slots.len()
    &&& id < slots.len() ==> slots[id] is None
    &&& forall|k: int| 0 <= k < id ==> #[trigger] slots[k] is Some
}

/// `slots` with `item` stored at `id`, appended when `id` is the length.
pub open spec fn put_in_slot<T>(slots: Seq<Option<T>>, id: int, item: T) -> Seq<Option<T>> {
    if id < slots.len() {
        slots.update(id, Some(item))
    } else {
        slots.push(Some(item))
    }
}

/// Stores `item` in the lowest free slot, or in a new slot at the end, and
/// returns its index.
pub fn insert_first_free<T>(slots: &mut Vec<Option<T>>, item: T) -> (id: usize)
    ensures
        is_first_free(old(slots)@, id as int),
        final(slots)@ == put_in_slot(old(slots)@, id as int, item),
{
    let mut i: usize = 0;
    while i < slots.len()
        invariant
            slots@ == old(slots)@,
            i <= slots@.len(),
            forall|k: int| 0 <= k < i ==> #[trigger] slots@[k] is Some,
        decreases slots@.len() - i,
    {
        if slots[i].is_none() {
            slots.set(i, Some(item));
            return i;
        }
        i += 1;
    }
    slots.push(Some(item));
    slots.len() - 1
}

/// The synchronisation objects of one process. `M`, `S` and `C` are the
/// kernel's mutex, semaphore and condition variable objects; a `None` slot
/// is free.
pub struct ProcessSync<M, S, C> {
    pub mutex_list: Vec<Option<M>>,
    pub semaphore_list: Vec<Option<S>>,
    pub condvar_list: Vec<Option<C>>,
    /// Whether the banker's check guards the process's lock and
    /// semaphore requests.
    pub is_deadlock_detect: bool,
}

impl<M, S, C> ProcessSync<M, S, C> {
    /// A process with no synchronisation objects and deadlock detection off.
    pub fn new() -> (p: Self)
        ensures
            p.mutex_list@ == Seq::<Option<M>>::empty(),
            p.semaphore_list@ == Seq::<Option<S>>::empty(),
            p.condvar_list@ == Seq::<Option<C>>::empty(),
            !p.is_deadlock_detect,
    {
        ProcessSync {
            mutex_list: Vec::new(),
            semaphore_list: Vec::new(),
            condvar_list: Vec::new(),
            is_deadlock_detect: false,
        }
    }

    /// The mutex with id `mutex_id`.
    pub fn mutex(&self, mutex_id: usize) -> (m: &M)
        requires
            mutex_id < self.mutex_list@.len(),
            self.mutex_list@[mutex_id as int] is Some,
        ensures
            Some(*m) == self.mutex_list@[mutex_id as int],
    {
        self.mutex_list[mutex_id].as_ref().unwrap()
    }

    /// The semaphore with id `sem_id`.
    pub fn semaphore(&self, sem_id: usize) -> (s: &S)
        requires
            sem_id < self.semaphore_list@.len(),
            self.semaphore_list@[sem_id as int] is Some,
        ensures
            Some(*s) == self.semaphore_list@[sem_id as int],
    {
        self.semaphore_list[sem_id].as_ref().unwrap()
    }

    /// The condition variable with id `condvar_id`.
    pub fn condvar(&self, condvar_id: usize) -> (c: &C)
        requires
            condvar_id < self.condvar_list@.len(),
            self.condvar_list@[condvar_id as int] is Some,
        ensures
            Some(*c) == self.condvar_list@[condvar_id as int],
    {
        self.condvar_list[condvar_id].as_ref().unwrap()
    }
}

} // verus!
