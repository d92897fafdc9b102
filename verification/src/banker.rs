//! The banker's algorithm: a resource manager that records, for every thread
//! and every synchronisation resource, how many units the thread holds and how
//! many more it is waiting for, and decides whether the system is in a safe
//! state.
use vstd::prelude::*;
use crate::banker_lemmas::{
    lemma_count_unfinished_mark, lemma_held_insert, lemma_held_mono, lemma_held_prefix_mono, lemma_held_same,
    lemma_held_zero,
};

verus! {

/// Kind of a synchronisation resource tracked by the resource manager.
#[derive(Debug, Clone, Copy, PartialEq, Eq, Structural)]
pub enum ResType {
    /// A mutex.
    Mutex,
    /// A counting semaphore.
    Semaphore,
}

/// `s` extended with copies of `fill` up to length `len`; unchanged when it
/// is already at least that long.
pub open spec fn padded<T>(s: Seq<T>, len: int, fill: T) -> Seq<T> {
    if s.len() >= len {
        s
    } else {
        s + Seq::new((len - s.len()) as nat, |_k: int| fill)
    }
}

/// Each row of `rows` extended with zeros up to length `len`.
pub open spec fn padded_rows(rows: Seq<Seq<usize>>, len: int) -> Seq<Seq<usize>> {
    Seq::new(rows.len(), |i: int| padded(rows[i], len, 0usize))
}

/// A row of `len` zeros.
pub open spec fn zero_row(len: nat) -> Seq<usize> {
    Seq::new(len, |_k: int| 0usize)
}

/// Units of resource `j` held by the threads below `n` that belong to `done`.
pub open spec fn held_by(allocation: Seq<Seq<usize>>, done: Set<int>, j: int, n: nat) -> int
    decreases n,
{
    if n == 0 {
        0
    } else {
        held_by(allocation, done, j, (n - 1) as nat) + if done.contains(n - 1) {
            allocation[n - 1][j] as int
        } else {
            0
        }
    }
}

/// `rows` with entry `[i][j]` changed by `delta`.
pub open spec fn bump(rows: Seq<Seq<usize>>, i: int, j: int, delta: int) -> Seq<Seq<usize>> {
    rows.update(i, rows[i].update(j, (rows[i][j] + delta) as usize))
}

/// The mathematical state of a [`ResourceManager`]: `available[j]` units of
/// resource `j` are free, thread `i` holds `allocation[i][j]` of them and
/// waits for `need[i][j]` more, and `res_types[j]` is the kind of resource `j`.
pub struct ResourceState {
    pub available: Seq<i32>,
    pub allocation: Seq<Seq<usize>>,
    pub need: Seq<Seq<usize>>,
    pub res_types: Seq<ResType>,
}

impl ResourceState {
    pub open spec fn num_threads(self) -> nat {
        self.allocation.len()
    }

    pub open spec fn num_resources(self) -> nat {
        self.available.len()
    }

    /// The shape every reachable state has: one need row per allocation row,
    /// of the same length, and one kind per resource.
    pub open spec fn wf(self) -> bool {
        &&& self.need.len() == self.allocation.len()
        &&& self.res_types.len() == self.available.len()
        &&& forall|i: int|
            0 <= i < self.allocation.len() ==> #[trigger] self.need[i].len()
                == self.allocation[i].len()
    }

    /// Units of resource `j` held by the threads in `done`.
    pub open spec fn held(self, done: Set<int>, j: int) -> int {
        held_by(self.allocation, done, j, self.num_threads())
    }

    /// Units of resource `j` in the system: those free and those held.
    pub open spec fn total(self, j: int) -> int {
        self.available[j] + self.held(Set::full(), j)
    }

    /// Thread `i` can obtain everything it waits for once the threads in
    /// `done` have finished and released what they hold.
    pub open spec fn can_finish(self, done: Set<int>, i: int) -> bool {
        forall|j: int|
            0 <= j < self.num_resources() ==> (#[trigger] self.need[i][j] as i32) as int
                <= self.available[j] + self.held(done, j)
    }

    /// `order` lists every thread exactly once, and each thread can finish
    /// after the threads before it in `order` have finished.
    pub open spec fn is_safe_sequence(self, order: Seq<int>) -> bool {
        &&& order.no_duplicates()
        &&& forall|k: int| 0 <= k < order.len() ==> 0 <= #[trigger] order[k] < self.num_threads()
        &&& forall|i: int| 0 <= i < self.num_threads() ==> #[trigger] order.contains(i)
        &&& forall|k: int|
            0 <= k < order.len() ==> #[trigger] self.can_finish(order.take(k).to_set(), order[k])
    }

    /// The banker's safe state: all threads can finish in some order.
    pub open spec fn is_safe_state(self) -> bool {
        exists|order: Seq<int>| self.is_safe_sequence(order)
    }

    /// The answer of the safety check for a request of resource `res_id`: a
    /// mutex with no free unit is refused outright, anything else is admitted
    /// when the state is safe.
    pub open spec fn admits(self, res_id: int) -> bool {
        &&& !(self.res_types[res_id] == ResType::Mutex && self.available[res_id] == 0)
        &&& self.is_safe_state()
    }

    /// The safety check can run on this state without indexing past a row or
    /// overflowing `i32`: every allocation row covers all resources, and for
    /// each resource the free and held units together fit in an `i32`.
    pub open spec fn checkable(self) -> bool {
        &&& forall|i: int|
            0 <= i < self.num_threads() ==> #[trigger] self.allocation[i].len()
                >= self.num_resources()
        &&& forall|i: int, j: int|
            0 <= i < self.num_threads() && 0 <= j < self.num_resources() ==> #[trigger] self.allocation[i][j]
                <= i32::MAX
        &&& forall|j: int| 0 <= j < self.num_resources() ==> #[trigger] self.total(j) <= i32::MAX
    }

    /// The state after resource `res_id` of kind `res_type` with `total`
    /// units is registered by thread `tid`: the resource tables grow to
    /// cover `res_id`, every thread's rows grow with zeros to cover every
    /// resource, the kind is recorded and the free count is set to `total`.
    pub open spec fn with_resource(self, res_id: int, tid: int, res_type: ResType, total: usize) -> ResourceState {
        let width = padded(self.available, res_id + 1, 0i32).len() as int;
        ResourceState {
            available: padded(self.available, res_id + 1, 0i32).update(res_id, total as i32),
            res_types: padded(self.res_types, res_id + 1, ResType::Mutex).update(res_id, res_type),
            allocation: padded_rows(self.allocation, width),
            need: padded_rows(self.need, width),
        }
    }

    /// Every thread's rows cover every resource.
    pub open spec fn rows_cover(self) -> bool {
        forall|i: int|
            0 <= i < self.num_threads() ==> #[trigger] self.allocation[i].len() >= self.num_resources()
                && self.need[i].len() >= self.num_resources()
    }

    /// Thread `tid` may ask for one more unit of resource `res_id`: both are
    /// in the tables and the count does not overflow.
    pub open spec fn can_request(self, tid: int, res_id: int) -> bool {
        &&& 0 <= tid < self.need.len()
        &&& 0 <= res_id < self.need[tid].len()
        &&& self.need[tid][res_id] < usize::MAX
    }

    /// Thread `tid` waits for one more unit of resource `res_id`.
    pub open spec fn requested(self, tid: int, res_id: int) -> ResourceState {
        ResourceState { need: bump(self.need, tid, res_id, 1), ..self }
    }

    /// Thread `tid` waits for one unit of resource `res_id` less.
    pub open spec fn unrequested(self, tid: int, res_id: int) -> ResourceState {
        ResourceState { need: bump(self.need, tid, res_id, -1), ..self }
    }

    /// One unit of resource `res_id` may pass to thread `tid`, which waits
    /// for it, without any count leaving its type.
    pub open spec fn can_grant(self, tid: int, res_id: int) -> bool {
        &&& 0 <= tid < self.allocation.len()
        &&& 0 <= tid < self.need.len()
        &&& 0 <= res_id < self.allocation[tid].len()
        &&& 0 <= res_id < self.need[tid].len()
        &&& 0 <= res_id < self.available.len()
        &&& self.allocation[tid][res_id] < usize::MAX
        &&& self.need[tid][res_id] >= 1
        &&& self.available[res_id] > i32::MIN
    }

    /// One unit of resource `res_id` passes from the free pool to thread
    /// `tid`, which no longer waits for it.
    pub open spec fn granted(self, tid: int, res_id: int) -> ResourceState {
        ResourceState {
            available: self.available.update(res_id, (self.available[res_id] - 1) as i32),
            allocation: bump(self.allocation, tid, res_id, 1),
            need: bump(self.need, tid, res_id, -1),
            res_types: self.res_types,
        }
    }

    /// Thread `tid` holds a unit of resource `res_id` that may go back to the
    /// free pool without any count leaving its type.
    pub open spec fn can_release(self, tid: int, res_id: int) -> bool {
        &&& 0 <= tid < self.allocation.len()
        &&& 0 <= res_id < self.allocation[tid].len()
        &&& 0 <= res_id < self.available.len()
        &&& self.allocation[tid][res_id] >= 1
        &&& self.available[res_id] < i32::MAX
    }

    /// One unit of resource `res_id` passes from thread `tid` back to the
    /// free pool.
    pub open spec fn released(self, tid: int, res_id: int) -> ResourceState {
        ResourceState {
            available: self.available.update(res_id, (self.available[res_id] + 1) as i32),
            allocation: bump(self.allocation, tid, res_id, -1),
            need: self.need,
            res_types: self.res_types,
        }
    }

    /// The state after thread `tid` is registered: threads up to `tid` that
    /// had no rows get zero rows one longer than the resource count.
    pub open spec fn with_thread(self, tid: int) -> ResourceState {
        let row = zero_row(self.num_resources() + 1);
        ResourceState {
            available: self.available,
            allocation: padded(self.allocation, tid + 1, row),
            need: padded(self.need, tid + 1, row),
            res_types: self.res_types,
        }
    }
}

/// The resource manager of the banker's algorithm.
pub struct ResourceManager {
    /// Free units of each resource.
    pub available: Vec<i32>,
    /// `allocation[tid][res_id]`: units of the resource held by the thread.
    pub allocation: Vec<Vec<usize>>,
    /// `need[tid][res_id]`: units of the resource the thread waits for.
    pub need: Vec<Vec<usize>>,
    /// Kind of each resource.
    pub res_types: Vec<ResType>,
}

impl View for ResourceManager {
    type V = ResourceState;

    open spec fn view(&self) -> ResourceState {
        ResourceState {
            available: self.available@,
            allocation: self.allocation@.map_values(|r: Vec<usize>| r@),
            need: self.need@.map_values(|r: Vec<usize>| r@),
            res_types: self.res_types@,
        }
    }
}

/// Extends `v` with copies of `fill` up to length `len`.
fn pad_with<T: Copy>(v: &mut Vec<T>, len: usize, fill: T)
    ensures
        final(v)@ == padded(old(v)@, len as int, fill),
{
    let ghost start = v@;
    while v.len() < len
        invariant
            start.len() <= v@.len(),
            v@.len() < len ==> v@ == start + Seq::new((v@.len() - start.len()) as nat, |_k: int| fill),
            v@.len() >= len ==> v@ == padded(start, len as int, fill),
        decreases len - v@.len(),
    {
        v.push(fill);
        proof {
            assert(v@ =~= start + Seq::new((v@.len() - start.len()) as nat, |_k: int| fill));
        }
    }
}

/// A vector of `len` zeros.
fn zeros(len: usize) -> (v: Vec<usize>)
    ensures
        v@ == zero_row(len as nat),
{
    let mut v: Vec<usize> = Vec::new();
    while v.len() < len
        invariant
            v@.len() <= len,
            v@ == zero_row(v@.len()),
        decreases len - v@.len(),
    {
        v.push(0);
        proof {
            assert(v@ =~= zero_row(v@.len()));
        }
    }
    v
}

/// Extends the rows of `rows` with zero rows of length `width` up to `len` rows.
fn pad_rows(rows: &mut Vec<Vec<usize>>, len: usize, width: usize)
    ensures
        final(rows)@.map_values(|r: Vec<usize>| r@) == padded(
            old(rows)@.map_values(|r: Vec<usize>| r@),
            len as int,
            zero_row(width as nat),
        ),
{
    let ghost start = rows@.map_values(|r: Vec<usize>| r@);
    while rows.len() < len
        invariant
            start.len() <= rows@.len(),
            ({
                let cur = rows@.map_values(|r: Vec<usize>| r@);
                &&& rows@.len() < len ==> cur == start + Seq::new(
                    (rows@.len() - start.len()) as nat,
                    |_k: int| zero_row(width as nat),
                )
                &&& rows@.len() >= len ==> cur == padded(start, len as int, zero_row(width as nat))
            }),
        decreases len - rows@.len(),
    {
        let row = zeros(width);
        let ghost prev = rows@;
        rows.push(row);
        proof {
            assert(rows@.map_values(|r: Vec<usize>| r@) =~= prev.map_values(|r: Vec<usize>| r@).push(
                zero_row(width as nat),
            ));
            assert(rows@.map_values(|r: Vec<usize>| r@) =~= start + Seq::new(
                (rows@.len() - start.len()) as nat,
                |_k: int| zero_row(width as nat),
            ));
        }
    }
}

impl ResourceManager {
    /// An empty resource manager: no resources, no threads.
    pub fn new() -> (r: Self)
        ensures
            r@.available == Seq::<i32>::empty(),
            r@.allocation == Seq::<Seq<usize>>::empty(),
            r@.need == Seq::<Seq<usize>>::empty(),
            r@.res_types == Seq::<ResType>::empty(),
            r@.wf(),
    {
        let r = Self {
            available: Vec::new(),
            allocation: Vec::new(),
            need: Vec::new(),
            res_types: Vec::new(),
        };
        assert(r@.allocation =~= Seq::<Seq<usize>>::empty());
        assert(r@.need =~= Seq::<Seq<usize>>::empty());
        r
    }

    /// Registers resource `res_id` of kind `res_type` with `total` units,
    /// created by thread `tid`: the tables grow to cover `res_id`, every
    /// thread's allocation and need rows grow with zeros to cover every
    /// resource, and the free count is set.
    pub fn add_resource(&mut self, res_id: usize, tid: usize, res_type: ResType, total: usize)
        requires
            old(self)@.wf(),
            tid < old(self)@.num_threads(),
            res_id < usize::MAX,
        ensures
            final(self)@ == old(self)@.with_resource(res_id as int, tid as int, res_type, total),
            final(self)@.wf(),
    {
        let ghost s0 = self@;
        if res_id >= self.available.len() {
            pad_with(&mut self.available, res_id + 1, 0i32);
            pad_with(&mut self.res_types, res_id + 1, ResType::Mutex);
        }
        let width = self.available.len();
        assert(width as int == padded(s0.available, res_id + 1, 0i32).len());
        let n = self.allocation.len();
        for i in 0..n
            invariant
                n == s0.num_threads(),
                s0.wf(),
                self@.available == padded(s0.available, res_id + 1, 0i32),
                self@.res_types == padded(s0.res_types, res_id + 1, ResType::Mutex),
                width == self@.available.len(),
                self@.allocation.len() == n,
                self@.need.len() == n,
                forall|k: int| 0 <= k < i ==> #[trigger] self@.allocation[k] == padded(s0.allocation[k], width as int, 0usize),
                forall|k: int| 0 <= k < i ==> #[trigger] self@.need[k] == padded(s0.need[k], width as int, 0usize),
                forall|k: int| i <= k < n ==> #[trigger] self@.allocation[k] == s0.allocation[k],
                forall|k: int| i <= k < n ==> #[trigger] self@.need[k] == s0.need[k],
        {
            let ghost a0 = self.allocation@;
            let ghost w0 = self.need@;
            proof {
                assert(self@.allocation[i as int] == s0.allocation[i as int]);
                assert(self@.need[i as int] == s0.need[i as int]);
                assert(self@.allocation[i as int] == a0[i as int]@);
                assert(self@.need[i as int] == w0[i as int]@);
                assert forall|k: int| 0 <= k < n implies #[trigger] a0[k]@ == (if k < i {
                    padded(s0.allocation[k], width as int, 0usize)
                } else {
                    s0.allocation[k]
                }) by {
                    assert(self@.allocation[k] == a0[k]@);
                }
                assert forall|k: int| 0 <= k < n implies #[trigger] w0[k]@ == (if k < i {
                    padded(s0.need[k], width as int, 0usize)
                } else {
                    s0.need[k]
                }) by {
                    assert(self@.need[k] == w0[k]@);
                }
            }
            pad_with(&mut self.allocation[i], width, 0usize);
            pad_with(&mut self.need[i], width, 0usize);
            proof {
                assert forall|k: int| 0 <= k < n && k != i implies #[trigger] self.allocation@[k] == a0[k] by {}
                assert forall|k: int| 0 <= k < n && k != i implies #[trigger] self.need@[k] == w0[k] by {}
                assert(self@.allocation[i as int] == self.allocation@[i as int]@);
                assert(self@.need[i as int] == self.need@[i as int]@);
                assert(self@.allocation[i as int] == padded(s0.allocation[i as int], width as int, 0usize));
                assert(self@.need[i as int] == padded(s0.need[i as int], width as int, 0usize));
                assert forall|k: int| 0 <= k < n && k != i implies #[trigger] self@.allocation[k] == a0[k]@ by {}
                assert forall|k: int| 0 <= k < n && k != i implies #[trigger] self@.need[k] == w0[k]@ by {}
            }
        }
        self.res_types.set(res_id, res_type);
        self.available.set(res_id, total as i32);
        proof {
            let s1 = self@;
            let t = s0.with_resource(res_id as int, tid as int, res_type, total);
            assert(s1.available =~= t.available);
            assert(s1.res_types =~= t.res_types);
            assert(s1.allocation =~= t.allocation);
            assert(s1.need =~= t.need);
        }
    }

    /// Registers thread `tid`: if it has no rows yet, the tables grow to
    /// cover it with zero rows one longer than the resource count.
    pub fn add_thread(&mut self, tid: usize)
        requires
            old(self)@.wf(),
            tid < usize::MAX,
            old(self)@.num_resources() < usize::MAX,
        ensures
            final(self)@ == old(self)@.with_thread(tid as int),
            final(self)@.wf(),
    {
        let ghost s0 = self@;
        if tid >= self.allocation.len() {
            let m = self.available.len() + 1;
            pad_rows(&mut self.allocation, tid + 1, m);
            pad_rows(&mut self.need, tid + 1, m);
        }
        proof {
            let s1 = self@;
            let t = s0.with_thread(tid as int);
            assert(s1.allocation =~= t.allocation);
            assert(s1.need =~= t.need);
        }
    }
}

/// The threads marked finished in `finish`.
pub open spec fn done_set(finish: Seq<bool>) -> Set<int> {
    Set::new(|i: int| 0 <= i < finish.len() && finish[i])
}

/// Number of entries of `finish` that are still `false`.
pub open spec fn count_unfinished(finish: Seq<bool>) -> nat
    decreases finish.len(),
{
    if finish.len() == 0 {
        0
    } else {
        count_unfinished(finish.drop_last()) + if finish.last() {
            0nat
        } else {
            1nat
        }
    }
}

impl ResourceManager {
    /// Whether thread `i` waits for no more of any resource than `work` offers.
    fn fits_in(&self, work: &Vec<i32>, i: usize) -> (r: bool)
        requires
            i < self@.num_threads(),
            self@.wf(),
            self@.checkable(),
            work@.len() == self@.num_resources(),
        ensures
            r == forall|j: int|
                0 <= j < work@.len() ==> (#[trigger] self@.need[i as int][j] as i32) as int <= work@[j] as int,
    {
        let m = work.len();
        for j in 0..m
            invariant
                m == work@.len(),
                i < self@.num_threads(),
                self@.wf(),
                self@.checkable(),
                work@.len() == self@.num_resources(),
                forall|j2: int|
                    0 <= j2 < j ==> (#[trigger] self@.need[i as int][j2] as i32) as int <= work@[j2] as int,
        {
            assert(self@.need[i as int] == self.need@[i as int]@);
            if !(self.need[i][j] as i32 <= work[j]) {
                return false;
            }
        }
        true
    }

    /// The banker's safety check for a request of resource `res_id`: false
    /// when `res_id` is a mutex with no free unit; otherwise whether every
    /// thread can finish in some order, each one after the threads before it
    /// have released what they hold.
    pub fn is_safe(&self, _tid: usize, res_id: usize) -> (r: bool)
        requires
            self@.wf(),
            self@.checkable(),
            res_id < self@.num_resources(),
        ensures
            r == self@.admits(res_id as int),
    {
        let ghost s = self@;
        let mut work = self.available.clone();
        assert(work@ =~= self.available@);
        if self.res_types[res_id] == ResType::Mutex && work[res_id] == 0 {
            return false;
        }
        let n = self.allocation.len();
        let m = work.len();
        let mut finish: Vec<bool> = Vec::new();
        while finish.len() < n
            invariant
                finish@.len() <= n,
                forall|k: int| 0 <= k < finish@.len() ==> !#[trigger] finish@[k],
            decreases n - finish@.len(),
        {
            finish.push(false);
        }
        let ghost mut order: Seq<int> = Seq::empty();
        proof {
            assert(done_set(finish@) =~= Set::<int>::empty());
            assert forall|j: int| 0 <= j < m implies work@[j] as int == s.available[j] + s.held(done_set(finish@), j) by {
                lemma_held_same(s.allocation, done_set(finish@), Set::<int>::empty(), j, s.num_threads());
                lemma_held_zero(s.allocation, j, s.num_threads());
            }
        }
        loop
            invariant
                s == self@,
                s.wf(),
                s.checkable(),
                !(s.res_types[res_id as int] == ResType::Mutex && s.available[res_id as int] == 0),
                res_id < m,
                n == s.num_threads(),
                m == s.num_resources(),
                finish@.len() == n,
                work@.len() == m,
                forall|j: int|
                    0 <= j < m ==> #[trigger] work@[j] as int == s.available[j] + s.held(done_set(finish@), j),
                order.no_duplicates(),
                forall|k: int| 0 <= k < order.len() ==> 0 <= #[trigger] order[k] < n,
                forall|x: int|
                    0 <= x < n ==> (#[trigger] order.contains(x) <==> finish@[x]),
                forall|k: int|
                    0 <= k < order.len() ==> #[trigger] s.can_finish(order.take(k).to_set(), order[k]),
            ensures
                finish@.len() == n,
                order.no_duplicates(),
                forall|k: int| 0 <= k < order.len() ==> 0 <= #[trigger] order[k] < n,
                forall|x: int|
                    0 <= x < n ==> (#[trigger] order.contains(x) <==> finish@[x]),
                forall|k: int|
                    0 <= k < order.len() ==> #[trigger] s.can_finish(order.take(k).to_set(), order[k]),
                forall|x: int|
                    0 <= x < n && !finish@[x] ==> !#[trigger] s.can_finish(done_set(finish@), x),
            decreases count_unfinished(finish@),
        {
            let mut found = false;
            let ghost pass_start = count_unfinished(finish@);
            for i in 0..n
                invariant
                    s == self@,
                    s.wf(),
                    s.checkable(),
                    n == s.num_threads(),
                    m == s.num_resources(),
                    finish@.len() == n,
                    work@.len() == m,
                    forall|j: int|
                        0 <= j < m ==> #[trigger] work@[j] as int == s.available[j] + s.held(done_set(finish@), j),
                    order.no_duplicates(),
                    forall|k: int| 0 <= k < order.len() ==> 0 <= #[trigger] order[k] < n,
                    forall|x: int|
                        0 <= x < n ==> (#[trigger] order.contains(x) <==> finish@[x]),
                    forall|k: int|
                        0 <= k < order.len() ==> #[trigger] s.can_finish(order.take(k).to_set(), order[k]),
                    count_unfinished(finish@) <= pass_start,
                    found ==> count_unfinished(finish@) < pass_start,
                    !found ==> forall|x: int|
                        0 <= x < i && !finish@[x] ==> !#[trigger] s.can_finish(done_set(finish@), x),
            {
                if !finish[i] && self.fits_in(&work, i) {
                    let ghost done0 = done_set(finish@);
                    proof {
                        assert(s.can_finish(done0, i as int));
                        assert forall|j: int| 0 <= j < m implies #[trigger] s.held(done0.insert(i as int), j)
                            == s.held(done0, j) + s.allocation[i as int][j] by {
                            lemma_held_insert(s.allocation, done0, i as int, j, n as nat);
                        }
                        assert forall|j: int| 0 <= j < m implies s.held(done0.insert(i as int), j) <= s.held(Set::full(), j) by {
                            lemma_held_mono(s.allocation, done0.insert(i as int), Set::full(), j, n as nat);
                        }
                    }
                    for j in 0..m
                        invariant
                            s == self@,
                            s.wf(),
                            s.checkable(),
                            i < n,
                            n == s.num_threads(),
                            m == s.num_resources(),
                            work@.len() == m,
                            done0 == done_set(finish@),
                            forall|j2: int| 0 <= j2 < m ==> #[trigger] s.held(done0.insert(i as int), j2)
                                == s.held(done0, j2) + s.allocation[i as int][j2],
                            forall|j2: int| 0 <= j2 < m ==> s.held(done0.insert(i as int), j2) <= s.held(Set::full(), j2),
                            forall|j2: int|
                                j <= j2 < m ==> #[trigger] work@[j2] as int == s.available[j2] + s.held(done0, j2),
                            forall|j2: int|
                                0 <= j2 < j ==> #[trigger] work@[j2] as int == s.available[j2] + s.held(done0.insert(i as int), j2),
                    {
                        assert(s.allocation[i as int] == self.allocation@[i as int]@);
                        assert(s.total(j as int) <= i32::MAX);
                        let add = self.allocation[i][j] as i32;
                        work.set(j, work[j] + add);
                    }
                    let ghost f0 = finish@;
                    finish.set(i, true);
                    proof {
                        lemma_count_unfinished_mark(f0, i as int);
                        assert(done_set(finish@) =~= done0.insert(i as int));
                        let o0 = order;
                        order = order.push(i as int);
                        assert(!o0.contains(i as int));
                        assert(o0.to_set() =~= done0) by {
                            assert forall|x: int| o0.to_set().contains(x) <==> done0.contains(x) by {
                                if o0.contains(x) {
                                    let k = choose|k: int| 0 <= k < o0.len() && o0[k] == x;
                                    assert(0 <= o0[k] < n);
                                }
                            }
                        }
                        assert forall|k: int| 0 <= k < order.len() implies #[trigger] s.can_finish(order.take(k).to_set(), order[k]) by {
                            if k < o0.len() {
                                assert(order.take(k) =~= o0.take(k));
                                assert(order[k] == o0[k]);
                            } else {
                                assert(order.take(k) =~= o0);
                            }
                        }
                        assert forall|x: int| 0 <= x < n implies (#[trigger] order.contains(x) <==> finish@[x]) by {
                            if x == i {
                                assert(order[o0.len() as int] == x);
                            } else if o0.contains(x) {
                                let k = choose|k: int| 0 <= k < o0.len() && o0[k] == x;
                                assert(order[k] == x);
                            } else if order.contains(x) {
                                let k = choose|k: int| 0 <= k < order.len() && order[k] == x;
                                assert(k < o0.len());
                                assert(o0[k] == x);
                            }
                        }
                    }
                    found = true;
                }
            }
            if !found {
                break;
            }
        }
        let mut all = true;
        for i in 0..n
            invariant
                finish@.len() == n,
                all == forall|x: int| 0 <= x < i ==> #[trigger] finish@[x],
        {
            if !finish[i] {
                all = false;
            }
        }
        proof {
            if all {
                assert(s.is_safe_sequence(order));
            } else {
                if s.is_safe_state() {
                    s.lemma_safe_closed_is_all(done_set(finish@));
                    let x = choose|x: int| 0 <= x < n && !finish@[x];
                    assert(done_set(finish@).contains(x));
                }
            }
        }
        all
    }
}

impl ResourceManager {
    /// Records that thread `tid` waits for one more unit of `res_id`.
    pub(crate) fn request(&mut self, tid: usize, res_id: usize)
        requires
            old(self)@.can_request(tid as int, res_id as int),
        ensures
            final(self)@ == old(self)@.requested(tid as int, res_id as int),
    {
        let ghost s0 = self@;
        let v = self.need[tid][res_id] + 1;
        self.need[tid].set(res_id, v);
        assert(self@.need =~= s0.requested(tid as int, res_id as int).need);
    }

    /// Takes back a request that `request` recorded.
    pub(crate) fn withdraw_request(&mut self, tid: usize, res_id: usize)
        requires
            0 <= tid < old(self)@.need.len(),
            0 <= res_id < old(self)@.need[tid as int].len(),
            old(self)@.need[tid as int][res_id as int] >= 1,
        ensures
            final(self)@ == old(self)@.unrequested(tid as int, res_id as int),
    {
        let ghost s0 = self@;
        let v = self.need[tid][res_id] - 1;
        self.need[tid].set(res_id, v);
        assert(self@.need =~= bump(s0.need, tid as int, res_id as int, -1));
    }

    /// Moves one unit of `res_id` from the free pool to thread `tid`.
    pub(crate) fn grant(&mut self, tid: usize, res_id: usize)
        requires
            old(self)@.can_grant(tid as int, res_id as int),
        ensures
            final(self)@ == old(self)@.granted(tid as int, res_id as int),
    {
        let ghost s0 = self@;
        let a = self.allocation[tid][res_id] + 1;
        self.allocation[tid].set(res_id, a);
        let w = self.need[tid][res_id] - 1;
        self.need[tid].set(res_id, w);
        let f = self.available[res_id] - 1;
        self.available.set(res_id, f);
        proof {
            let t = s0.granted(tid as int, res_id as int);
            assert(self@.allocation =~= t.allocation);
            assert(self@.need =~= t.need);
            assert(self@.available =~= t.available);
        }
    }

    /// Moves one unit of `res_id` from thread `tid` back to the free pool.
    pub(crate) fn release(&mut self, tid: usize, res_id: usize)
        requires
            old(self)@.can_release(tid as int, res_id as int),
        ensures
            final(self)@ == old(self)@.released(tid as int, res_id as int),
    {
        let ghost s0 = self@;
        let a = self.allocation[tid][res_id] - 1;
        self.allocation[tid].set(res_id, a);
        let f = self.available[res_id] + 1;
        self.available.set(res_id, f);
        proof {
            let t = s0.released(tid as int, res_id as int);
            assert(self@.allocation =~= t.allocation);
            assert(self@.available =~= t.available);
        }
    }
}

impl ResourceManager {
    /// Whether the state is well formed and the safety check can run on it
    /// (see [`ResourceState::checkable`]).
    pub fn ready_for_check(&self) -> (r: bool)
        ensures
            r == (self@.wf() && self@.checkable()),
    {
        if self.need.len() != self.allocation.len() || self.res_types.len() != self.available.len() {
            return false;
        }
        let ghost s = self@;
        let n = self.allocation.len();
        let m = self.available.len();
        for i in 0..n
            invariant
                s == self@,
                n == s.num_threads(),
                m == s.num_resources(),
                s.need.len() == n,
                s.res_types.len() == m,
                forall|i2: int| 0 <= i2 < i ==> #[trigger] s.need[i2].len() == s.allocation[i2].len(),
                forall|i2: int| 0 <= i2 < i ==> #[trigger] s.allocation[i2].len() >= m,
                forall|i2: int, j2: int| 0 <= i2 < i && 0 <= j2 < m ==> #[trigger] s.allocation[i2][j2] <= i32::MAX,
        {
            assert(s.allocation[i as int] == self.allocation@[i as int]@);
            assert(s.need[i as int] == self.need@[i as int]@);
            if self.need[i].len() != self.allocation[i].len() || self.allocation[i].len() < m {
                return false;
            }
            for j in 0..m
                invariant
                    s == self@,
                    n == s.num_threads(),
                    m == s.num_resources(),
                    i < n,
                    s.allocation[i as int].len() >= m,
                    forall|j2: int| 0 <= j2 < j ==> #[trigger] s.allocation[i as int][j2] <= i32::MAX,
            {
                assert(s.allocation[i as int] == self.allocation@[i as int]@);
                if self.allocation[i][j] > 0x7fff_ffffusize {
                    return false;
                }
            }
        }
        for j in 0..m
            invariant
                s == self@,
                n == s.num_threads(),
                m == s.num_resources(),
                s.wf(),
                forall|i2: int| 0 <= i2 < n ==> #[trigger] s.allocation[i2].len() >= m,
                forall|i2: int, j2: int| 0 <= i2 < n && 0 <= j2 < m ==> #[trigger] s.allocation[i2][j2] <= i32::MAX,
                forall|j2: int| 0 <= j2 < j ==> #[trigger] s.total(j2) <= i32::MAX,
        {
            let mut sum: i64 = self.available[j] as i64;
            for i in 0..n
                invariant
                    s == self@,
                    n == s.num_threads(),
                    m == s.num_resources(),
                    j < m,
                    forall|i2: int| 0 <= i2 < n ==> #[trigger] s.allocation[i2].len() >= m,
                    forall|i2: int, j2: int| 0 <= i2 < n && 0 <= j2 < m ==> #[trigger] s.allocation[i2][j2] <= i32::MAX,
                    sum == s.available[j as int] + held_by(s.allocation, Set::full(), j as int, i as nat),
                    sum <= i32::MAX,
            {
                assert(s.allocation[i as int] == self.allocation@[i as int]@);
                assert(s.allocation[i as int][j as int] <= i32::MAX);
                sum = sum + self.allocation[i][j] as i64;
                if sum > 0x7fff_ffffi64 {
                    proof {
                        assert(Set::<int>::full().contains(i as int));
                        assert(held_by(s.allocation, Set::full(), j as int, (i + 1) as nat) == held_by(
                            s.allocation,
                            Set::full(),
                            j as int,
                            i as nat,
                        ) + s.allocation[i as int][j as int]);
                        lemma_held_prefix_mono(s.allocation, Set::full(), j as int, (i + 1) as nat, n as nat);
                        assert(s.total(j as int) > i32::MAX);
                    }
                    return false;
                }
            }
        }
        true
    }
}

impl ResourceManager {
    /// Whether the state has the shape of [`ResourceState::wf`].
    pub fn well_formed(&self) -> (r: bool)
        ensures
            r == self@.wf(),
    {
        if self.need.len() != self.allocation.len() || self.res_types.len() != self.available.len() {
            return false;
        }
        let n = self.allocation.len();
        for i in 0..n
            invariant
                n == self@.num_threads(),
                self@.need.len() == n,
                forall|i2: int| 0 <= i2 < i ==> #[trigger] self@.need[i2].len() == self@.allocation[i2].len(),
        {
            assert(self@.need[i as int] == self.need@[i as int]@);
            assert(self@.allocation[i as int] == self.allocation@[i as int]@);
            if self.need[i].len() != self.allocation[i].len() {
                return false;
            }
        }
        true
    }

    /// Whether thread `tid` may ask for one more unit of `res_id`
    /// (see [`ResourceState::can_request`]).
    pub fn request_allowed(&self, tid: usize, res_id: usize) -> (r: bool)
        ensures
            r == self@.can_request(tid as int, res_id as int),
    {
        if tid >= self.need.len() {
            return false;
        }
        assert(self@.need[tid as int] == self.need@[tid as int]@);
        res_id < self.need[tid].len() && self.need[tid][res_id] < usize::MAX
    }

    /// Whether a unit of `res_id` may pass to thread `tid`
    /// (see [`ResourceState::can_grant`]).
    pub fn grant_allowed(&self, tid: usize, res_id: usize) -> (r: bool)
        ensures
            r == self@.can_grant(tid as int, res_id as int),
    {
        if tid >= self.allocation.len() || tid >= self.need.len() || res_id >= self.available.len() {
            return false;
        }
        assert(self@.need[tid as int] == self.need@[tid as int]@);
        assert(self@.allocation[tid as int] == self.allocation@[tid as int]@);
        res_id < self.allocation[tid].len() && res_id < self.need[tid].len() && self.allocation[tid][res_id]
            < usize::MAX && self.need[tid][res_id] >= 1 && self.available[res_id] > i32::MIN
    }

    /// Whether thread `tid` may give a unit of `res_id` back
    /// (see [`ResourceState::can_release`]).
    pub fn release_allowed(&self, tid: usize, res_id: usize) -> (r: bool)
        ensures
            r == self@.can_release(tid as int, res_id as int),
    {
        if tid >= self.allocation.len() || res_id >= self.available.len() {
            return false;
        }
        assert(self@.allocation[tid as int] == self.allocation@[tid as int]@);
        res_id < self.allocation[tid].len() && self.allocation[tid][res_id] >= 1 && self.available[res_id]
            < i32::MAX
    }
}

} // verus!
