//! Lemmas about the units held by sets of threads and about safe
//! sequences, behind the banker's safety check and its laws.
use vstd::prelude::*;
use crate::banker::{bump, count_unfinished, held_by, ResourceState};

verus! {

pub(crate) proof fn lemma_count_unfinished_mark(finish: Seq<bool>, i: int)
    requires
        0 <= i < finish.len(),
        !finish[i],
    ensures
        count_unfinished(finish.update(i, true)) + 1 == count_unfinished(finish),
    decreases finish.len(),
{
    let f2 = finish.update(i, true);
    if i == finish.len() - 1 {
        assert(f2.drop_last() =~= finish.drop_last());
    } else {
        assert(f2.drop_last() =~= finish.drop_last().update(i, true));
        lemma_count_unfinished_mark(finish.drop_last(), i);
    }
}

pub(crate) proof fn lemma_held_same(allocation: Seq<Seq<usize>>, d1: Set<int>, d2: Set<int>, j: int, n: nat)
    requires
        forall|k: int| 0 <= k < n ==> (d1.contains(k) <==> d2.contains(k)),
    ensures
        held_by(allocation, d1, j, n) == held_by(allocation, d2, j, n),
    decreases n,
{
    if n > 0 {
        lemma_held_same(allocation, d1, d2, j, (n - 1) as nat);
    }
}

pub(crate) proof fn lemma_held_insert(allocation: Seq<Seq<usize>>, done: Set<int>, i: int, j: int, n: nat)
    requires
        0 <= i < n,
        !done.contains(i),
    ensures
        held_by(allocation, done.insert(i), j, n) == held_by(allocation, done, j, n) + allocation[i][j],
    decreases n,
{
    if i == n - 1 {
        lemma_held_same(allocation, done.insert(i), done, j, (n - 1) as nat);
    } else {
        lemma_held_insert(allocation, done, i, j, (n - 1) as nat);
    }
}

pub(crate) proof fn lemma_held_mono(allocation: Seq<Seq<usize>>, d1: Set<int>, d2: Set<int>, j: int, n: nat)
    requires
        forall|k: int| 0 <= k < n && #[trigger] d1.contains(k) ==> d2.contains(k),
    ensures
        held_by(allocation, d1, j, n) <= held_by(allocation, d2, j, n),
    decreases n,
{
    if n > 0 {
        lemma_held_mono(allocation, d1, d2, j, (n - 1) as nat);
    }
}

impl ResourceState {
    /// Finishing more threads never makes a thread unable to finish.
    pub(crate) proof fn lemma_can_finish_mono(self, d1: Set<int>, d2: Set<int>, i: int)
        requires
            self.can_finish(d1, i),
            forall|k: int| 0 <= k < self.num_threads() && #[trigger] d1.contains(k) ==> d2.contains(k),
        ensures
            self.can_finish(d2, i),
    {
        assert forall|j: int| 0 <= j < self.num_resources() implies (#[trigger] self.need[i][j] as i32) as int
            <= self.available[j] + self.held(d2, j) by {
            lemma_held_mono(self.allocation, d1, d2, j, self.num_threads());
        }
    }

    /// Every thread of a safe sequence belongs to a set of threads that no
    /// other thread can join, if its prefix does.
    pub(crate) proof fn lemma_safe_prefix_done(self, order: Seq<int>, done: Set<int>, k: int)
        requires
            self.is_safe_sequence(order),
            forall|i: int|
                0 <= i < self.num_threads() && !done.contains(i) ==> !#[trigger] self.can_finish(done, i),
            0 <= k <= order.len(),
        ensures
            forall|l: int| 0 <= l < k ==> done.contains(#[trigger] order[l]),
        decreases k,
    {
        if k > 0 {
            self.lemma_safe_prefix_done(order, done, k - 1);
            let prefix = order.take(k - 1).to_set();
            assert forall|x: int| 0 <= x < self.num_threads() && #[trigger] prefix.contains(x) implies done.contains(x) by {
                assert(order.take(k - 1).contains(x));
                let l = choose|l: int| 0 <= l < k - 1 && #[trigger] order.take(k - 1)[l] == x;
                assert(order[l] == x);
            }
            assert(self.can_finish(prefix, order[k - 1]));
            self.lemma_can_finish_mono(prefix, done, order[k - 1]);
        }
    }

    /// If no thread outside `done` can finish, a safe state has every thread
    /// in `done`.
    pub(crate) proof fn lemma_safe_closed_is_all(self, done: Set<int>)
        requires
            self.is_safe_state(),
            forall|i: int|
                0 <= i < self.num_threads() && !done.contains(i) ==> !#[trigger] self.can_finish(done, i),
        ensures
            forall|i: int| 0 <= i < self.num_threads() ==> #[trigger] done.contains(i),
    {
        let order = choose|order: Seq<int>| self.is_safe_sequence(order);
        self.lemma_safe_prefix_done(order, done, order.len() as int);
        assert forall|i: int| 0 <= i < self.num_threads() implies #[trigger] done.contains(i) by {
            assert(order.contains(i));
            let l = choose|l: int| 0 <= l < order.len() && order[l] == i;
            assert(done.contains(order[l]));
        }
    }
}

pub(crate) proof fn lemma_held_zero(allocation: Seq<Seq<usize>>, j: int, n: nat)
    ensures
        held_by(allocation, Set::<int>::empty(), j, n) == 0,
    decreases n,
{
    if n > 0 {
        lemma_held_zero(allocation, j, (n - 1) as nat);
    }
}

pub(crate) proof fn lemma_held_bump(allocation: Seq<Seq<usize>>, done: Set<int>, t: int, r: int, delta: int, j: int, n: nat)
    requires
        0 <= t < n <= allocation.len(),
        0 <= r < allocation[t].len(),
        0 <= j < allocation[t].len(),
        0 <= allocation[t][r] + delta <= usize::MAX,
    ensures
        held_by(bump(allocation, t, r, delta), done, j, n) == held_by(allocation, done, j, n) + if j == r
            && done.contains(t) {
            delta
        } else {
            0
        },
    decreases n,
{
    let a2 = bump(allocation, t, r, delta);
    if t == n - 1 {
        lemma_held_rows_same(a2, allocation, done, j, (n - 1) as nat);
    } else {
        lemma_held_bump(allocation, done, t, r, delta, j, (n - 1) as nat);
    }
}

pub(crate) proof fn lemma_held_rows_same(a1: Seq<Seq<usize>>, a2: Seq<Seq<usize>>, done: Set<int>, j: int, n: nat)
    requires
        forall|k: int| 0 <= k < n ==> #[trigger] a1[k] == a2[k],
    ensures
        held_by(a1, done, j, n) == held_by(a2, done, j, n),
    decreases n,
{
    if n > 0 {
        lemma_held_rows_same(a1, a2, done, j, (n - 1) as nat);
    }
}

pub(crate) proof fn lemma_held_nonneg(allocation: Seq<Seq<usize>>, done: Set<int>, j: int, n: nat)
    ensures
        held_by(allocation, done, j, n) >= 0,
    decreases n,
{
    if n > 0 {
        lemma_held_nonneg(allocation, done, j, (n - 1) as nat);
    }
}

pub(crate) proof fn lemma_held_prefix_mono(allocation: Seq<Seq<usize>>, done: Set<int>, j: int, k: nat, n: nat)
    requires
        k <= n,
    ensures
        held_by(allocation, done, j, k) <= held_by(allocation, done, j, n),
    decreases n,
{
    if k < n {
        lemma_held_prefix_mono(allocation, done, j, k, (n - 1) as nat);
    }
}

} // verus!
