//! Laws of the resource manager: what requests, grants, releases and
//! registrations do to its state taken together.
use vstd::prelude::*;
use crate::banker::{bump, held_by, zero_row, ResType, ResourceState};
use crate::banker_lemmas::{lemma_held_bump, lemma_held_insert, lemma_held_nonneg, lemma_held_same, lemma_held_zero};

verus! {

/// A request that is withdrawn leaves the resource manager as it was.
pub proof fn law_request_withdraw_round_trip(s: ResourceState, tid: int, res_id: int)
    requires
        s.can_request(tid, res_id),
    ensures
        s.requested(tid, res_id).unrequested(tid, res_id) == s,
{
    let s2 = s.requested(tid, res_id).unrequested(tid, res_id);
    assert(s2.need[tid] =~= s.need[tid]);
    assert(s2.need =~= s.need);
}

/// A request that is granted and whose unit is later released leaves the
/// resource manager as it was before the request, and each step is allowed
/// by the one before.
pub proof fn law_request_grant_release_round_trip(s: ResourceState, tid: int, res_id: int)
    requires
        s.can_request(tid, res_id),
        0 <= tid < s.allocation.len(),
        0 <= res_id < s.allocation[tid].len(),
        0 <= res_id < s.available.len(),
        s.allocation[tid][res_id] < usize::MAX,
        s.available[res_id] > i32::MIN,
    ensures
        s.requested(tid, res_id).can_grant(tid, res_id),
        s.requested(tid, res_id).granted(tid, res_id).can_release(tid, res_id),
        s.requested(tid, res_id).granted(tid, res_id).released(tid, res_id) == s,
{
    let s3 = s.requested(tid, res_id).granted(tid, res_id).released(tid, res_id);
    assert(s3.need[tid] =~= s.need[tid]);
    assert(s3.need =~= s.need);
    assert(s3.allocation[tid] =~= s.allocation[tid]);
    assert(s3.allocation =~= s.allocation);
    assert(s3.available =~= s.available);
}

/// Granting a unit keeps, for every resource, the free and the held units
/// together unchanged.
pub proof fn law_grant_keeps_total(s: ResourceState, tid: int, res_id: int)
    requires
        s.can_grant(tid, res_id),
        s.allocation[tid].len() >= s.num_resources(),
    ensures
        forall|j: int| 0 <= j < s.num_resources() ==> #[trigger] s.granted(tid, res_id).total(j) == s.total(j),
{
    assert forall|j: int| 0 <= j < s.num_resources() implies #[trigger] s.granted(tid, res_id).total(j) == s.total(j) by {
        lemma_held_bump(s.allocation, Set::full(), tid, res_id, 1, j, s.num_threads());
    }
}

/// Releasing a unit keeps, for every resource, the free and the held units
/// together unchanged.
pub proof fn law_release_keeps_total(s: ResourceState, tid: int, res_id: int)
    requires
        s.can_release(tid, res_id),
        s.allocation[tid].len() >= s.num_resources(),
    ensures
        forall|j: int| 0 <= j < s.num_resources() ==> #[trigger] s.released(tid, res_id).total(j) == s.total(j),
{
    assert forall|j: int| 0 <= j < s.num_resources() implies #[trigger] s.released(tid, res_id).total(j) == s.total(j) by {
        lemma_held_bump(s.allocation, Set::full(), tid, res_id, -1, j, s.num_threads());
    }
}

/// Registering a thread that already has rows changes nothing.
pub proof fn law_add_thread_known(s: ResourceState, tid: int)
    requires
        0 <= tid < s.num_threads(),
        s.wf(),
    ensures
        s.with_thread(tid) == s,
{
}

/// Registering a resource or a thread keeps the state well formed.
pub proof fn law_registration_keeps_wf(s: ResourceState, res_id: int, tid: int, res_type: ResType, total: usize, new_tid: int)
    requires
        s.wf(),
        0 <= tid < s.num_threads(),
        0 <= res_id,
        0 <= new_tid,
    ensures
        s.with_resource(res_id, tid, res_type, total).wf(),
        s.with_thread(new_tid).wf(),
{
    let s1 = s.with_resource(res_id, tid, res_type, total);
    assert forall|i: int| 0 <= i < s1.allocation.len() implies #[trigger] s1.need[i].len() == s1.allocation[i].len() by {
        assert(s.need[i].len() == s.allocation[i].len());
    }
    let s2 = s.with_thread(new_tid);
    assert forall|i: int| 0 <= i < s2.allocation.len() implies #[trigger] s2.need[i].len() == s2.allocation[i].len() by {
        if i >= s.num_threads() {
            assert(s2.need[i] == zero_row(s.num_resources() + 1));
            assert(s2.allocation[i] == zero_row(s.num_resources() + 1));
        }
    }
}

/// A state in which no thread waits for anything and no free count is
/// negative is safe: the threads can finish in any order.
pub proof fn law_no_need_is_safe(s: ResourceState)
    requires
        forall|i: int, j: int|
            0 <= i < s.num_threads() && 0 <= j < s.num_resources() ==> #[trigger] s.need[i][j] == 0,
        forall|j: int| 0 <= j < s.num_resources() ==> #[trigger] s.available[j] >= 0,
    ensures
        s.is_safe_state(),
{
    let order = Seq::new(s.num_threads(), |i: int| i);
    assert forall|i: int| 0 <= i < s.num_threads() implies #[trigger] order.contains(i) by {
        assert(order[i] == i);
    }
    assert forall|k: int| 0 <= k < order.len() implies #[trigger] s.can_finish(order.take(k).to_set(), order[k]) by {
        assert forall|j: int| 0 <= j < s.num_resources() implies (#[trigger] s.need[order[k]][j] as i32) as int
            <= s.available[j] + s.held(order.take(k).to_set(), j) by {
            lemma_held_nonneg(s.allocation, order.take(k).to_set(), j, s.num_threads());
            assert(s.need[k][j] == 0);
            assert((0usize as i32) == 0i32);
        }
    }
    assert(s.is_safe_sequence(order));
}

/// Requests, grants and releases keep the state well formed.
pub proof fn law_bookkeeping_keeps_wf(s: ResourceState, tid: int, res_id: int)
    requires
        s.wf(),
    ensures
        s.can_request(tid, res_id) ==> s.requested(tid, res_id).wf(),
        s.can_request(tid, res_id) ==> s.requested(tid, res_id).unrequested(tid, res_id).wf(),
        s.can_grant(tid, res_id) ==> s.granted(tid, res_id).wf(),
        s.can_release(tid, res_id) ==> s.released(tid, res_id).wf(),
{
    if s.can_request(tid, res_id) {
        let s1 = s.requested(tid, res_id);
        assert forall|i: int| 0 <= i < s1.allocation.len() implies #[trigger] s1.need[i].len() == s1.allocation[i].len() by {
            if i != tid {
                assert(s1.need[i] == s.need[i]);
            }
        }
        let s2 = s1.unrequested(tid, res_id);
        assert forall|i: int| 0 <= i < s2.allocation.len() implies #[trigger] s2.need[i].len() == s2.allocation[i].len() by {
            if i != tid {
                assert(s2.need[i] == s1.need[i]);
            }
        }
    }
    if s.can_grant(tid, res_id) {
        let s1 = s.granted(tid, res_id);
        assert forall|i: int| 0 <= i < s1.allocation.len() implies #[trigger] s1.need[i].len() == s1.allocation[i].len() by {
            if i != tid {
                assert(s1.need[i] == s.need[i]);
                assert(s1.allocation[i] == s.allocation[i]);
            }
        }
    }
    if s.can_release(tid, res_id) {
        let s1 = s.released(tid, res_id);
        assert forall|i: int| 0 <= i < s1.allocation.len() implies #[trigger] s1.need[i].len() == s1.allocation[i].len() by {
            if i != tid {
                assert(s1.allocation[i] == s.allocation[i]);
            }
        }
    }
}

/// Registering a resource makes every thread's rows cover every resource;
/// registering a thread keeps that so and gives the thread its rows.
pub proof fn law_registration_keeps_rows_covering(
    s: ResourceState,
    res_id: int,
    tid: int,
    res_type: ResType,
    total: usize,
    new_tid: int,
)
    requires
        s.wf(),
        0 <= tid < s.num_threads(),
        0 <= res_id,
        0 <= new_tid,
    ensures
        s.with_resource(res_id, tid, res_type, total).rows_cover(),
        s.rows_cover() ==> s.with_thread(new_tid).rows_cover(),
        new_tid < s.with_thread(new_tid).num_threads(),
        s.with_thread(new_tid).wf(),
{
    law_registration_keeps_wf(s, res_id, tid, res_type, total, new_tid);
    let s2 = s.with_thread(new_tid);
    if s.rows_cover() {
        assert forall|i: int| 0 <= i < s2.num_threads() implies #[trigger] s2.allocation[i].len()
            >= s2.num_resources() && s2.need[i].len() >= s2.num_resources() by {
            if i >= s.num_threads() {
                assert(s2.need[i] == zero_row(s.num_resources() + 1));
                assert(s2.allocation[i] == zero_row(s.num_resources() + 1));
            }
        }
    }
}

/// Registering the same resource twice leaves the state as registering it
/// once: the free count is set, not added to.
pub proof fn law_add_resource_idempotent(s: ResourceState, res_id: int, tid: int, res_type: ResType, total: usize)
    requires
        0 <= res_id,
    ensures
        s.with_resource(res_id, tid, res_type, total).with_resource(res_id, tid, res_type, total)
            == s.with_resource(res_id, tid, res_type, total),
{
    let s1 = s.with_resource(res_id, tid, res_type, total);
    let s2 = s1.with_resource(res_id, tid, res_type, total);
    assert(s2.available =~= s1.available);
    assert(s2.res_types =~= s1.res_types);
    assert(s2.allocation =~= s1.allocation);
    assert(s2.need =~= s1.need);
}

/// Waiting for more never makes an unsafe state safe: when `b` differs
/// from `a` only in waiting for at least as many units of each resource
/// (every need fitting in an `i32`), a safe `b` has a safe `a`, and a
/// request that the check admits on `b` it admits on `a`.
pub proof fn law_more_need_never_safer(a: ResourceState, b: ResourceState)
    requires
        b.available == a.available,
        b.allocation == a.allocation,
        b.res_types == a.res_types,
        b.need.len() == a.need.len(),
        forall|i: int, j: int|
            0 <= i < a.num_threads() && 0 <= j < a.num_resources() ==> #[trigger] a.need[i][j] <= b.need[i][j]
                <= i32::MAX,
    ensures
        b.is_safe_state() ==> a.is_safe_state(),
        forall|res_id: int| 0 <= res_id < a.num_resources() && #[trigger] b.admits(res_id) ==> a.admits(res_id),
{
    if b.is_safe_state() {
        let order = choose|order: Seq<int>| b.is_safe_sequence(order);
        assert forall|k: int| 0 <= k < order.len() implies #[trigger] a.can_finish(order.take(k).to_set(), order[k]) by {
            assert(b.can_finish(order.take(k).to_set(), order[k]));
            assert(0 <= order[k] < b.num_threads());
            assert forall|j: int| 0 <= j < a.num_resources() implies (#[trigger] a.need[order[k]][j] as i32) as int
                <= a.available[j] + a.held(order.take(k).to_set(), j) by {
                let i = order[k];
                assert(0 <= i < a.num_threads());
                assert(a.need[i][j] <= b.need[i][j]);
                assert(b.need[i][j] <= i32::MAX);
                assert((b.need[order[k]][j] as i32) as int <= b.available[j] + b.held(order.take(k).to_set(), j));
            }
        }
        assert(a.is_safe_sequence(order));
    }
}

/// `pi` lists each of the threads `0..n` exactly once.
pub open spec fn is_thread_permutation(pi: Seq<int>, n: nat) -> bool {
    &&& pi.len() == n
    &&& pi.no_duplicates()
    &&& forall|k: int| 0 <= k < n ==> 0 <= #[trigger] pi[k] < n
    &&& forall|x: int| 0 <= x < n ==> #[trigger] pi.contains(x)
}

/// The state with its threads listed again: thread `i` of the result is
/// thread `pi[i]` of `s`.
pub open spec fn renumbered(s: ResourceState, pi: Seq<int>) -> ResourceState {
    ResourceState {
        available: s.available,
        allocation: Seq::new(pi.len(), |i: int| s.allocation[pi[i]]),
        need: Seq::new(pi.len(), |i: int| s.need[pi[i]]),
        res_types: s.res_types,
    }
}

/// The position of thread `x` in `pi`.
pub open spec fn position_of(pi: Seq<int>, x: int) -> int {
    choose|i: int| 0 <= i < pi.len() && pi[i] == x
}

/// The threads that `pi` puts at the positions in `done`.
pub open spec fn image(pi: Seq<int>, done: Set<int>) -> Set<int> {
    Set::new(|y: int| exists|i: int| 0 <= i < pi.len() && done.contains(i) && #[trigger] pi[i] == y)
}

proof fn lemma_position_of(pi: Seq<int>, n: nat, x: int)
    requires
        is_thread_permutation(pi, n),
        0 <= x < n,
    ensures
        0 <= position_of(pi, x) < n,
        pi[position_of(pi, x)] == x,
{
    assert(pi.contains(x));
}

proof fn lemma_image_held(a: ResourceState, pi: Seq<int>, done: Set<int>, j: int, k: nat)
    requires
        is_thread_permutation(pi, a.num_threads()),
        k <= a.num_threads(),
    ensures
        held_by(renumbered(a, pi).allocation, Set::new(|i: int| done.contains(i) && 0 <= i < k), j, a.num_threads())
            == held_by(a.allocation, image(pi, Set::new(|i: int| done.contains(i) && 0 <= i < k)), j, a.num_threads()),
    decreases k,
{
    let n = a.num_threads();
    let b = renumbered(a, pi);
    let sk = Set::new(|i: int| done.contains(i) && 0 <= i < k);
    if k == 0 {
        assert(sk =~= Set::<int>::empty());
        assert(image(pi, sk) =~= Set::<int>::empty());
        lemma_held_zero(b.allocation, j, n);
        lemma_held_zero(a.allocation, j, n);
    } else {
        let k1 = (k - 1) as nat;
        let s1 = Set::new(|i: int| done.contains(i) && 0 <= i < k1);
        lemma_image_held(a, pi, done, j, k1);
        if done.contains(k1 as int) {
            assert(sk =~= s1.insert(k1 as int));
            assert(image(pi, sk) =~= image(pi, s1).insert(pi[k1 as int])) by {
                assert forall|y: int| image(pi, sk).contains(y) <==> image(pi, s1).insert(pi[k1 as int]).contains(y) by {
                    if image(pi, sk).contains(y) {
                        let i = choose|i: int| 0 <= i < pi.len() && sk.contains(i) && #[trigger] pi[i] == y;
                        if i != k1 {
                            assert(s1.contains(i));
                        }
                    }
                    if image(pi, s1).contains(y) {
                        let i = choose|i: int| 0 <= i < pi.len() && s1.contains(i) && #[trigger] pi[i] == y;
                        assert(sk.contains(i));
                    }
                    if y == pi[k1 as int] {
                        assert(sk.contains(k1 as int));
                    }
                }
            }
            assert(!image(pi, s1).contains(pi[k1 as int])) by {
                if image(pi, s1).contains(pi[k1 as int]) {
                    let i = choose|i: int| 0 <= i < pi.len() && s1.contains(i) && #[trigger] pi[i] == pi[k1 as int];
                    assert(i != k1);
                }
            }
            lemma_held_insert(b.allocation, s1, k1 as int, j, n);
            assert(0 <= pi[k1 as int] < n);
            lemma_held_insert(a.allocation, image(pi, s1), pi[k1 as int], j, n);
        } else {
            assert(sk =~= s1);
        }
    }
}

/// Safety carries over to the state with its threads listed again.
proof fn lemma_renumbered_safe(a: ResourceState, pi: Seq<int>)
    requires
        is_thread_permutation(pi, a.num_threads()),
        a.is_safe_state(),
    ensures
        renumbered(a, pi).is_safe_state(),
{
    let n = a.num_threads();
    let b = renumbered(a, pi);
    let oa = choose|order: Seq<int>| a.is_safe_sequence(order);
    let ob = Seq::new(oa.len(), |k: int| position_of(pi, oa[k]));
    assert forall|k: int| 0 <= k < oa.len() implies 0 <= #[trigger] ob[k] < n && pi[ob[k]] == oa[k] by {
        assert(0 <= oa[k] < n);
        lemma_position_of(pi, n, oa[k]);
    }
    assert(ob.no_duplicates()) by {
        assert forall|k1: int, k2: int| 0 <= k1 < ob.len() && 0 <= k2 < ob.len() && k1 != k2 implies ob[k1] != ob[k2] by {
            assert(pi[ob[k1]] == oa[k1]);
            assert(pi[ob[k2]] == oa[k2]);
        }
    }
    assert forall|i: int| 0 <= i < n implies #[trigger] ob.contains(i) by {
        assert(0 <= pi[i] < n);
        assert(oa.contains(pi[i]));
        let k = choose|k: int| 0 <= k < oa.len() && oa[k] == pi[i];
        assert(pi[ob[k]] == pi[i]);
        assert(ob[k] == i);
    }
    assert forall|k: int| 0 <= k < ob.len() implies #[trigger] b.can_finish(ob.take(k).to_set(), ob[k]) by {
        let da = oa.take(k).to_set();
        let db = ob.take(k).to_set();
        assert(a.can_finish(da, oa[k]));
        assert(pi[ob[k]] == oa[k]);
        let full = Set::new(|i: int| db.contains(i) && 0 <= i < n);
        assert(image(pi, full) =~= da) by {
            assert forall|y: int| image(pi, full).contains(y) <==> da.contains(y) by {
                if image(pi, full).contains(y) {
                    let i = choose|i: int| 0 <= i < pi.len() && full.contains(i) && #[trigger] pi[i] == y;
                    assert(ob.take(k).contains(i));
                    let l = choose|l: int| 0 <= l < k && #[trigger] ob.take(k)[l] == i;
                    assert(pi[ob[l]] == oa[l]);
                    assert(oa.take(k)[l] == y);
                }
                if da.contains(y) {
                    assert(oa.take(k).contains(y));
                    let l = choose|l: int| 0 <= l < k && #[trigger] oa.take(k)[l] == y;
                    assert(ob.take(k)[l] == ob[l]);
                    assert(pi[ob[l]] == y);
                    assert(full.contains(ob[l]));
                }
            }
        }
        assert forall|j: int| 0 <= j < b.num_resources() implies (#[trigger] b.need[ob[k]][j] as i32) as int
            <= b.available[j] + b.held(db, j) by {
            lemma_image_held(a, pi, db, j, n);
            lemma_held_same(b.allocation, db, full, j, n);
            assert(a.need[oa[k]][j] == b.need[ob[k]][j]);
            assert((a.need[oa[k]][j] as i32) as int <= a.available[j] + a.held(da, j));
        }
    }
    assert(b.is_safe_sequence(ob));
}

/// The safety verdict does not depend on the order in which threads are
/// listed: listing them again by any permutation `pi` keeps a safe state
/// safe and an unsafe one unsafe.
pub proof fn law_safety_ignores_thread_order(a: ResourceState, pi: Seq<int>)
    requires
        is_thread_permutation(pi, a.num_threads()),
        a.need.len() == a.allocation.len(),
    ensures
        renumbered(a, pi).is_safe_state() == a.is_safe_state(),
{
    let n = a.num_threads();
    let b = renumbered(a, pi);
    if a.is_safe_state() {
        lemma_renumbered_safe(a, pi);
    }
    if b.is_safe_state() {
        let inv = Seq::new(n, |x: int| position_of(pi, x));
        assert forall|x: int| 0 <= x < n implies 0 <= #[trigger] inv[x] < n && pi[inv[x]] == x by {
            lemma_position_of(pi, n, x);
        }
        assert(inv.no_duplicates()) by {
            assert forall|x1: int, x2: int| 0 <= x1 < n && 0 <= x2 < n && x1 != x2 implies inv[x1] != inv[x2] by {
                assert(pi[inv[x1]] == x1);
                assert(pi[inv[x2]] == x2);
            }
        }
        assert forall|i: int| 0 <= i < n implies #[trigger] inv.contains(i) by {
            assert(0 <= pi[i] < n);
            assert(pi[inv[pi[i]]] == pi[i]);
            assert(inv[pi[i]] == i);
        }
        assert(is_thread_permutation(inv, b.num_threads()));
        lemma_renumbered_safe(b, inv);
        let c = renumbered(b, inv);
        assert(c.allocation =~= a.allocation);
        assert(c.need =~= a.need);
        assert(c == a);
    }
}

/// Registering resource `res_id` keeps every entry already recorded: each
/// thread keeps what it holds and waits for, each row only grows with
/// zeros to cover every resource, the free count of `res_id` becomes
/// `total` and its kind `res_type`, the other resources keep their free
/// counts and kinds, and new resources start with no free unit.
pub proof fn law_add_resource_keeps_entries(s: ResourceState, res_id: int, tid: int, res_type: ResType, total: usize)
    requires
        0 <= res_id,
    ensures
        ({
            let t = s.with_resource(res_id, tid, res_type, total);
            let m = if s.num_resources() > res_id { s.num_resources() as int } else { res_id + 1 };
            &&& t.num_resources() == m
            &&& t.res_types.len() == if s.res_types.len() > res_id { s.res_types.len() as int } else { res_id + 1 }
            &&& t.num_threads() == s.num_threads()
            &&& t.need.len() == s.need.len()
            &&& t.available[res_id] == total as i32
            &&& t.res_types[res_id] == res_type
            &&& forall|j: int| 0 <= j < s.num_resources() && j != res_id ==> #[trigger] t.available[j] == s.available[j]
            &&& forall|j: int| s.num_resources() <= j < m && j != res_id ==> #[trigger] t.available[j] == 0
            &&& forall|j: int| 0 <= j < s.res_types.len() && j != res_id ==> #[trigger] t.res_types[j] == s.res_types[j]
            &&& forall|j: int|
                s.res_types.len() <= j < t.res_types.len() && j != res_id ==> #[trigger] t.res_types[j] == ResType::Mutex
            &&& forall|i: int|
                0 <= i < s.num_threads() ==> #[trigger] t.allocation[i].len() == if s.allocation[i].len() > m {
                    s.allocation[i].len() as int
                } else {
                    m
                }
            &&& forall|i: int|
                0 <= i < s.need.len() ==> #[trigger] t.need[i].len() == if s.need[i].len() > m {
                    s.need[i].len() as int
                } else {
                    m
                }
            &&& forall|i: int, j: int|
                0 <= i < s.num_threads() && 0 <= j < s.allocation[i].len() ==> #[trigger] t.allocation[i][j]
                    == s.allocation[i][j]
            &&& forall|i: int, j: int|
                0 <= i < s.num_threads() && s.allocation[i].len() <= j < t.allocation[i].len() ==> #[trigger] t.allocation[i][j]
                    == 0
            &&& forall|i: int, j: int|
                0 <= i < s.need.len() && 0 <= j < s.need[i].len() ==> #[trigger] t.need[i][j] == s.need[i][j]
            &&& forall|i: int, j: int|
                0 <= i < s.need.len() && s.need[i].len() <= j < t.need[i].len() ==> #[trigger] t.need[i][j] == 0
        }),
{
}

/// Registering thread `tid` keeps the rows of every thread already
/// registered, gives each newly covered thread a zero row one longer than
/// the resource count, covers `tid`, and leaves the resources alone.
pub proof fn law_add_thread_keeps_rows(s: ResourceState, tid: int)
    requires
        0 <= tid,
    ensures
        ({
            let t = s.with_thread(tid);
            &&& t.available == s.available
            &&& t.res_types == s.res_types
            &&& t.num_threads() == if s.num_threads() > tid { s.num_threads() as int } else { tid + 1 }
            &&& t.need.len() == if s.need.len() > tid { s.need.len() as int } else { tid + 1 }
            &&& forall|i: int| 0 <= i < s.num_threads() ==> #[trigger] t.allocation[i] == s.allocation[i]
            &&& forall|i: int| 0 <= i < s.need.len() ==> #[trigger] t.need[i] == s.need[i]
            &&& forall|i: int|
                s.num_threads() <= i < t.num_threads() ==> #[trigger] t.allocation[i].len() == s.num_resources() + 1
            &&& forall|i: int| s.need.len() <= i < t.need.len() ==> #[trigger] t.need[i].len() == s.num_resources() + 1
            &&& forall|i: int, j: int|
                s.num_threads() <= i < t.num_threads() && 0 <= j <= s.num_resources() ==> #[trigger] t.allocation[i][j]
                    == 0
            &&& forall|i: int, j: int|
                s.need.len() <= i < t.need.len() && 0 <= j <= s.num_resources() ==> #[trigger] t.need[i][j] == 0
        }),
{
}

} // verus!
