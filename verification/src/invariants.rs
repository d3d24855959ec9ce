//! What holds of the store whatever is done to it.

use vstd::prelude::*;
use crate::IdView;
use crate::id_map::Listing;
use crate::reclaim::{expired, kept, lemma_requeued_at, pruned, reclaimed, requeued};
use crate::snapshot::Record;
use crate::store::{
    acquired, deleted, enqueued, first_assigned, handed_out, holds_id, is_assigned,
    lemma_first_assigned, Lifecycle, published, StoreView, without_id,
};
use crate::task::{StoredExecutingTask, StoredExecutingTaskView, StoredTask, StoredTaskView};

verus! {

/// How often the task `t` occurs in a list.
pub open spec fn count_id<R: Record>(list: Seq<R::V>, t: Seq<char>) -> nat
    decreases list.len(),
{
    if list.len() == 0 {
        0
    } else {
        count_id::<R>(list.drop_last(), t) + if R::task_id(list.last()) == t {
            1nat
        } else {
            0nat
        }
    }
}

/// How often the task `t` of type `id` occurs in the three collections
/// together.
pub open spec fn occurrences(s: StoreView, id: IdView, t: Seq<char>) -> nat {
    count_id::<StoredTask>(s.queued.at(id), t) + count_id::<StoredExecutingTask>(
        s.processing.at(id),
        t,
    ) + count_id::<StoredTask>(s.solved.at(id), t)
}

/// Whether every task occurs at most once in the three collections
/// together.
pub open spec fn unique(s: StoreView) -> bool {
    forall|id: IdView, t: Seq<char>| occurrences(s, id, t) <= 1
}

/// Whether the three collections are well-formed.
pub open spec fn store_wf(s: StoreView) -> bool {
    s.queued.wf() && s.processing.wf() && s.solved.wf()
}

/// The count of a list with one more record.
pub proof fn lemma_count_push<R: Record>(list: Seq<R::V>, x: R::V, t: Seq<char>)
    ensures
        count_id::<R>(list.push(x), t) == count_id::<R>(list, t) + if R::task_id(x) == t {
            1nat
        } else {
            0nat
        },
{
    assert(list.push(x).drop_last() =~= list);
}

/// The count of two lists, one after the other.
pub proof fn lemma_count_concat<R: Record>(a: Seq<R::V>, b: Seq<R::V>, t: Seq<char>)
    ensures
        count_id::<R>(a + b, t) == count_id::<R>(a, t) + count_id::<R>(b, t),
    decreases b.len(),
{
    if b.len() == 0 {
        assert(a + b =~= a);
    } else {
        assert((a + b).drop_last() =~= a + b.drop_last());
        lemma_count_concat::<R>(a, b.drop_last(), t);
    }
}

/// The count of a list that lost the record at place `i`.
pub proof fn lemma_count_remove<R: Record>(list: Seq<R::V>, i: int, t: Seq<char>)
    requires
        0 <= i < list.len(),
    ensures
        count_id::<R>(list.remove(i), t) + (if R::task_id(list[i]) == t {
            1nat
        } else {
            0nat
        }) == count_id::<R>(list, t),
{
    let front = list.take(i);
    let back = list.skip(i + 1);
    assert(list =~= front.push(list[i]) + back);
    assert(list.remove(i) =~= front + back);
    lemma_count_push::<R>(front, list[i], t);
    lemma_count_concat::<R>(front.push(list[i]), back, t);
    lemma_count_concat::<R>(front, back, t);
}

/// A list holds a task exactly if the task's count in it is not zero.
pub proof fn lemma_count_holds<R: Record>(list: Seq<R::V>, t: Seq<char>)
    ensures
        holds_id::<R>(list, t) <==> count_id::<R>(list, t) >= 1,
    decreases list.len(),
{
    if list.len() > 0 {
        let front = list.drop_last();
        lemma_count_holds::<R>(front, t);
        if holds_id::<R>(front, t) {
            let i = choose|i: int| 0 <= i < front.len() && R::task_id(#[trigger] front[i]) == t;
            assert(R::task_id(list[i]) == t);
        }
        if R::task_id(list.last()) == t {
            assert(R::task_id(list[list.len() - 1]) == t);
        }
        if holds_id::<R>(list, t) {
            let i = choose|i: int| 0 <= i < list.len() && R::task_id(#[trigger] list[i]) == t;
            if i < list.len() - 1 {
                assert(R::task_id(front[i]) == t);
            }
        }
    }
}

/// The count in a list that lost every record of the task `gone`.
pub proof fn lemma_count_without<R: Record>(list: Seq<R::V>, gone: Seq<char>, t: Seq<char>)
    ensures
        count_id::<R>(without_id::<R>(list, gone), t) == if t == gone {
            0nat
        } else {
            count_id::<R>(list, t)
        },
    decreases list.len(),
{
    reveal(Seq::filter);
    if list.len() > 0 {
        let front = list.drop_last();
        lemma_count_without::<R>(front, gone, t);
        if R::task_id(list.last()) != gone {
            assert(without_id::<R>(list, gone) == without_id::<R>(front, gone).push(list.last()));
            lemma_count_push::<R>(without_id::<R>(front, gone), list.last(), t);
        } else {
            assert(without_id::<R>(list, gone) == without_id::<R>(front, gone));
        }
    }
}

/// Every task in progress either stays or goes back to the queue.
pub proof fn lemma_count_split(
    list: Seq<StoredExecutingTaskView>,
    now: i64,
    threshold: u64,
    t: Seq<char>,
)
    ensures
        count_id::<StoredExecutingTask>(kept(list, now, threshold), t) + count_id::<StoredTask>(
            reclaimed(list, now, threshold),
            t,
        ) == count_id::<StoredExecutingTask>(list, t),
    decreases list.len(),
{
    let stays = |e: StoredExecutingTaskView| !expired(e, now, threshold);
    let goes = |e: StoredExecutingTaskView| expired(e, now, threshold);
    let as_stored = |e: StoredExecutingTaskView| e.stored();
    reveal(Seq::filter);
    if list.len() > 0 {
        let front = list.drop_last();
        let x = list.last();
        lemma_count_split(front, now, threshold, t);
        if expired(x, now, threshold) {
            assert(reclaimed(list, now, threshold) =~= reclaimed(front, now, threshold).push(
                x.stored(),
            ));
            lemma_count_push::<StoredTask>(reclaimed(front, now, threshold), x.stored(), t);
        } else {
            lemma_count_push::<StoredExecutingTask>(kept(front, now, threshold), x, t);
        }
    } else {
        assert(reclaimed(list, now, threshold) =~= Seq::<StoredTaskView>::empty());
    }
}

/// A collection stays well-formed when a list is set.
pub proof fn lemma_with_wf<X>(c: Listing<X>, key: IdView, list: Seq<X>)
    requires
        c.wf(),
    ensures
        c.with(key, list).wf(),
        c.with(key, list).at(key) == list,
        forall|other: IdView| other != key ==> c.with(key, list).at(other) == c.at(other),
{
    let d = c.with(key, list);
    if !c.order.contains(key) {
        assert forall|i: int, j: int|
            0 <= i < d.order.len() && 0 <= j < d.order.len() && i != j implies d.order[i]
            != d.order[j] by {
            if i < c.order.len() {
                assert(c.order[i] == d.order[i]);
            }
            if j < c.order.len() {
                assert(c.order[j] == d.order[j]);
            }
        }
        assert(d.order[c.order.len() as int] == key);
    }
    assert forall|k: IdView| d.lists.contains_key(k) <==> d.order.contains(k) by {
        if c.order.contains(k) {
            let j = c.order.index_of(k);
            assert(0 <= j < c.order.len() && c.order[j] == k);
            assert(d.order[j] == k);
        }
        if d.order.contains(k) && k != key {
            let j = d.order.index_of(k);
            assert(0 <= j < d.order.len() && d.order[j] == k);
            assert(c.order[j] == k);
        }
        if k == key {
            if c.order.contains(key) {
            } else {
                assert(d.order[c.order.len() as int] == key);
            }
        }
    }
}

/// A new task with an id that the store does not hold yet leaves every task
/// unique.
pub proof fn lemma_enqueue_unique(s: StoreView, id: IdView, task: StoredTaskView)
    requires
        unique(s),
        store_wf(s),
        occurrences(s, id, task.id) == 0,
    ensures
        unique(enqueued(s, id, task)),
        store_wf(enqueued(s, id, task)),
{
    let after = enqueued(s, id, task);
    lemma_with_wf(s.queued, id, s.queued.at(id).push(task));
    assert forall|k: IdView, t: Seq<char>| occurrences(after, k, t) <= 1 by {
        assert(occurrences(s, k, t) <= 1);
        if k == id {
            lemma_count_push::<StoredTask>(s.queued.at(id), task, t);
        }
    }
}

/// Handing a task to a worker leaves every task unique.
pub proof fn lemma_acquire_unique(s: StoreView, id: IdView, uid: Seq<char>, now: i64)
    requires
        unique(s),
        store_wf(s),
        s.queued.at(id).len() > 0,
    ensures
        unique(acquired(s, id, uid, now)),
        store_wf(acquired(s, id, uid, now)),
{
    let after = acquired(s, id, uid, now);
    let head = handed_out(s, id, uid, now);
    lemma_with_wf(s.queued, id, s.queued.at(id).drop_first());
    lemma_with_wf(s.processing, id, s.processing.at(id).push(head));
    assert forall|k: IdView, t: Seq<char>| occurrences(after, k, t) <= 1 by {
        assert(occurrences(s, k, t) <= 1);
        if k == id {
            lemma_count_remove::<StoredTask>(s.queued.at(id), 0, t);
            assert(s.queued.at(id).remove(0) =~= s.queued.at(id).drop_first());
            lemma_count_push::<StoredExecutingTask>(s.processing.at(id), head, t);
        }
    }
}

/// Publishing a task leaves every task unique.
pub proof fn lemma_publish_unique(
    s: StoreView,
    id: IdView,
    task_id: Seq<char>,
    uid: Seq<char>,
    payload: Seq<u8>,
)
    requires
        unique(s),
        store_wf(s),
        is_assigned(s, id, task_id, uid),
    ensures
        unique(published(s, id, task_id, uid, payload)),
        store_wf(published(s, id, task_id, uid, payload)),
{
    let after = published(s, id, task_id, uid, payload);
    let list = s.processing.at(id);
    let i = first_assigned(list, task_id, uid);
    let solved = StoredTaskView { bytes: payload, id: task_id };
    lemma_first_assigned(list, task_id, uid);
    lemma_with_wf(s.processing, id, list.remove(i));
    lemma_with_wf(s.solved, id, s.solved.at(id).push(solved));
    assert forall|k: IdView, t: Seq<char>| occurrences(after, k, t) <= 1 by {
        assert(occurrences(s, k, t) <= 1);
        if k == id {
            lemma_count_remove::<StoredExecutingTask>(list, i, t);
            lemma_count_push::<StoredTask>(s.solved.at(id), solved, t);
        }
    }
}

/// Deleting a task leaves every task unique.
pub proof fn lemma_delete_unique(s: StoreView, id: IdView, task_id: Seq<char>, state: Lifecycle)
    requires
        unique(s),
        store_wf(s),
    ensures
        unique(deleted(s, id, task_id, state)),
        store_wf(deleted(s, id, task_id, state)),
{
    let after = deleted(s, id, task_id, state);
    lemma_with_wf(s.queued, id, without_id::<StoredTask>(s.queued.at(id), task_id));
    lemma_with_wf(
        s.processing,
        id,
        without_id::<StoredExecutingTask>(s.processing.at(id), task_id),
    );
    lemma_with_wf(s.solved, id, without_id::<StoredTask>(s.solved.at(id), task_id));
    assert forall|k: IdView, t: Seq<char>| occurrences(after, k, t) <= 1 by {
        assert(occurrences(s, k, t) <= 1);
        if k == id {
            lemma_count_without::<StoredTask>(s.queued.at(id), task_id, t);
            lemma_count_without::<StoredExecutingTask>(s.processing.at(id), task_id, t);
            lemma_count_without::<StoredTask>(s.solved.at(id), task_id, t);
        }
    }
}

/// The store after a reclaim cycle at the moment `now`.
pub open spec fn reclaimed_store(s: StoreView, now: i64, threshold: u64) -> StoreView {
    StoreView {
        queued: requeued(s.queued, s.processing, s.processing.order.len(), now, threshold),
        processing: pruned(s.processing, now, threshold),
        solved: s.solved,
    }
}

/// A queue stays well-formed when expired tasks go back to it.
pub proof fn lemma_requeued_wf(
    q: Listing<StoredTaskView>,
    p: Listing<StoredExecutingTaskView>,
    n: nat,
    now: i64,
    threshold: u64,
)
    requires
        q.wf(),
    ensures
        requeued(q, p, n, now, threshold).wf(),
    decreases n,
{
    if n > 0 {
        lemma_requeued_wf(q, p, (n - 1) as nat, now, threshold);
        let before = requeued(q, p, (n - 1) as nat, now, threshold);
        let k = p.order[n - 1];
        lemma_with_wf(before, k, before.at(k) + reclaimed(p.lists[k], now, threshold));
    }
}

/// A reclaim cycle leaves every task unique.
pub proof fn lemma_reclaim_unique(s: StoreView, now: i64, threshold: u64)
    requires
        unique(s),
        store_wf(s),
    ensures
        unique(reclaimed_store(s, now, threshold)),
        store_wf(reclaimed_store(s, now, threshold)),
{
    let after = reclaimed_store(s, now, threshold);
    let n = s.processing.order.len();
    lemma_requeued_wf(s.queued, s.processing, n, now, threshold);
    assert(after.processing.lists.dom() =~= s.processing.lists.dom());
    assert forall|k: IdView, t: Seq<char>| occurrences(after, k, t) <= 1 by {
        assert(occurrences(s, k, t) <= 1);
        lemma_requeued_at(s.queued, s.processing, n, now, threshold, k);
        if s.processing.lists.contains_key(k) {
            assert(s.processing.order.contains(k));
            let j = s.processing.order.index_of(k);
            assert(0 <= j < n && s.processing.order[j] == k);
            lemma_count_split(s.processing.at(k), now, threshold, t);
            lemma_count_concat::<StoredTask>(
                s.queued.at(k),
                reclaimed(s.processing.at(k), now, threshold),
                t,
            );
        } else {
            assert(!s.processing.order.contains(k));
            assert(!(exists|j: int| 0 <= j < n && s.processing.order[j] == k));
        }
    }
}

/// An operation on the store.
pub enum StoreOp {
    /// A new task enters the queue of a type.
    Enqueue(IdView, StoredTaskView),
    /// A worker takes the oldest task of a type at a moment.
    Acquire(IdView, Seq<char>, i64),
    /// A worker publishes a payload for a task of a type that it holds.
    Publish(IdView, Seq<char>, Seq<char>, Seq<u8>),
    /// A task of a type is deleted from the collection of a state.
    Delete(IdView, Seq<char>, Lifecycle),
    /// A reclaim cycle at a moment, with a threshold.
    Reclaim(i64, u64),
}

/// The store after an operation. An operation that fails leaves the store
/// as it is.
pub open spec fn step(s: StoreView, op: StoreOp) -> StoreView {
    match op {
        StoreOp::Enqueue(id, task) => enqueued(s, id, task),
        StoreOp::Acquire(id, uid, now) => if s.queued.at(id).len() > 0 {
            acquired(s, id, uid, now)
        } else {
            s
        },
        StoreOp::Publish(id, task_id, uid, payload) => if is_assigned(s, id, task_id, uid) {
            published(s, id, task_id, uid, payload)
        } else {
            s
        },
        StoreOp::Delete(id, task_id, state) => deleted(s, id, task_id, state),
        StoreOp::Reclaim(now, threshold) => reclaimed_store(s, now, threshold),
    }
}

/// The store after a sequence of operations.
pub open spec fn run(s: StoreView, ops: Seq<StoreOp>) -> StoreView
    decreases ops.len(),
{
    if ops.len() == 0 {
        s
    } else {
        step(run(s, ops.drop_last()), ops.last())
    }
}

/// Whether every new task of a sequence of operations comes with an id that
/// the store does not hold at that point.
pub open spec fn fresh_ids(s: StoreView, ops: Seq<StoreOp>) -> bool
    decreases ops.len(),
{
    if ops.len() == 0 {
        true
    } else {
        fresh_ids(s, ops.drop_last()) && match ops.last() {
            StoreOp::Enqueue(id, task) => occurrences(run(s, ops.drop_last()), id, task.id) == 0,
            _ => true,
        }
    }
}

/// After any sequence of operations in which every new task got a fresh
/// id, every task occurs at most once in the three collections together.
pub proof fn lemma_unique_after(s: StoreView, ops: Seq<StoreOp>)
    requires
        unique(s),
        store_wf(s),
        fresh_ids(s, ops),
    ensures
        unique(run(s, ops)),
        store_wf(run(s, ops)),
    decreases ops.len(),
{
    if ops.len() > 0 {
        lemma_unique_after(s, ops.drop_last());
        let before = run(s, ops.drop_last());
        match ops.last() {
            StoreOp::Enqueue(id, task) => {
                lemma_enqueue_unique(before, id, task);
            },
            StoreOp::Acquire(id, uid, now) => {
                if before.queued.at(id).len() > 0 {
                    lemma_acquire_unique(before, id, uid, now);
                }
            },
            StoreOp::Publish(id, task_id, uid, payload) => {
                if is_assigned(before, id, task_id, uid) {
                    lemma_publish_unique(before, id, task_id, uid, payload);
                }
            },
            StoreOp::Delete(id, task_id, state) => {
                lemma_delete_unique(before, id, task_id, state);
            },
            StoreOp::Reclaim(now, threshold) => {
                lemma_reclaim_unique(before, now, threshold);
            },
        }
    }
}

/// Where every task is unique, a task is in at most one of the three
/// collections.
pub proof fn lemma_at_most_one_collection(s: StoreView, id: IdView, t: Seq<char>)
    requires
        unique(s),
    ensures
        !(holds_id::<StoredTask>(s.queued.at(id), t) && holds_id::<StoredExecutingTask>(
            s.processing.at(id),
            t,
        )),
        !(holds_id::<StoredTask>(s.queued.at(id), t) && holds_id::<StoredTask>(
            s.solved.at(id),
            t,
        )),
        !(holds_id::<StoredExecutingTask>(s.processing.at(id), t) && holds_id::<StoredTask>(
            s.solved.at(id),
            t,
        )),
{
    assert(occurrences(s, id, t) <= 1);
    lemma_count_holds::<StoredTask>(s.queued.at(id), t);
    lemma_count_holds::<StoredExecutingTask>(s.processing.at(id), t);
    lemma_count_holds::<StoredTask>(s.solved.at(id), t);
}

/// The store without tasks holds every task at most once.
pub proof fn lemma_empty_unique()
    ensures
        unique(
            StoreView {
                queued: Listing::empty(),
                processing: Listing::empty(),
                solved: Listing::empty(),
            },
        ),
        store_wf(
            StoreView {
                queued: Listing::empty(),
                processing: Listing::empty(),
                solved: Listing::empty(),
            },
        ),
{
}

/// First in, first out: a task that enters a queue which is not empty does
/// not change which task leaves it next, and a task that enters an empty
/// queue is the one that leaves it next.
pub proof fn lemma_fifo(s: StoreView, id: IdView, task: StoredTaskView)
    ensures
        enqueued(s, id, task).queued.at(id).len() == s.queued.at(id).len() + 1,
        enqueued(s, id, task).queued.at(id)[0] == if s.queued.at(id).len() == 0 {
            task
        } else {
            s.queued.at(id)[0]
        },
        enqueued(s, id, task).queued.at(id).last() == task,
        forall|i: int|
            0 <= i < s.queued.at(id).len() ==> enqueued(s, id, task).queued.at(id)[i]
                == s.queued.at(id)[i],
{
}

/// Tasks leave a queue in the order in which they entered it: after the
/// head has left, the rest stands in the queue as before.
pub proof fn lemma_fifo_order(s: StoreView, id: IdView, uid: Seq<char>, now: i64)
    requires
        s.queued.at(id).len() > 0,
    ensures
        acquired(s, id, uid, now).queued.at(id) == s.queued.at(id).drop_first(),
        acquired(s, id, uid, now).processing.at(id).last().stored() == s.queued.at(id)[0],
{
}

/// What holds of every item of a list holds of every item that a filter
/// lets through.
pub proof fn lemma_filter_keeps<A>(list: Seq<A>, pred: spec_fn(A) -> bool, good: spec_fn(A) -> bool)
    requires
        forall|i: int| 0 <= i < list.len() ==> good(#[trigger] list[i]),
    ensures
        forall|i: int| 0 <= i < list.filter(pred).len() ==> good(#[trigger] list.filter(pred)[i]),
    decreases list.len(),
{
    reveal(Seq::filter);
    if list.len() > 0 {
        let front = list.drop_last();
        let kept_front = front.filter(pred);
        assert forall|i: int| 0 <= i < front.len() implies good(#[trigger] front[i]) by {
            assert(front[i] == list[i]);
        }
        lemma_filter_keeps(front, pred, good);
        assert(good(list[list.len() - 1]));
        assert forall|i: int| 0 <= i < list.filter(pred).len() implies good(
            #[trigger] list.filter(pred)[i],
        ) by {
            if i < kept_front.len() {
                assert(list.filter(pred)[i] == kept_front[i]);
            } else {
                assert(list.filter(pred)[i] == list.last());
            }
        }
    }
}

/// Whether every payload of a list of queued or solved tasks is accepted.
pub open spec fn tasks_valid(
    list: Seq<StoredTaskView>,
    id: IdView,
    accepts: spec_fn(IdView, Seq<u8>) -> bool,
) -> bool {
    forall|i: int| 0 <= i < list.len() ==> accepts(id, (#[trigger] list[i]).bytes)
}

/// Whether every payload of a list of tasks in progress is accepted.
pub open spec fn held_valid(
    list: Seq<StoredExecutingTaskView>,
    id: IdView,
    accepts: spec_fn(IdView, Seq<u8>) -> bool,
) -> bool {
    forall|i: int| 0 <= i < list.len() ==> accepts(id, (#[trigger] list[i]).bytes)
}

/// Whether every payload in the three collections is one that the template
/// of the task's type accepts; `accepts` says what the templates accept.
pub open spec fn payloads_valid(s: StoreView, accepts: spec_fn(IdView, Seq<u8>) -> bool) -> bool {
    forall|id: IdView|
        {
            &&& #[trigger] tasks_valid(s.queued.at(id), id, accepts)
            &&& held_valid(s.processing.at(id), id, accepts)
            &&& tasks_valid(s.solved.at(id), id, accepts)
        }
}

/// Whether an operation brings only a payload that the templates accept.
pub open spec fn brings_valid(op: StoreOp, accepts: spec_fn(IdView, Seq<u8>) -> bool) -> bool {
    match op {
        StoreOp::Enqueue(id, task) => accepts(id, task.bytes),
        StoreOp::Publish(id, _, _, payload) => accepts(id, payload),
        _ => true,
    }
}

/// What holds of every record of a list holds of every record that is left
/// when the records of a task leave the list.
pub proof fn lemma_without_keeps<R: Record>(
    list: Seq<R::V>,
    task_id: Seq<char>,
    good: spec_fn(R::V) -> bool,
)
    requires
        forall|i: int| 0 <= i < list.len() ==> good(#[trigger] list[i]),
    ensures
        forall|i: int|
            0 <= i < without_id::<R>(list, task_id).len() ==> good(
                #[trigger] without_id::<R>(list, task_id)[i],
            ),
    decreases list.len(),
{
    reveal(Seq::filter);
    if list.len() > 0 {
        let front = list.drop_last();
        let left = without_id::<R>(front, task_id);
        assert forall|i: int| 0 <= i < front.len() implies good(#[trigger] front[i]) by {
            assert(front[i] == list[i]);
        }
        lemma_without_keeps::<R>(front, task_id, good);
        assert(good(list[list.len() - 1]));
        if R::task_id(list.last()) != task_id {
            assert(without_id::<R>(list, task_id) == left.push(list.last()));
        } else {
            assert(without_id::<R>(list, task_id) == left);
        }
        assert forall|i: int| 0 <= i < without_id::<R>(list, task_id).len() implies good(
            #[trigger] without_id::<R>(list, task_id)[i],
        ) by {
            if i < left.len() {
                assert(without_id::<R>(list, task_id)[i] == left[i]);
            }
        }
    }
}

/// A list of accepted tasks stays one when the records of a task leave it.
pub proof fn lemma_without_valid_tasks(
    list: Seq<StoredTaskView>,
    id: IdView,
    task_id: Seq<char>,
    accepts: spec_fn(IdView, Seq<u8>) -> bool,
)
    requires
        tasks_valid(list, id, accepts),
    ensures
        tasks_valid(without_id::<StoredTask>(list, task_id), id, accepts),
{
    let good = |t: StoredTaskView| accepts(id, t.bytes);
    assert forall|i: int| 0 <= i < list.len() implies good(#[trigger] list[i]) by {}
    lemma_without_keeps::<StoredTask>(list, task_id, good);
    let out = without_id::<StoredTask>(list, task_id);
    assert forall|i: int| 0 <= i < out.len() implies accepts(id, (#[trigger] out[i]).bytes) by {
        assert(good(out[i]));
    }
}

/// A list of accepted tasks in progress stays one when the records of a
/// task leave it.
pub proof fn lemma_without_valid_held(
    list: Seq<StoredExecutingTaskView>,
    id: IdView,
    task_id: Seq<char>,
    accepts: spec_fn(IdView, Seq<u8>) -> bool,
)
    requires
        held_valid(list, id, accepts),
    ensures
        held_valid(without_id::<StoredExecutingTask>(list, task_id), id, accepts),
{
    let good = |t: StoredExecutingTaskView| accepts(id, t.bytes);
    assert forall|i: int| 0 <= i < list.len() implies good(#[trigger] list[i]) by {}
    lemma_without_keeps::<StoredExecutingTask>(list, task_id, good);
    let out = without_id::<StoredExecutingTask>(list, task_id);
    assert forall|i: int| 0 <= i < out.len() implies accepts(id, (#[trigger] out[i]).bytes) by {
        assert(good(out[i]));
    }
}

/// Of a list of accepted tasks in progress, those that stay and those that
/// go back to the queue are accepted.
pub proof fn lemma_split_valid(
    list: Seq<StoredExecutingTaskView>,
    id: IdView,
    now: i64,
    threshold: u64,
    accepts: spec_fn(IdView, Seq<u8>) -> bool,
)
    requires
        held_valid(list, id, accepts),
    ensures
        held_valid(kept(list, now, threshold), id, accepts),
        tasks_valid(reclaimed(list, now, threshold), id, accepts),
{
    let good = |t: StoredExecutingTaskView| accepts(id, t.bytes);
    let stays = |e: StoredExecutingTaskView| !expired(e, now, threshold);
    let goes = |e: StoredExecutingTaskView| expired(e, now, threshold);
    assert forall|i: int| 0 <= i < list.len() implies good(#[trigger] list[i]) by {}
    lemma_filter_keeps(list, stays, good);
    lemma_filter_keeps(list, goes, good);
    let a = kept(list, now, threshold);
    assert forall|i: int| 0 <= i < a.len() implies accepts(id, (#[trigger] a[i]).bytes) by {
        assert(good(a[i]));
    }
    let b = reclaimed(list, now, threshold);
    assert forall|i: int| 0 <= i < b.len() implies accepts(id, (#[trigger] b[i]).bytes) by {
        assert(good(list.filter(goes)[i]));
    }
}

/// An operation that brings only an accepted payload leaves every payload
/// accepted.
pub proof fn lemma_step_valid(s: StoreView, op: StoreOp, accepts: spec_fn(IdView, Seq<u8>) -> bool)
    requires
        payloads_valid(s, accepts),
        store_wf(s),
        brings_valid(op, accepts),
    ensures
        payloads_valid(step(s, op), accepts),
{
    let after = step(s, op);
    assert forall|k: IdView|
        {
            &&& #[trigger] tasks_valid(after.queued.at(k), k, accepts)
            &&& held_valid(after.processing.at(k), k, accepts)
            &&& tasks_valid(after.solved.at(k), k, accepts)
        } by {
        assert(tasks_valid(s.queued.at(k), k, accepts));
        assert(held_valid(s.processing.at(k), k, accepts));
        assert(tasks_valid(s.solved.at(k), k, accepts));
        let q = s.queued.at(k);
        let p = s.processing.at(k);
        let d = s.solved.at(k);
        match op {
            StoreOp::Enqueue(id, task) => {
                if k == id {
                    assert forall|i: int| 0 <= i < q.push(task).len() implies accepts(
                        k,
                        (#[trigger] q.push(task)[i]).bytes,
                    ) by {
                        if i < q.len() {
                            assert(q.push(task)[i] == q[i]);
                        }
                    }
                }
            },
            StoreOp::Acquire(id, uid, now) => {
                if k == id && q.len() > 0 {
                    let head = handed_out(s, id, uid, now);
                    assert(head.bytes == q[0].bytes);
                    assert forall|i: int| 0 <= i < q.drop_first().len() implies accepts(
                        k,
                        (#[trigger] q.drop_first()[i]).bytes,
                    ) by {
                        assert(q.drop_first()[i] == q[i + 1]);
                    }
                    assert forall|i: int| 0 <= i < p.push(head).len() implies accepts(
                        k,
                        (#[trigger] p.push(head)[i]).bytes,
                    ) by {
                        if i < p.len() {
                            assert(p.push(head)[i] == p[i]);
                        }
                    }
                }
            },
            StoreOp::Publish(id, task_id, uid, payload) => {
                if k == id && is_assigned(s, id, task_id, uid) {
                    let at = first_assigned(p, task_id, uid);
                    let solved = StoredTaskView { bytes: payload, id: task_id };
                    lemma_first_assigned(p, task_id, uid);
                    assert forall|i: int| 0 <= i < p.remove(at).len() implies accepts(
                        k,
                        (#[trigger] p.remove(at)[i]).bytes,
                    ) by {
                        if i < at {
                            assert(p.remove(at)[i] == p[i]);
                        } else {
                            assert(p.remove(at)[i] == p[i + 1]);
                        }
                    }
                    assert forall|i: int| 0 <= i < d.push(solved).len() implies accepts(
                        k,
                        (#[trigger] d.push(solved)[i]).bytes,
                    ) by {
                        if i < d.len() {
                            assert(d.push(solved)[i] == d[i]);
                        }
                    }
                }
            },
            StoreOp::Delete(id, task_id, state) => {
                if k == id {
                    lemma_without_valid_tasks(q, k, task_id, accepts);
                    lemma_without_valid_held(p, k, task_id, accepts);
                    lemma_without_valid_tasks(d, k, task_id, accepts);
                }
            },
            StoreOp::Reclaim(now, threshold) => {
                let n = s.processing.order.len();
                lemma_split_valid(p, k, now, threshold, accepts);
                lemma_requeued_at(s.queued, s.processing, n, now, threshold, k);
                let back = reclaimed(p, now, threshold);
                assert forall|i: int| 0 <= i < (q + back).len() implies accepts(
                    k,
                    (#[trigger] (q + back)[i]).bytes,
                ) by {
                    if i < q.len() {
                        assert((q + back)[i] == q[i]);
                    } else {
                        assert((q + back)[i] == back[i - q.len()]);
                    }
                }
                if !s.processing.lists.contains_key(k) {
                    assert(kept(p, now, threshold) =~= p) by {
                        reveal(Seq::filter);
                    }
                }
            },
        }
    }
}

/// After any sequence of operations that bring only accepted payloads, every
/// payload in the three collections is one that the template of its type
/// accepts.
pub proof fn lemma_valid_after(
    s: StoreView,
    ops: Seq<StoreOp>,
    accepts: spec_fn(IdView, Seq<u8>) -> bool,
)
    requires
        payloads_valid(s, accepts),
        unique(s),
        store_wf(s),
        fresh_ids(s, ops),
        forall|i: int| 0 <= i < ops.len() ==> brings_valid(#[trigger] ops[i], accepts),
    ensures
        payloads_valid(run(s, ops), accepts),
    decreases ops.len(),
{
    if ops.len() > 0 {
        let front = ops.drop_last();
        assert forall|i: int| 0 <= i < front.len() implies brings_valid(
            #[trigger] front[i],
            accepts,
        ) by {
            assert(front[i] == ops[i]);
        }
        lemma_valid_after(s, front, accepts);
        lemma_unique_after(s, front);
        assert(brings_valid(ops[ops.len() - 1], accepts));
        lemma_step_valid(run(s, front), ops.last(), accepts);
    }
}

} // verus!
