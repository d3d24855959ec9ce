//! The reclaimer: tasks that a worker has held for too long go back to the
//! queue of their type, with the ids that they have.

use vstd::prelude::*;
use crate::IdView;
use crate::api::{opt_bytes, recover, recovered};
use crate::clock::unix_now;
use crate::id_map::{IdMap, Listing, touched, views};
use crate::proto::{SnapshotKey, SnapshotWrite, writes_view};
use crate::snapshot::{
    decode_listing, decoded, encode_listing, lemma_snapshot_round_trip, snapshot_of,
};
use crate::task::{StoredExecutingTask, StoredExecutingTaskView, StoredTask, StoredTaskView};

verus! {

/// Whether a task in progress has been held for longer than `threshold`
/// seconds at the moment `now`.
pub open spec fn expired(e: StoredExecutingTaskView, now: i64, threshold: u64) -> bool {
    now - e.given_at > threshold
}

/// The tasks of `list` that stay in progress.
pub open spec fn kept(list: Seq<StoredExecutingTaskView>, now: i64, threshold: u64) -> Seq<
    StoredExecutingTaskView,
> {
    list.filter(|e: StoredExecutingTaskView| !expired(e, now, threshold))
}

/// The tasks of `list` that go back to the queue, as they are queued.
pub open spec fn reclaimed(list: Seq<StoredExecutingTaskView>, now: i64, threshold: u64) -> Seq<
    StoredTaskView,
> {
    list.filter(|e: StoredExecutingTaskView| expired(e, now, threshold)).map_values(
        |e: StoredExecutingTaskView| e.stored(),
    )
}

/// The tasks in progress after a reclaim cycle: every list has lost its
/// expired tasks.
pub open spec fn pruned(p: Listing<StoredExecutingTaskView>, now: i64, threshold: u64) -> Listing<
    StoredExecutingTaskView,
> {
    Listing {
        order: p.order,
        lists: p.lists.map_values(|l: Seq<StoredExecutingTaskView>| kept(l, now, threshold)),
    }
}

/// The queue after the expired tasks of the first `n` task types of `p`
/// went back to it: each type's expired tasks at the end of the type's
/// queue, in the order in which they were held.
pub open spec fn requeued(
    q: Listing<StoredTaskView>,
    p: Listing<StoredExecutingTaskView>,
    n: nat,
    now: i64,
    threshold: u64,
) -> Listing<StoredTaskView>
    decreases n,
{
    if n == 0 {
        q
    } else {
        let before = requeued(q, p, (n - 1) as nat, now, threshold);
        let k = p.order[n - 1];
        let back = reclaimed(p.lists[k], now, threshold);
        if back.len() == 0 {
            before
        } else {
            before.with(k, before.at(k) + back)
        }
    }
}

/// Whether one of the first `n` task types of `p` has an expired task.
pub open spec fn any_expired(p: Listing<StoredExecutingTaskView>, n: nat, now: i64, threshold: u64) -> bool
    decreases n,
{
    if n == 0 {
        false
    } else {
        any_expired(p, (n - 1) as nat, now, threshold) || reclaimed(
            p.lists[p.order[n - 1]],
            now,
            threshold,
        ).len() > 0
    }
}

/// After a reclaim cycle no task in progress has been held for longer than
/// the threshold.
pub proof fn lemma_pruned_fresh(
    p: Listing<StoredExecutingTaskView>,
    now: i64,
    threshold: u64,
    id: IdView,
    i: int,
)
    requires
        0 <= i < pruned(p, now, threshold).at(id).len(),
    ensures
        !expired(pruned(p, now, threshold).at(id)[i], now, threshold),
        now - pruned(p, now, threshold).at(id)[i].given_at <= threshold,
{
    let pred = |e: StoredExecutingTaskView| !expired(e, now, threshold);
    p.lists[id].lemma_filter_pred(pred, i);
}

/// What a reclaim cycle makes of each queue: the expired tasks of the type
/// stand at its end, and nothing else has changed.
pub proof fn lemma_requeued_at(
    q: Listing<StoredTaskView>,
    p: Listing<StoredExecutingTaskView>,
    n: nat,
    now: i64,
    threshold: u64,
    id: IdView,
)
    requires
        p.wf(),
        n <= p.order.len(),
    ensures
        requeued(q, p, n, now, threshold).at(id) == if exists|j: int|
            0 <= j < n && p.order[j] == id {
            q.at(id) + reclaimed(p.at(id), now, threshold)
        } else {
            q.at(id)
        },
    decreases n,
{
    if n > 0 {
        let m = (n - 1) as nat;
        lemma_requeued_at(q, p, m, now, threshold, id);
        let k = p.order[n - 1];
        assert(p.order.contains(k));
        if k == id {
            assert(!(exists|j: int| 0 <= j < m && p.order[j] == id));
            assert(q.at(id) + Seq::<StoredTaskView>::empty() =~= q.at(id));
        } else {
            assert((exists|j: int| 0 <= j < n && p.order[j] == id) == (exists|j: int|
                0 <= j < m && p.order[j] == id));
        }
    }
}

/// Splits a list of tasks in progress into those that stay and those that
/// go back to the queue.
pub fn split_expired(list: &Vec<StoredExecutingTask>, now: i64, threshold: u64) -> (r: (
    Vec<StoredExecutingTask>,
    Vec<StoredTask>,
))
    ensures
        views(r.0@) == kept(views(list@), now, threshold),
        views(r.1@) == reclaimed(views(list@), now, threshold),
{
    let ghost all = views(list@);
    let ghost stays = |e: StoredExecutingTaskView| !expired(e, now, threshold);
    let ghost goes = |e: StoredExecutingTaskView| expired(e, now, threshold);
    let ghost as_stored = |e: StoredExecutingTaskView| e.stored();
    let mut staying: Vec<StoredExecutingTask> = Vec::new();
    let mut going: Vec<StoredTask> = Vec::new();
    let mut i: usize = 0;
    proof {
        reveal(Seq::filter);
        assert(all.take(0).filter(stays) =~= Seq::<StoredExecutingTaskView>::empty());
        assert(all.take(0).filter(goes) =~= Seq::<StoredExecutingTaskView>::empty());
        assert(views(staying@) =~= all.take(0).filter(stays));
        assert(views(going@) =~= all.take(0).filter(goes).map_values(as_stored));
    }
    while i < list.len()
        invariant
            i <= list.len(),
            all == views(list@),
            stays == |e: StoredExecutingTaskView| !expired(e, now, threshold),
            goes == |e: StoredExecutingTaskView| expired(e, now, threshold),
            as_stored == |e: StoredExecutingTaskView| e.stored(),
            views(staying@) == all.take(i as int).filter(stays),
            views(going@) == all.take(i as int).filter(goes).map_values(as_stored),
        decreases list.len() - i,
    {
        let ghost staying_before = views(staying@);
        let ghost going_before = views(going@);
        proof {
            all.take(i as int).lemma_filter_push(all[i as int], stays);
            all.take(i as int).lemma_filter_push(all[i as int], goes);
            assert(all.take(i as int).push(all[i as int]) =~= all.take(i + 1));
        }
        let age: i128 = (now as i128) - (list[i].given_at as i128);
        if age > threshold as i128 {
            going.push(list[i].stored());
            assert(views(going@) =~= going_before.push(all[i as int].stored()));
            assert(all.take(i as int).filter(goes).push(all[i as int]).map_values(as_stored)
                =~= going_before.push(all[i as int].stored()));
        } else {
            staying.push(list[i].duplicate());
            assert(views(staying@) =~= staying_before.push(all[i as int]));
        }
        i += 1;
    }
    assert(all.take(i as int) =~= all);
    (staying, going)
}

/// One reclaim cycle on the two collections: every task in progress that has
/// been held for longer than `threshold` seconds at the moment `now` leaves
/// the tasks in progress and enters the queue of its type, at the end, with
/// the id that it has. Tells whether any task went back.
pub fn reclaim(
    executing: &mut IdMap<Vec<StoredExecutingTask>>,
    queue: &mut IdMap<Vec<StoredTask>>,
    now: i64,
    threshold: u64,
) -> (moved: bool)
    ensures
        final(executing).shown() == pruned(old(executing).shown(), now, threshold),
        final(queue).shown() == requeued(
            old(queue).shown(),
            old(executing).shown(),
            old(executing).shown().order.len(),
            now,
            threshold,
        ),
        moved == any_expired(
            old(executing).shown(),
            old(executing).shown().order.len(),
            now,
            threshold,
        ),
        forall|id: IdView, i: int|
            0 <= i < final(executing).shown().at(id).len() ==> now - (
            #[trigger] final(executing).shown().at(id)[i]).given_at <= threshold,
{
    let ghost p = executing.shown();
    let ghost q = queue.shown();
    let n = executing.len();
    let mut moved = false;
    let mut i: usize = 0;
    while i < n
        invariant
            i <= n,
            n == p.order.len(),
            p == old(executing).shown(),
            q == old(queue).shown(),
            p.order.no_duplicates(),
            executing.keys() == p.order,
            executing.deep().dom() == p.lists.dom(),
            forall|j: int|
                0 <= j < n ==> #[trigger] executing.deep()[p.order[j]] == if j < i {
                    kept(p.lists[p.order[j]], now, threshold)
                } else {
                    p.lists[p.order[j]]
                },
            queue.shown() == requeued(q, p, i as nat, now, threshold),
            moved == any_expired(p, i as nat, now, threshold),
        decreases n - i,
    {
        let ghost k = p.order[i as int];
        let list = executing.set_list(i, Vec::new());
        assert(views(list@) == p.lists[k]);
        let (staying, going) = split_expired(&list, now, threshold);
        let _ = executing.set_list(i, staying);
        proof {
            assert forall|j: int| 0 <= j < n implies #[trigger] executing.deep()[p.order[j]] == if j
                < i + 1 {
                kept(p.lists[p.order[j]], now, threshold)
            } else {
                p.lists[p.order[j]]
            } by {
                if j != i {
                    assert(p.order[j] != p.order[i as int]);
                }
            }
            assert(executing.deep().dom() =~= p.lists.dom());
        }
        let ghost before = queue.shown();
        let ghost back = views(going@);
        let mut sent: usize = 0;
        let total = going.len();
        while sent < total
            invariant
                sent <= total,
                total == going.len(),
                back == views(going@),
                executing.keys() == p.order,
                i < n,
                n == p.order.len(),
                k == p.order[i as int],
                queue.shown() == if sent == 0 {
                    before
                } else {
                    before.with(k, before.at(k) + back.take(sent as int))
                },
            decreases total - sent,
        {
            let task = going[sent].duplicate();
            let ghost was = queue.shown();
            queue.append(executing.key_at(i), task);
            proof {
                let next = before.at(k) + back.take(sent + 1);
                if sent == 0 {
                    assert(before.at(k).push(back[0]) =~= next);
                } else {
                    assert(was.at(k) == before.at(k) + back.take(sent as int));
                    assert((before.at(k) + back.take(sent as int)).push(back[sent as int]) =~= next);
                    assert(touched(touched(before.order, k), k) =~= touched(before.order, k));
                    assert(queue.shown().lists =~= before.with(k, next).lists);
                }
            }
            sent += 1;
        }
        assert(back.take(total as int) =~= back);
        if total > 0 {
            moved = true;
        }
        i += 1;
    }
    proof {
        assert(executing.deep() =~= pruned(p, now, threshold).lists) by {
            assert forall|key: IdView| p.lists.contains_key(key) implies #[trigger] executing.deep()[key]
                == kept(p.lists[key], now, threshold) by {
                assert(old(executing)@.contains_key(key));
                assert(p.order.contains(key));
                let j = p.order.index_of(key);
                assert(0 <= j < n && p.order[j] == key);
            }
        }
    }
    assert forall|id: IdView, i: int| 0 <= i < executing.shown().at(id).len() implies now - (
    #[trigger] executing.shown().at(id)[i]).given_at <= threshold by {
        lemma_pruned_fresh(p, now, threshold, id, i);
    }
    moved
}

/// Whether no task of a collection of tasks in progress has been held for
/// longer than `threshold` seconds at the moment `now`.
pub open spec fn none_overdue(
    c: Listing<StoredExecutingTaskView>,
    now: i64,
    threshold: u64,
) -> bool {
    forall|id: IdView, i: int|
        0 <= i < c.at(id).len() ==> now - (#[trigger] c.at(id)[i]).given_at <= threshold
}

/// The snapshots that one reclaim cycle writes, given what lies in the
/// durable store under the keys of the tasks in progress and of the queue.
///
/// Where the tasks in progress cannot be read, the cycle writes nothing.
/// Else it writes the tasks in progress without the expired ones, and,
/// where a task expired, the queue with the expired tasks at the ends of
/// their types' queues. A queue that cannot be read counts as empty.
pub open spec fn cycle_writes(
    stored_executing: Option<Seq<u8>>,
    stored_tasks: Option<Seq<u8>>,
    now: i64,
    threshold: u64,
) -> Seq<(SnapshotKey, Seq<u8>)> {
    match stored_executing {
        None => Seq::empty(),
        Some(bytes) => match decoded::<StoredExecutingTask>(bytes) {
            None => Seq::empty(),
            Some(p) => {
                let first = seq![
                    (
                        SnapshotKey::ExecutingTasks,
                        snapshot_of::<StoredExecutingTask>(pruned(p, now, threshold)),
                    ),
                ];
                if any_expired(p, p.order.len(), now, threshold) {
                    first.push(
                        (
                            SnapshotKey::Tasks,
                            snapshot_of::<StoredTask>(
                                requeued(
                                    recovered::<StoredTask>(stored_tasks),
                                    p,
                                    p.order.len(),
                                    now,
                                    threshold,
                                ),
                            ),
                        ),
                    )
                } else {
                    first
                }
            },
        },
    }
}

/// One reclaim cycle on what the durable store holds, at the moment `now`
/// in seconds since the Unix epoch: `stored_executing` and `stored_tasks` are
/// what lies under the keys of the tasks in progress and of the queue. The
/// snapshots that come back are to be written in their order; after that the
/// engine's collections are to be set anew from the durable store. Among the
/// tasks in progress that are written, none has been held for longer than
/// the threshold.
pub fn reclaim_cycle(
    stored_executing: &Option<Vec<u8>>,
    stored_tasks: &Option<Vec<u8>>,
    now: i64,
    threshold: u64,
) -> (writes: Vec<SnapshotWrite>)
    ensures
        writes_view(writes@) == cycle_writes(
            opt_bytes(*stored_executing),
            opt_bytes(*stored_tasks),
            now,
            threshold,
        ),
        writes.len() > 0 ==> none_overdue(
            recovered::<StoredExecutingTask>(Some(writes[0].value@)),
            now,
            threshold,
        ),
{
    let mut writes: Vec<SnapshotWrite> = Vec::new();
    let mut executing = match stored_executing {
        Some(bytes) => match decode_listing::<StoredExecutingTask>(bytes.as_slice()) {
            Some(m) => m,
            None => {
                assert(writes_view(writes@) =~= Seq::empty());
                return writes;
            },
        },
        None => {
            assert(writes_view(writes@) =~= Seq::empty());
            return writes;
        },
    };
    let (mut queue, _) = recover::<StoredTask>(stored_tasks);
    let ghost p = executing.shown();
    let moved = reclaim(&mut executing, &mut queue, now, threshold);
    writes.push(
        SnapshotWrite { key: SnapshotKey::ExecutingTasks, value: encode_listing(&executing) },
    );
    proof {
        let written = writes[0].value@;
        lemma_snapshot_round_trip::<StoredExecutingTask>(executing.shown(), Seq::empty());
        assert(written + Seq::<u8>::empty() =~= written);
        assert(recovered::<StoredExecutingTask>(Some(written)) == executing.shown());
    }
    if moved {
        writes.push(SnapshotWrite { key: SnapshotKey::Tasks, value: encode_listing(&queue) });
    }
    assert(writes_view(writes@) =~= cycle_writes(
        opt_bytes(*stored_executing),
        opt_bytes(*stored_tasks),
        now,
        threshold,
    ));
    writes
}

/// One reclaim cycle at the moment that the system's clock shows. What
/// holds of [`reclaim_cycle`] at every moment holds of this.
pub fn reclaim_cycle_now(
    stored_executing: &Option<Vec<u8>>,
    stored_tasks: &Option<Vec<u8>>,
    threshold: u64,
) -> (writes: Vec<SnapshotWrite>)
    ensures
        exists|now: i64|
            {
                &&& writes_view(writes@) == cycle_writes(
                    opt_bytes(*stored_executing),
                    opt_bytes(*stored_tasks),
                    now,
                    threshold,
                )
                &&& writes.len() > 0 ==> none_overdue(
                    recovered::<StoredExecutingTask>(Some(writes[0].value@)),
                    now,
                    threshold,
                )
            },
{
    let now = unix_now();
    reclaim_cycle(stored_executing, stored_tasks, now, threshold)
}

} // verus!
