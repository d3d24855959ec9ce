//! The task state store: the five operations on the three collections.
//!
//! A task is queued, then in progress, then solved. Within one task type the
//! queue is first in, first out.

use vstd::prelude::*;
use crate::{id_view, Identifier, IdView};
use crate::api::EngineAPI;
use crate::id_map::{IdMap, Listing, views};
use crate::invariants::{
    lemma_acquire_unique, lemma_delete_unique, lemma_enqueue_unique, lemma_publish_unique,
    occurrences, store_wf, unique,
};
use crate::paging::{ascending, page_of, sort_by_id, sorted_by_id, take_page};
use crate::snapshot::Record;
use crate::task::{
    StoredExecutingTask, StoredExecutingTaskView, StoredTask, StoredTaskView, Task, TaskState,
};
use crate::text::same_text;

verus! {

/// Why an operation on the store fails.
#[derive(Debug, Clone, Copy, PartialEq, Eq, Structural)]
pub enum StoreError {
    /// The task type has no template.
    NotRegistered,
    /// The queue of the task type is empty.
    NoTask,
    /// No task in progress has the given id and the given worker.
    NotAssigned,
    /// The template does not accept the payload.
    VerifyFailed,
    /// The collection holds no task with the given id.
    NotFound,
}

/// The state that a task is in.
#[derive(Debug, Clone, Copy, PartialEq, Eq, Structural)]
pub enum Lifecycle {
    Queued,
    Processing,
    Solved,
}

/// The three collections as mathematical values.
pub struct StoreView {
    pub queued: Listing<StoredTaskView>,
    pub processing: Listing<StoredExecutingTaskView>,
    pub solved: Listing<StoredTaskView>,
}

/// The store with `task` at the end of the queue of `id`.
pub open spec fn enqueued(s: StoreView, id: IdView, task: StoredTaskView) -> StoreView {
    StoreView { queued: s.queued.with(id, s.queued.at(id).push(task)), ..s }
}

/// The task at the head of the queue of `id`, handed to the worker `uid` at
/// the moment `now`.
pub open spec fn handed_out(
    s: StoreView,
    id: IdView,
    uid: Seq<char>,
    now: i64,
) -> StoredExecutingTaskView {
    let head = s.queued.at(id)[0];
    StoredExecutingTaskView { bytes: head.bytes, id: head.id, user_id: uid, given_at: now }
}

/// The store after the head of the queue of `id` went to the worker `uid`.
pub open spec fn acquired(s: StoreView, id: IdView, uid: Seq<char>, now: i64) -> StoreView {
    StoreView {
        queued: s.queued.with(id, s.queued.at(id).drop_first()),
        processing: s.processing.with(
            id,
            s.processing.at(id).push(handed_out(s, id, uid, now)),
        ),
        solved: s.solved,
    }
}

/// Whether a task in progress has the id `task_id` and the worker `uid`.
pub open spec fn assigned_to(e: StoredExecutingTaskView, task_id: Seq<char>, uid: Seq<char>) -> bool {
    e.id == task_id && e.user_id == uid
}

/// The place of the first task in `list` that has the id `task_id` and the
/// worker `uid`; the length of `list` if there is none.
pub open spec fn first_assigned(
    list: Seq<StoredExecutingTaskView>,
    task_id: Seq<char>,
    uid: Seq<char>,
) -> int
    decreases list.len(),
{
    if list.len() == 0 {
        0
    } else if assigned_to(list[0], task_id, uid) {
        0
    } else {
        1 + first_assigned(list.drop_first(), task_id, uid)
    }
}

/// What the place of the first assigned task is.
pub proof fn lemma_first_assigned(
    list: Seq<StoredExecutingTaskView>,
    task_id: Seq<char>,
    uid: Seq<char>,
)
    ensures
        0 <= first_assigned(list, task_id, uid) <= list.len(),
        forall|j: int|
            0 <= j < first_assigned(list, task_id, uid) ==> !assigned_to(list[j], task_id, uid),
        first_assigned(list, task_id, uid) < list.len() ==> assigned_to(
            list[first_assigned(list, task_id, uid)],
            task_id,
            uid,
        ),
    decreases list.len(),
{
    if list.len() > 0 && !assigned_to(list[0], task_id, uid) {
        let rest = list.drop_first();
        lemma_first_assigned(rest, task_id, uid);
        assert forall|j: int| 0 <= j < first_assigned(list, task_id, uid) implies !assigned_to(
            list[j],
            task_id,
            uid,
        ) by {
            if j > 0 {
                assert(list[j] == rest[j - 1]);
            }
        }
        if first_assigned(list, task_id, uid) < list.len() {
            assert(list[first_assigned(list, task_id, uid)] == rest[first_assigned(
                rest,
                task_id,
                uid,
            )]);
        }
    }
}

/// Whether the worker `uid` holds the task `task_id` of type `id`.
pub open spec fn is_assigned(s: StoreView, id: IdView, task_id: Seq<char>, uid: Seq<char>) -> bool {
    first_assigned(s.processing.at(id), task_id, uid) < s.processing.at(id).len()
}

/// The store after the worker `uid` published `payload` for its task
/// `task_id` of type `id`: the task leaves the tasks in progress and enters
/// the solved tasks with its id and the new payload.
pub open spec fn published(
    s: StoreView,
    id: IdView,
    task_id: Seq<char>,
    uid: Seq<char>,
    payload: Seq<u8>,
) -> StoreView {
    let list = s.processing.at(id);
    StoreView {
        queued: s.queued,
        processing: s.processing.with(id, list.remove(first_assigned(list, task_id, uid))),
        solved: s.solved.with(
            id,
            s.solved.at(id).push(StoredTaskView { bytes: payload, id: task_id }),
        ),
    }
}

/// Whether a list holds a record of the task `task_id`.
pub open spec fn holds_id<T: Record>(list: Seq<T::V>, task_id: Seq<char>) -> bool {
    exists|i: int| 0 <= i < list.len() && T::task_id(#[trigger] list[i]) == task_id
}

/// A list without the records of the task `task_id`.
pub open spec fn without_id<T: Record>(list: Seq<T::V>, task_id: Seq<char>) -> Seq<T::V> {
    list.filter(|v: T::V| T::task_id(v) != task_id)
}

/// A collection in which the list of `id` has lost the records of the task
/// `task_id`.
pub open spec fn removed_from<T: Record>(
    c: Listing<T::V>,
    id: IdView,
    task_id: Seq<char>,
) -> Listing<T::V> {
    c.with(id, without_id::<T>(c.at(id), task_id))
}

/// The store after the task `task_id` of type `id` was deleted from the
/// collection of `state`.
pub open spec fn deleted(s: StoreView, id: IdView, task_id: Seq<char>, state: Lifecycle) -> StoreView {
    match state {
        Lifecycle::Queued => StoreView {
            queued: removed_from::<StoredTask>(s.queued, id, task_id),
            ..s
        },
        Lifecycle::Processing => StoreView {
            processing: removed_from::<StoredExecutingTask>(s.processing, id, task_id),
            ..s
        },
        Lifecycle::Solved => StoreView {
            solved: removed_from::<StoredTask>(s.solved, id, task_id),
            ..s
        },
    }
}

/// Whether the collection of `state` holds the task `task_id` of type `id`.
pub open spec fn holds(s: StoreView, id: IdView, task_id: Seq<char>, state: Lifecycle) -> bool {
    match state {
        Lifecycle::Queued => holds_id::<StoredTask>(s.queued.at(id), task_id),
        Lifecycle::Processing => holds_id::<StoredExecutingTask>(s.processing.at(id), task_id),
        Lifecycle::Solved => holds_id::<StoredTask>(s.solved.at(id), task_id),
    }
}

/// Removes the records of the task `task_id` from the list of `key`. Tells
/// whether there was any.
pub fn remove_by_id<T: Record>(m: &mut IdMap<Vec<T>>, key: &Identifier, task_id: &str) -> (removed:
    bool)
    ensures
        removed == holds_id::<T>(old(m).shown().at(id_view(*key)), task_id@),
        removed ==> final(m).shown() == removed_from::<T>(
            old(m).shown(),
            id_view(*key),
            task_id@,
        ),
        !removed ==> final(m).shown() == old(m).shown(),
{
    let i = match m.position(key) {
        Some(i) => i,
        None => {
            return false;
        },
    };
    let list = m.value_at(i);
    let ghost before = views(list@);
    let ghost pred = |v: T::V| T::task_id(v) != task_id@;
    let mut kept: Vec<T> = Vec::new();
    let mut removed = false;
    let mut k: usize = 0;
    proof {
        reveal(Seq::filter);
        assert(before.take(0).filter(pred) =~= Seq::<T::V>::empty());
        assert(views(kept@) =~= before.take(0));
    }
    while k < list.len()
        invariant
            pred == |v: T::V| T::task_id(v) != task_id@,
            before == views(list@),
            k <= list.len(),
            views(kept@) == before.take(k as int).filter(pred),
            !removed ==> views(kept@) == before.take(k as int),
            removed == (exists|j: int| 0 <= j < k && T::task_id(#[trigger] before[j]) == task_id@),
        decreases list.len() - k,
    {
        let ghost kept_before = views(kept@);
        proof {
            before.take(k as int).lemma_filter_push(before[k as int], pred);
            assert(before.take(k as int).push(before[k as int]) =~= before.take(k + 1));
        }
        if same_text(list[k].id_text(), task_id) {
            removed = true;
        } else {
            kept.push(list[k].duplicate_record());
            assert(views(kept@) =~= kept_before.push(before[k as int]));
        }
        k += 1;
    }
    assert(before.take(k as int) =~= before);
    if removed {
        let _ = m.set_list(i, kept);
    }
    assert(!removed ==> m.deep() =~= old(m).deep());
    removed
}

/// The tasks of `c` of type `id`, in ascending order of their ids, page
/// number `page` of them.
pub open spec fn listed<T: Record>(
    c: Listing<T::V>,
    id: IdView,
    page: u64,
    size: u32,
    limit: u32,
) -> Seq<T::V> {
    page_of(sorted_by_id::<T>(c.at(id)), page, size, limit)
}

/// Page number `page` of the list of `key`, in ascending order of the task
/// ids.
pub fn list_page<T: Record>(
    m: &IdMap<Vec<T>>,
    key: &Identifier,
    page: u64,
    size: u32,
    limit: u32,
) -> (r: Vec<T>)
    ensures
        views(r@) == listed::<T>(m.shown(), id_view(*key), page, size, limit),
        ascending::<T>(views(r@)),
{
    match m.get(key) {
        Some(list) => {
            let sorted = sort_by_id(list);
            take_page(&sorted, page, size, limit)
        },
        None => {
            let r: Vec<T> = Vec::new();
            assert(sorted_by_id::<T>(Seq::<T::V>::empty()) =~= Seq::<T::V>::empty());
            assert(views(r@) =~= Seq::<T::V>::empty());
            r
        },
    }
}

impl<T: Task, X> EngineAPI<T, X> {
    /// The three collections.
    pub open spec fn store(&self) -> StoreView {
        StoreView {
            queued: self.task_queue@,
            processing: self.executing_tasks@,
            solved: self.solved_tasks@,
        }
    }

    /// Whether the task type `id` has a template.
    pub open spec fn registered(&self, id: IdView) -> bool {
        self.task_registry.tasks@.contains_key(id)
    }

    /// Whether the template of the task type `id` accepts `payload`.
    pub open spec fn accepts(&self, id: IdView, payload: Seq<u8>) -> bool {
        self.task_registry.tasks@[id].accepts(payload)
    }

    /// Whether everything but the three collections is as in `before`.
    pub open spec fn rest_unchanged(&self, before: &Self) -> bool {
        &&& self.cfg == before.cfg
        &&& self.task_registry == before.task_registry
        &&& self.event_bus == before.event_bus
        &&& self.lib_manager == before.lib_manager
    }

    /// Recalls that the three collections are well-formed.
    pub fn store_shape(&self)
        ensures
            store_wf(self.store()),
    {
        self.task_queue.tasks.shape();
        self.executing_tasks.tasks.shape();
        self.solved_tasks.tasks.shape();
        proof {
            crate::snapshot::lemma_shown_wf(&self.task_queue.tasks);
            crate::snapshot::lemma_shown_wf(&self.executing_tasks.tasks);
            crate::snapshot::lemma_shown_wf(&self.solved_tasks.tasks);
        }
    }

    /// Appends `task` to the queue of the task type `id`. Fails where the
    /// type has no template. Where every task is in the store once at most
    /// and the id of `task` is new to its type, this stays so.
    pub fn enqueue(&mut self, id: &Identifier, task: StoredTask) -> (r: Result<(), StoreError>)
        ensures
            final(self).rest_unchanged(old(self)),
            match r {
                Ok(_) => {
                    &&& old(self).registered(id_view(*id))
                    &&& final(self).store() == enqueued(old(self).store(), id_view(*id), task@)
                },
                Err(e) => {
                    &&& e == StoreError::NotRegistered
                    &&& !old(self).registered(id_view(*id))
                    &&& final(self).store() == old(self).store()
                },
            },
            unique(old(self).store()) && occurrences(old(self).store(), id_view(*id), task.id@) == 0
                ==> unique(final(self).store()),
    {
        self.store_shape();
        if !self.task_registry.tasks.contains_key(id) {
            return Err(StoreError::NotRegistered);
        }
        proof {
            if unique(self.store()) && occurrences(self.store(), id_view(*id), task.id@) == 0 {
                lemma_enqueue_unique(self.store(), id_view(*id), task@);
            }
        }
        self.task_queue.tasks.append(id, task);
        Ok(())
    }

    /// Takes the oldest task out of the queue of the task type `id` and
    /// puts it among the tasks in progress, held by the worker `worker_uid`
    /// since the moment `now`. Fails where the queue is empty. Where every
    /// task is in the store once at most, this stays so.
    pub fn acquire(&mut self, id: &Identifier, worker_uid: &str, now: i64) -> (r: Result<
        StoredTask,
        StoreError,
    >)
        ensures
            final(self).rest_unchanged(old(self)),
            match r {
                Ok(task) => {
                    &&& old(self).store().queued.at(id_view(*id)).len() > 0
                    &&& task@ == old(self).store().queued.at(id_view(*id))[0]
                    &&& final(self).store() == acquired(
                        old(self).store(),
                        id_view(*id),
                        worker_uid@,
                        now,
                    )
                },
                Err(e) => {
                    &&& e == StoreError::NoTask
                    &&& old(self).store().queued.at(id_view(*id)).len() == 0
                    &&& final(self).store() == old(self).store()
                },
            },
            unique(old(self).store()) ==> unique(final(self).store()),
    {
        self.store_shape();
        let ghost before = self.store();
        proof {
            if unique(before) && before.queued.at(id_view(*id)).len() > 0 {
                lemma_acquire_unique(before, id_view(*id), worker_uid@, now);
            }
        }
        match self.task_queue.tasks.take_first(id) {
            Some(task) => {
                let entry = StoredExecutingTask {
                    bytes: task.bytes.clone(),
                    id: task.id.clone(),
                    user_id: worker_uid.to_owned(),
                    given_at: now,
                };
                assert(entry@ == handed_out(before, id_view(*id), worker_uid@, now));
                self.executing_tasks.tasks.append(id, entry);
                proof {
                    let k = id_view(*id);
                    assert(old(self).task_queue.tasks.deep().contains_key(k));
                    assert(old(self).task_queue.tasks.keys().contains(k)) by {
                        assert(old(self).task_queue.tasks@.contains_key(k));
                    }
                }
                Ok(task)
            },
            None => Err(StoreError::NoTask),
        }
    }

    /// Moves the task `task_id` of type `id`, which the worker `worker_uid`
    /// holds, to the solved tasks, with `payload` as its new payload. Fails
    /// where the type has no template, where that worker holds no such task,
    /// and where the template does not accept the payload. Where every task
    /// is in the store once at most, this stays so.
    pub fn publish(
        &mut self,
        id: &Identifier,
        task_id: &str,
        worker_uid: &str,
        payload: Vec<u8>,
    ) -> (r: Result<(), StoreError>)
        ensures
            final(self).rest_unchanged(old(self)),
            match r {
                Ok(_) => {
                    &&& old(self).registered(id_view(*id))
                    &&& is_assigned(old(self).store(), id_view(*id), task_id@, worker_uid@)
                    &&& old(self).accepts(id_view(*id), payload@)
                    &&& final(self).store() == published(
                        old(self).store(),
                        id_view(*id),
                        task_id@,
                        worker_uid@,
                        payload@,
                    )
                },
                Err(e) => {
                    &&& final(self).store() == old(self).store()
                    &&& e == (if !old(self).registered(id_view(*id)) {
                        StoreError::NotRegistered
                    } else if !is_assigned(
                        old(self).store(),
                        id_view(*id),
                        task_id@,
                        worker_uid@,
                    ) {
                        StoreError::NotAssigned
                    } else {
                        StoreError::VerifyFailed
                    })
                    &&& e == StoreError::VerifyFailed ==> !old(self).accepts(
                        id_view(*id),
                        payload@,
                    )
                },
            },
            unique(old(self).store()) ==> unique(final(self).store()),
    {
        self.store_shape();
        proof {
            if unique(self.store()) && is_assigned(
                self.store(),
                id_view(*id),
                task_id@,
                worker_uid@,
            ) {
                lemma_publish_unique(self.store(), id_view(*id), task_id@, worker_uid@, payload@);
            }
        }
        let ghost k = id_view(*id);
        let ghost shown = self.store().processing.at(k);
        let accepted = match self.task_registry.tasks.get(id) {
            Some(template) => template.verify(payload.clone()),
            None => {
                return Err(StoreError::NotRegistered);
            },
        };
        proof {
            lemma_first_assigned(shown, task_id@, worker_uid@);
        }
        let i = match self.executing_tasks.tasks.position(id) {
            Some(i) => i,
            None => {
                return Err(StoreError::NotAssigned);
            },
        };
        let list = self.executing_tasks.tasks.value_at(i);
        assert(views(list@) == shown);
        let mut at: usize = 0;
        assert(shown.skip(0) =~= shown);
        while at < list.len() && !(same_text(list[at].id.as_str(), task_id) && same_text(
            list[at].user_id.as_str(),
            worker_uid,
        ))
            invariant
                at <= list.len(),
                views(list@) == shown,
                first_assigned(shown, task_id@, worker_uid@) == at + first_assigned(
                    shown.skip(at as int),
                    task_id@,
                    worker_uid@,
                ),
            decreases list.len() - at,
        {
            assert(shown.skip(at as int)[0] == list[at as int]@);
            assert(shown.skip(at as int).drop_first() =~= shown.skip(at + 1));
            at += 1;
        }
        if at == list.len() {
            return Err(StoreError::NotAssigned);
        }
        assert(shown.skip(at as int)[0] == list[at as int]@);
        if !accepted {
            return Err(StoreError::VerifyFailed);
        }
        let mut list = self.executing_tasks.tasks.set_list(i, Vec::new());
        let entry = list.remove(at);
        assert(views(list@) =~= shown.remove(at as int));
        let _ = self.executing_tasks.tasks.set_list(i, list);
        let solved = StoredTask { bytes: payload, id: entry.id };
        self.solved_tasks.tasks.append(id, solved);
        assert(self.store().processing.lists =~= published(
            old(self).store(),
            k,
            task_id@,
            worker_uid@,
            payload@,
        ).processing.lists);
        Ok(())
    }

    /// Deletes the task `task_id` of type `id` from the collection of
    /// `state`. Fails where that collection holds no such task. Where every
    /// task is in the store once at most, this stays so.
    pub fn delete(&mut self, id: &Identifier, task_id: &str, state: Lifecycle) -> (r: Result<
        (),
        StoreError,
    >)
        ensures
            final(self).rest_unchanged(old(self)),
            match r {
                Ok(_) => {
                    &&& holds(old(self).store(), id_view(*id), task_id@, state)
                    &&& final(self).store() == deleted(
                        old(self).store(),
                        id_view(*id),
                        task_id@,
                        state,
                    )
                },
                Err(e) => {
                    &&& e == StoreError::NotFound
                    &&& !holds(old(self).store(), id_view(*id), task_id@, state)
                    &&& final(self).store() == old(self).store()
                },
            },
            unique(old(self).store()) ==> unique(final(self).store()),
    {
        self.store_shape();
        proof {
            if unique(self.store()) {
                lemma_delete_unique(self.store(), id_view(*id), task_id@, state);
            }
        }
        let removed = match state {
            Lifecycle::Queued => remove_by_id(&mut self.task_queue.tasks, id, task_id),
            Lifecycle::Processing => remove_by_id(&mut self.executing_tasks.tasks, id, task_id),
            Lifecycle::Solved => remove_by_id(&mut self.solved_tasks.tasks, id, task_id),
        };
        if removed {
            Ok(())
        } else {
            Err(StoreError::NotFound)
        }
    }

    /// The tasks of type `id` in the collection of `state`, in ascending
    /// order of their ids: page number `page` in pages of `size` tasks, cut
    /// to the configured limit. A type without tasks has empty pages.
    pub fn list(&self, id: &Identifier, state: Lifecycle, page: u64, size: u32) -> (r: TaskState)
        ensures
            match state {
                Lifecycle::Queued => r matches TaskState::StoredTask(tasks) && views(tasks@)
                    == listed::<StoredTask>(
                    self.store().queued,
                    id_view(*id),
                    page,
                    size,
                    self.cfg.config_toml.pagination_limit,
                ),
                Lifecycle::Processing => r matches TaskState::StoredExecutingTask(tasks) && views(
                    tasks@,
                ) == listed::<StoredExecutingTask>(
                    self.store().processing,
                    id_view(*id),
                    page,
                    size,
                    self.cfg.config_toml.pagination_limit,
                ),
                Lifecycle::Solved => r matches TaskState::StoredTask(tasks) && views(tasks@)
                    == listed::<StoredTask>(
                    self.store().solved,
                    id_view(*id),
                    page,
                    size,
                    self.cfg.config_toml.pagination_limit,
                ),
            },
    {
        let limit = self.cfg.config_toml.pagination_limit;
        match state {
            Lifecycle::Queued => TaskState::StoredTask(
                list_page(&self.task_queue.tasks, id, page, size, limit),
            ),
            Lifecycle::Processing => TaskState::StoredExecutingTask(
                list_page(&self.executing_tasks.tasks, id, page, size, limit),
            ),
            Lifecycle::Solved => TaskState::StoredTask(
                list_page(&self.solved_tasks.tasks, id, page, size, limit),
            ),
        }
    }
}

} // verus!
