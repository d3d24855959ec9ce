//! The dispatch service: the operations that callers reach, each behind its
//! authentication.
//!
//! Every operation first asks the handlers whether the caller may pass, and
//! refuses with `PermissionDenied` where they say no. An operation that
//! changes a collection hands back, with its message, the snapshots that are
//! to be written before the caller gets the message.

use vstd::prelude::*;
use crate::IdView;
use crate::api::{EngineAPI, snapshot_bytes};
use crate::clock::unix_now;
use crate::entropy::random_bits;
use crate::event::EventHandler;
use crate::events::{CoreEvent, Events, ID};
use crate::id_map::views;
use crate::identifier::{joined, parse_identifier, parsed, render_identifier};
use crate::proto::{
    Cgrpcmsg, Empty, get_auth, get_uid, Reply, Request, SnapshotKey, SnapshotWrite, Status, Task,
    TaskPage, TaskPageRequest, TaskRegistry, TaskRequest, TaskSelector, TaskView, writes_view,
};
use crate::snapshot::Record;
use crate::store::{
    acquired, deleted, enqueued, holds, is_assigned, Lifecycle, listed, published, StoreError,
    StoreView,
};
use crate::task::{StoredExecutingTask, StoredTask, StoredTaskView, TaskState};
use crate::text::{hex128, to_hex};

verus! {

/// The dispatch service with the state that it serves from.
#[derive(Debug)]
pub struct EngineService<T, X> {
    pub api: EngineAPI<T, X>,
}

/// A stored record as a task on the wire.
pub open spec fn wire_task<R: Record>(v: R::V, wire_id: Seq<char>) -> TaskView {
    TaskView {
        id: R::task_id(v),
        task_id: wire_id,
        task_payload: R::payload(v),
        payload: Seq::empty(),
    }
}

/// Stored records as tasks on the wire.
pub open spec fn wire_tasks<R: Record>(list: Seq<R::V>, wire_id: Seq<char>) -> Seq<TaskView> {
    list.map_values(|v: R::V| wire_task::<R>(v, wire_id))
}

/// Stored records as tasks on the wire.
pub fn to_wire<R: Record>(list: &Vec<R>, wire_id: &str) -> (r: Vec<Task>)
    ensures
        views(r@) == wire_tasks::<R>(views(list@), wire_id@),
{
    let mut r: Vec<Task> = Vec::new();
    let mut i: usize = 0;
    while i < list.len()
        invariant
            i <= list.len(),
            r.len() == i,
            forall|k: int| 0 <= k < i ==> r[k]@ == wire_task::<R>(list[k]@, wire_id@),
        decreases list.len() - i,
    {
        r.push(
            Task {
                id: list[i].id_text().to_owned(),
                task_id: wire_id.to_owned(),
                task_payload: list[i].payload_bytes().clone(),
                payload: Vec::new(),
            },
        );
        i += 1;
    }
    assert(views(r@) =~= wire_tasks::<R>(views(list@), wire_id@));
    r
}

/// The two snapshots under `first` and `second` of the store `s`.
pub open spec fn two_writes(s: StoreView, first: SnapshotKey, second: SnapshotKey) -> Seq<
    (SnapshotKey, Seq<u8>),
> {
    seq![(first, snapshot_bytes(s, first)), (second, snapshot_bytes(s, second))]
}

/// The three snapshots of the store `s`.
pub open spec fn all_writes(s: StoreView) -> Seq<(SnapshotKey, Seq<u8>)> {
    seq![
        (SnapshotKey::Tasks, snapshot_bytes(s, SnapshotKey::Tasks)),
        (SnapshotKey::ExecutingTasks, snapshot_bytes(s, SnapshotKey::ExecutingTasks)),
        (SnapshotKey::SolvedTasks, snapshot_bytes(s, SnapshotKey::SolvedTasks)),
    ]
}

impl<T: crate::task::Task, X: EventHandler<CoreEvent>> EngineService<T, X> {
    /// Whether the handlers let the caller of `request` use the service.
    pub open spec fn user_ok<M>(&self, request: &Request<M>) -> bool {
        Events::auth_granted(self.api, request.caller(), request.credential())
    }

    /// Whether the handlers let the caller of `request` use an
    /// administrative operation that is meant for the handler `target`.
    pub open spec fn admin_ok<M>(&self, request: &Request<M>, target: IdView) -> bool {
        Events::admin_granted(self.api, request.credential(), target)
    }

    /// Whether the state is as in `before`.
    pub open spec fn unchanged(&self, before: &Self) -> bool {
        self.api.store() == before.api.store() && self.api.rest_unchanged(&before.api)
    }

    /// Where the handlers do not let the caller through, each operation on
    /// tasks refuses with `PermissionDenied`, whatever else the request
    /// holds.
    pub proof fn lemma_denied_without_auth(
        &self,
        acquire: &Request<TaskRequest>,
        publish: &Request<Task>,
        create: &Request<Task>,
        delete: &Request<TaskSelector>,
    )
        ensures
            !self.user_ok(acquire) ==> self.acquire_refusal(acquire) == Some(
                Status::PermissionDenied,
            ),
            !self.user_ok(publish) ==> self.publish_refusal(publish) == Some(
                Status::PermissionDenied,
            ),
            !self.user_ok(create) ==> self.create_refusal(create) == Some(Status::PermissionDenied),
            !self.admin_ok(delete, (Seq::empty(), Seq::empty())) ==> self.delete_refusal(delete)
                == Some(Status::PermissionDenied),
    {
    }

    /// Tells whether the caller is let through as an administrator.
    pub fn check_auth(&self, request: &Request<Empty>) -> (r: Result<Empty, Status>)
        ensures
            match r {
                Ok(_) => self.admin_ok(request, (Seq::empty(), Seq::empty())),
                Err(e) => e == Status::PermissionDenied && !self.admin_ok(
                    request,
                    (Seq::empty(), Seq::empty()),
                ),
            },
    {
        if !Events::CheckAdminAuth(&self.api, get_auth(request), (String::new(), String::new())) {
            return Err(Status::PermissionDenied);
        }
        Ok(Empty {  })
    }

    /// Why deleting fails, if it does.
    pub open spec fn delete_refusal(&self, request: &Request<TaskSelector>) -> Option<Status> {
        let m = request.message;
        if !self.admin_ok(request, (Seq::empty(), Seq::empty())) {
            Some(Status::PermissionDenied)
        } else if !holds(self.api.store(), (m.namespace@, m.task@), m.id@, m.state) {
            Some(Status::NotFound)
        } else {
            None
        }
    }

    /// Deletes the task that the request names from the collection of the
    /// state that the request names. All three snapshots are to be written.
    pub fn delete_task(&mut self, request: &Request<TaskSelector>) -> (r: Result<
        Reply<Empty>,
        Status,
    >)
        ensures
            final(self).api.rest_unchanged(&old(self).api),
            match old(self).delete_refusal(request) {
                Some(e) => r == Err::<Reply<Empty>, Status>(e) && final(self).unchanged(old(self)),
                None => {
                    &&& r is Ok
                    &&& final(self).api.store() == deleted(
                        old(self).api.store(),
                        (request.message.namespace@, request.message.task@),
                        request.message.id@,
                        request.message.state,
                    )
                    &&& writes_view(r->Ok_0.writes@) == all_writes(final(self).api.store())
                },
            },
    {
        if !Events::CheckAdminAuth(&self.api, get_auth(request), (String::new(), String::new())) {
            return Err(Status::PermissionDenied);
        }
        let data = request.get_ref();
        let id = ID(data.namespace.as_str(), data.task.as_str());
        match self.api.delete(&id, data.id.as_str(), data.state) {
            Ok(_) => {},
            Err(_) => {
                return Err(Status::NotFound);
            },
        }
        let writes = self.api.sync_db();
        Ok(Reply { message: Empty {  }, writes })
    }

    /// The page of tasks that the request asks for, as tasks on the wire.
    pub open spec fn page_for(&self, request: &Request<TaskPageRequest>) -> Seq<TaskView> {
        let m = request.message;
        let id = (m.namespace@, m.task@);
        let limit = self.api.cfg.config_toml.pagination_limit;
        match m.state {
            Lifecycle::Queued => wire_tasks::<StoredTask>(
                listed::<StoredTask>(self.api.store().queued, id, m.page, m.page_size, limit),
                joined(id),
            ),
            Lifecycle::Processing => wire_tasks::<StoredExecutingTask>(
                listed::<StoredExecutingTask>(
                    self.api.store().processing,
                    id,
                    m.page,
                    m.page_size,
                    limit,
                ),
                joined(id),
            ),
            Lifecycle::Solved => wire_tasks::<StoredTask>(
                listed::<StoredTask>(self.api.store().solved, id, m.page, m.page_size, limit),
                joined(id),
            ),
        }
    }

    /// One page of the tasks of a type in a state, in ascending order of
    /// their ids. A type or a state without tasks has empty pages.
    pub fn get_tasks(&self, request: &Request<TaskPageRequest>) -> (r: Result<TaskPage, Status>)
        ensures
            match r {
                Ok(page) => {
                    &&& self.admin_ok(request, (Seq::empty(), Seq::empty()))
                    &&& page.namespace@ == request.message.namespace@
                    &&& page.task@ == request.message.task@
                    &&& page.page == request.message.page
                    &&& page.page_size == request.message.page_size
                    &&& page.state == request.message.state
                    &&& views(page.tasks@) == self.page_for(request)
                },
                Err(e) => e == Status::PermissionDenied && !self.admin_ok(
                    request,
                    (Seq::empty(), Seq::empty()),
                ),
            },
    {
        if !Events::CheckAdminAuth(&self.api, get_auth(request), (String::new(), String::new())) {
            return Err(Status::PermissionDenied);
        }
        let data = request.get_ref();
        let id = ID(data.namespace.as_str(), data.task.as_str());
        let wire_id = render_identifier(&id);
        let tasks = match self.api.list(&id, data.state, data.page, data.page_size) {
            TaskState::StoredTask(list) => to_wire(&list, wire_id.as_str()),
            TaskState::StoredExecutingTask(list) => to_wire(&list, wire_id.as_str()),
        };
        Ok(
            TaskPage {
                namespace: data.namespace.clone(),
                task: data.task.clone(),
                page: data.page,
                page_size: data.page_size,
                state: data.state,
                tasks,
            },
        )
    }

    /// Carries a custom call to the handlers and their reply back.
    pub fn cgrpc(&self, request: &Request<Cgrpcmsg>) -> (r: Result<Cgrpcmsg, Status>)
        ensures
            match r {
                Ok(reply) => {
                    &&& self.admin_ok(
                        request,
                        (request.message.handler_mod_id@, request.message.handler_id@),
                    )
                    &&& reply.handler_mod_id@ == request.message.handler_mod_id@
                    &&& reply.handler_id@ == request.message.handler_id@
                    &&& reply.event_payload@ == Events::cgrpc_reply(
                        self.api,
                        (request.message.handler_mod_id@, request.message.handler_id@),
                        request.message.event_payload@,
                    )
                },
                Err(e) => e == Status::PermissionDenied && !self.admin_ok(
                    request,
                    (request.message.handler_mod_id@, request.message.handler_id@),
                ),
            },
    {
        let data = request.get_ref();
        let target = ID(data.handler_mod_id.as_str(), data.handler_id.as_str());
        if !Events::CheckAdminAuth(&self.api, get_auth(request), target) {
            return Err(Status::PermissionDenied);
        }
        let handler = ID(data.handler_mod_id.as_str(), data.handler_id.as_str());
        let output = Events::CgrpcEvent(&self.api, handler, data.event_payload.clone());
        Ok(
            Cgrpcmsg {
                handler_mod_id: data.handler_mod_id.clone(),
                handler_id: data.handler_id.clone(),
                event_payload: output,
            },
        )
    }

    /// The wire identifiers of the registered task types, in the order of
    /// their registration.
    pub fn aquire_task_reg(&self, request: &Request<Empty>) -> (r: Result<TaskRegistry, Status>)
        ensures
            match r {
                Ok(reg) => {
                    &&& self.user_ok(request)
                    &&& reg.tasks@.map_values(|s: String| s@)
                        == self.api.task_registry.tasks.keys().map_values(|k: IdView| joined(k))
                },
                Err(e) => e == Status::PermissionDenied && !self.user_ok(request),
            },
    {
        if !Events::CheckAuth(&self.api, get_uid(request), get_auth(request)) {
            return Err(Status::PermissionDenied);
        }
        let mut tasks: Vec<String> = Vec::new();
        let n = self.api.task_registry.tasks.len();
        let mut i: usize = 0;
        while i < n
            invariant
                i <= n,
                n == self.api.task_registry.tasks.keys().len(),
                tasks.len() == i,
                forall|k: int|
                    0 <= k < i ==> (#[trigger] tasks[k])@ == joined(
                        self.api.task_registry.tasks.keys()[k],
                    ),
            decreases n - i,
        {
            tasks.push(render_identifier(self.api.task_registry.tasks.key_at(i)));
            i += 1;
        }
        assert(tasks@.map_values(|s: String| s@) =~= self.api.task_registry.tasks.keys().map_values(
            |k: IdView| joined(k),
        ));
        Ok(TaskRegistry { tasks })
    }

    /// Why acquiring fails, if it does.
    pub open spec fn acquire_refusal(&self, request: &Request<TaskRequest>) -> Option<Status> {
        if !self.user_ok(request) {
            Some(Status::PermissionDenied)
        } else {
            match parsed(request.message.task_id@) {
                None => Some(Status::InvalidArgument),
                Some(id) => if !self.api.registered(id) {
                    Some(Status::InvalidArgument)
                } else if self.api.store().queued.at(id).len() == 0 {
                    Some(Status::NotFound)
                } else {
                    None
                },
            }
        }
    }

    /// Hands the oldest queued task of the requested type to the caller, at
    /// the moment `now` in seconds since the Unix epoch. The snapshots of the
    /// queue and of the tasks in progress are to be written.
    pub fn aquire_task_at(&mut self, request: &Request<TaskRequest>, now: i64) -> (r: Result<
        Reply<Task>,
        Status,
    >)
        ensures
            final(self).api.rest_unchanged(&old(self).api),
            match old(self).acquire_refusal(request) {
                Some(e) => r == Err::<Reply<Task>, Status>(e) && final(self).unchanged(old(self)),
                None => {
                    let id = parsed(request.message.task_id@)->0;
                    let head = old(self).api.store().queued.at(id)[0];
                    &&& r is Ok
                    &&& r->Ok_0.message@ == (TaskView {
                        id: head.id,
                        task_id: request.message.task_id@,
                        task_payload: head.bytes,
                        payload: Seq::empty(),
                    })
                    &&& final(self).api.store() == acquired(
                        old(self).api.store(),
                        id,
                        request.caller(),
                        now,
                    )
                    &&& writes_view(r->Ok_0.writes@) == two_writes(
                        final(self).api.store(),
                        SnapshotKey::Tasks,
                        SnapshotKey::ExecutingTasks,
                    )
                },
            },
    {
        let uid = get_uid(request);
        if !Events::CheckAuth(&self.api, uid.clone(), get_auth(request)) {
            return Err(Status::PermissionDenied);
        }
        let input = request.get_ref();
        let id = match parse_identifier(input.task_id.as_str()) {
            Some(id) => id,
            None => {
                return Err(Status::InvalidArgument);
            },
        };
        if !self.api.task_registry.tasks.contains_key(&id) {
            return Err(Status::InvalidArgument);
        }
        let task = match self.api.acquire(&id, uid.as_str(), now) {
            Ok(task) => task,
            Err(_) => {
                return Err(Status::NotFound);
            },
        };
        let mut writes: Vec<SnapshotWrite> = Vec::new();
        writes.push(self.api.snapshot(SnapshotKey::Tasks));
        writes.push(self.api.snapshot(SnapshotKey::ExecutingTasks));
        assert(writes_view(writes@) =~= two_writes(
            self.api.store(),
            SnapshotKey::Tasks,
            SnapshotKey::ExecutingTasks,
        ));
        Ok(
            Reply {
                message: Task {
                    id: task.id,
                    task_id: input.task_id.clone(),
                    task_payload: task.bytes,
                    payload: Vec::new(),
                },
                writes,
            },
        )
    }

    /// Hands the oldest queued task of the requested type to the caller, at
    /// the moment that the system's clock shows. What holds of
    /// [`Self::aquire_task_at`] at every moment holds of this.
    pub fn aquire_task(&mut self, request: &Request<TaskRequest>) -> (r: Result<
        Reply<Task>,
        Status,
    >)
        ensures
            final(self).api.rest_unchanged(&old(self).api),
            match old(self).acquire_refusal(request) {
                Some(e) => r == Err::<Reply<Task>, Status>(e) && final(self).unchanged(old(self)),
                None => {
                    let id = parsed(request.message.task_id@)->0;
                    let head = old(self).api.store().queued.at(id)[0];
                    &&& r is Ok
                    &&& r->Ok_0.message@ == (TaskView {
                        id: head.id,
                        task_id: request.message.task_id@,
                        task_payload: head.bytes,
                        payload: Seq::empty(),
                    })
                    &&& exists|now: i64|
                        final(self).api.store() == acquired(
                            old(self).api.store(),
                            id,
                            request.caller(),
                            now,
                        )
                    &&& writes_view(r->Ok_0.writes@) == two_writes(
                        final(self).api.store(),
                        SnapshotKey::Tasks,
                        SnapshotKey::ExecutingTasks,
                    )
                },
            },
    {
        let now = unix_now();
        self.aquire_task_at(request, now)
    }

    /// Why publishing fails, if it does.
    pub open spec fn publish_refusal(&self, request: &Request<Task>) -> Option<Status> {
        let m = request.message;
        if !self.user_ok(request) {
            Some(Status::PermissionDenied)
        } else {
            match parsed(m.task_id@) {
                None => Some(Status::InvalidArgument),
                Some(id) => if !self.api.registered(id) {
                    Some(Status::InvalidArgument)
                } else if !is_assigned(self.api.store(), id, m.id@, request.caller()) {
                    Some(Status::NotFound)
                } else if !self.api.accepts(id, m.task_payload@) {
                    Some(Status::InvalidArgument)
                } else {
                    None
                },
            }
        }
    }

    /// Takes the result of a task from the worker that holds it: the task
    /// leaves the tasks in progress and enters the solved tasks with the
    /// payload of the request. The snapshots of the tasks in progress and of
    /// the solved tasks are to be written.
    pub fn publish_task(&mut self, request: &Request<Task>) -> (r: Result<Reply<Empty>, Status>)
        ensures
            final(self).api.rest_unchanged(&old(self).api),
            match old(self).publish_refusal(request) {
                Some(e) => r == Err::<Reply<Empty>, Status>(e) && final(self).unchanged(old(self)),
                None => {
                    &&& r is Ok
                    &&& final(self).api.store() == published(
                        old(self).api.store(),
                        parsed(request.message.task_id@)->0,
                        request.message.id@,
                        request.caller(),
                        request.message.task_payload@,
                    )
                    &&& writes_view(r->Ok_0.writes@) == two_writes(
                        final(self).api.store(),
                        SnapshotKey::ExecutingTasks,
                        SnapshotKey::SolvedTasks,
                    )
                },
            },
    {
        let uid = get_uid(request);
        if !Events::CheckAuth(&self.api, uid.clone(), get_auth(request)) {
            return Err(Status::PermissionDenied);
        }
        let task = request.get_ref();
        let id = match parse_identifier(task.task_id.as_str()) {
            Some(id) => id,
            None => {
                return Err(Status::InvalidArgument);
            },
        };
        match self.api.publish(&id, task.id.as_str(), uid.as_str(), task.task_payload.clone()) {
            Ok(_) => {},
            Err(StoreError::NotAssigned) => {
                return Err(Status::NotFound);
            },
            Err(_) => {
                return Err(Status::InvalidArgument);
            },
        }
        let mut writes: Vec<SnapshotWrite> = Vec::new();
        writes.push(self.api.snapshot(SnapshotKey::ExecutingTasks));
        writes.push(self.api.snapshot(SnapshotKey::SolvedTasks));
        assert(writes_view(writes@) =~= two_writes(
            self.api.store(),
            SnapshotKey::ExecutingTasks,
            SnapshotKey::SolvedTasks,
        ));
        Ok(Reply { message: Empty {  }, writes })
    }

    /// Why creating fails, if it does.
    pub open spec fn create_refusal(&self, request: &Request<Task>) -> Option<Status> {
        let m = request.message;
        if !self.user_ok(request) {
            Some(Status::PermissionDenied)
        } else {
            match parsed(m.task_id@) {
                None => Some(Status::InvalidArgument),
                Some(id) => if !self.api.registered(id) {
                    Some(Status::InvalidArgument)
                } else if !self.api.accepts(id, m.task_payload@) {
                    Some(Status::InvalidArgument)
                } else {
                    None
                },
            }
        }
    }

    /// Admits a new task: the template of its type verifies the payload, the
    /// task gets the numeral of `fresh` as its id and enters the queue of its
    /// type. The snapshot of the queue is to be written.
    pub fn create_task_with(&mut self, request: &Request<Task>, fresh: u128) -> (r: Result<
        Reply<Task>,
        Status,
    >)
        ensures
            final(self).api.rest_unchanged(&old(self).api),
            match old(self).create_refusal(request) {
                Some(e) => r == Err::<Reply<Task>, Status>(e) && final(self).unchanged(old(self)),
                None => {
                    &&& r is Ok
                    &&& r->Ok_0.message@ == (TaskView {
                        id: hex128(fresh),
                        task_id: request.message.task_id@,
                        task_payload: request.message.task_payload@,
                        payload: Seq::empty(),
                    })
                    &&& final(self).api.store() == enqueued(
                        old(self).api.store(),
                        parsed(request.message.task_id@)->0,
                        StoredTaskView { bytes: request.message.task_payload@, id: hex128(fresh) },
                    )
                    &&& writes_view(r->Ok_0.writes@) == seq![
                        (
                            SnapshotKey::Tasks,
                            snapshot_bytes(final(self).api.store(), SnapshotKey::Tasks),
                        ),
                    ]
                },
            },
    {
        if !Events::CheckAuth(&self.api, get_uid(request), get_auth(request)) {
            return Err(Status::PermissionDenied);
        }
        let task = request.get_ref();
        let id = match parse_identifier(task.task_id.as_str()) {
            Some(id) => id,
            None => {
                return Err(Status::InvalidArgument);
            },
        };
        let accepted = match self.api.task_registry.tasks.get(&id) {
            Some(template) => template.verify(task.task_payload.clone()),
            None => {
                return Err(Status::InvalidArgument);
            },
        };
        if !accepted {
            return Err(Status::InvalidArgument);
        }
        let minted = to_hex(fresh);
        let stored = StoredTask { bytes: task.task_payload.clone(), id: minted.clone() };
        match self.api.enqueue(&id, stored) {
            Ok(_) => {},
            Err(_) => {
                return Err(Status::InvalidArgument);
            },
        }
        let mut writes: Vec<SnapshotWrite> = Vec::new();
        writes.push(self.api.snapshot(SnapshotKey::Tasks));
        assert(writes_view(writes@) =~= seq![
            (SnapshotKey::Tasks, snapshot_bytes(self.api.store(), SnapshotKey::Tasks)),
        ]);
        Ok(
            Reply {
                message: Task {
                    id: minted,
                    task_id: task.task_id.clone(),
                    task_payload: task.task_payload.clone(),
                    payload: Vec::new(),
                },
                writes,
            },
        )
    }

    /// Admits a new task under an id minted from random bits. What holds of
    /// [`Self::create_task_with`] for every number holds of this.
    pub fn create_task(&mut self, request: &Request<Task>) -> (r: Result<Reply<Task>, Status>)
        ensures
            final(self).api.rest_unchanged(&old(self).api),
            match old(self).create_refusal(request) {
                Some(e) => r == Err::<Reply<Task>, Status>(e) && final(self).unchanged(old(self)),
                None => {
                    &&& r is Ok
                    &&& exists|fresh: u128|
                        {
                            &&& r->Ok_0.message@ == (TaskView {
                                id: hex128(fresh),
                                task_id: request.message.task_id@,
                                task_payload: request.message.task_payload@,
                                payload: Seq::empty(),
                            })
                            &&& final(self).api.store() == enqueued(
                                old(self).api.store(),
                                parsed(request.message.task_id@)->0,
                                StoredTaskView {
                                    bytes: request.message.task_payload@,
                                    id: hex128(fresh),
                                },
                            )
                        }
                    &&& writes_view(r->Ok_0.writes@) == seq![
                        (
                            SnapshotKey::Tasks,
                            snapshot_bytes(final(self).api.store(), SnapshotKey::Tasks),
                        ),
                    ]
                },
            },
    {
        let fresh = random_bits();
        self.create_task_with(request, fresh)
    }
}

} // verus!
