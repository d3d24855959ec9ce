//! The messages of the service, and what comes with a request and a reply.

use vstd::prelude::*;
use crate::config::opt_view;
use crate::store::Lifecycle;

verus! {

/// The message without content.
#[derive(Debug)]
pub struct Empty {}

/// Asks for a task of the type with the wire identifier `task_id`.
#[derive(Debug)]
pub struct TaskRequest {
    pub task_id: String,
}

/// A task on the wire: its id, the wire identifier of its type, and its
/// payload. The field `payload` is reserved: it is accepted and never filled.
#[derive(Debug)]
pub struct Task {
    pub id: String,
    pub task_id: String,
    pub task_payload: Vec<u8>,
    pub payload: Vec<u8>,
}

/// Names one task: its type by namespace and name, its id, and the state
/// that it is in.
#[derive(Debug)]
pub struct TaskSelector {
    pub namespace: String,
    pub task: String,
    pub id: String,
    pub state: Lifecycle,
}

/// Asks for one page of the tasks of a type in a state.
#[derive(Debug)]
pub struct TaskPageRequest {
    pub namespace: String,
    pub task: String,
    pub state: Lifecycle,
    pub page: u64,
    pub page_size: u32,
}

/// One page of the tasks of a type in a state.
#[derive(Debug)]
pub struct TaskPage {
    pub namespace: String,
    pub task: String,
    pub page: u64,
    pub page_size: u32,
    pub state: Lifecycle,
    pub tasks: Vec<Task>,
}

/// A custom call, and the reply to one.
#[derive(Debug)]
pub struct Cgrpcmsg {
    pub handler_mod_id: String,
    pub handler_id: String,
    pub event_payload: Vec<u8>,
}

/// The wire identifiers of the registered task types.
#[derive(Debug)]
pub struct TaskRegistry {
    pub tasks: Vec<String>,
}

/// The mathematical value of a [`Task`].
pub struct TaskView {
    pub id: Seq<char>,
    pub task_id: Seq<char>,
    pub task_payload: Seq<u8>,
    pub payload: Seq<u8>,
}

impl View for Task {
    type V = TaskView;

    open spec fn view(&self) -> TaskView {
        TaskView {
            id: self.id@,
            task_id: self.task_id@,
            task_payload: self.task_payload@,
            payload: self.payload@,
        }
    }
}

/// A request: the two headers that the service reads, where the caller sent
/// them, and the message.
#[derive(Debug)]
pub struct Request<M> {
    pub authorization: Option<String>,
    pub uid: Option<String>,
    pub message: M,
}

impl<M> Request<M> {
    /// A request without headers.
    pub fn new(message: M) -> (r: Self)
        ensures
            r.authorization is None,
            r.uid is None,
            r.message == message,
    {
        Request { authorization: None, uid: None, message }
    }

    /// The message of the request.
    pub fn get_ref(&self) -> (r: &M)
        ensures
            *r == self.message,
    {
        &self.message
    }

    /// The credential that the caller presents: empty where there is none.
    pub open spec fn credential(&self) -> Seq<char> {
        header(opt_view(self.authorization))
    }

    /// The identity that the caller presents: empty where there is none.
    pub open spec fn caller(&self) -> Seq<char> {
        header(opt_view(self.uid))
    }
}

/// The value of a header: empty where the header is absent.
pub open spec fn header(value: Option<Seq<char>>) -> Seq<char> {
    match value {
        Some(v) => v,
        None => Seq::empty(),
    }
}

/// The identity that the caller presents: the header `uid`, empty where it
/// is absent.
pub fn get_uid<M>(req: &Request<M>) -> (r: String)
    ensures
        r@ == req.caller(),
{
    match &req.uid {
        Some(v) => v.clone(),
        None => String::new(),
    }
}

/// The credential that the caller presents: the header `authorization`,
/// empty where it is absent.
pub fn get_auth<M>(req: &Request<M>) -> (r: String)
    ensures
        r@ == req.credential(),
{
    match &req.authorization {
        Some(v) => v.clone(),
        None => String::new(),
    }
}

/// Why a request fails.
#[derive(Debug, Clone, Copy, PartialEq, Eq, Structural)]
pub enum Status {
    /// The handlers did not let the caller through.
    PermissionDenied,
    /// The identifier is malformed, the task type has no template, or the
    /// template does not accept the payload.
    InvalidArgument,
    /// No task is queued, no such task is held by the caller, or no such
    /// task is there to delete.
    NotFound,
    /// The durable store failed.
    Internal,
}

/// The three snapshots that the durable store holds.
#[derive(Debug, Clone, Copy, PartialEq, Eq, Structural)]
pub enum SnapshotKey {
    Tasks,
    ExecutingTasks,
    SolvedTasks,
}

impl SnapshotKey {
    /// The key under which the snapshot lies in the durable store.
    pub open spec fn name(self) -> Seq<char> {
        match self {
            SnapshotKey::Tasks => "tasks"@,
            SnapshotKey::ExecutingTasks => "executing_tasks"@,
            SnapshotKey::SolvedTasks => "solved_tasks"@,
        }
    }

    /// The key under which the snapshot lies in the durable store.
    pub fn as_str(&self) -> (r: &'static str)
        ensures
            r@ == self.name(),
    {
        match self {
            SnapshotKey::Tasks => "tasks",
            SnapshotKey::ExecutingTasks => "executing_tasks",
            SnapshotKey::SolvedTasks => "solved_tasks",
        }
    }
}

/// A snapshot to write to the durable store.
#[derive(Debug)]
pub struct SnapshotWrite {
    pub key: SnapshotKey,
    pub value: Vec<u8>,
}

impl View for SnapshotWrite {
    type V = (SnapshotKey, Seq<u8>);

    open spec fn view(&self) -> (SnapshotKey, Seq<u8>) {
        (self.key, self.value@)
    }
}

/// The values of a list of writes.
pub open spec fn writes_view(writes: Seq<SnapshotWrite>) -> Seq<(SnapshotKey, Seq<u8>)> {
    writes.map_values(|w: SnapshotWrite| w@)
}

/// What the service answers: the message for the caller, and the snapshots
/// to write, in this order, before the caller gets the message.
#[derive(Debug)]
pub struct Reply<M> {
    pub message: M,
    pub writes: Vec<SnapshotWrite>,
}

impl<M> Reply<M> {
    /// What the caller gets once the writes were tried: the message where
    /// all of them succeeded, the failure of the durable store where one did
    /// not.
    pub fn into_response(self, written: bool) -> (r: Result<M, Status>)
        ensures
            r == (if written {
                Ok::<M, Status>(self.message)
            } else {
                Err::<M, Status>(Status::Internal)
            }),
    {
        if written {
            Ok(self.message)
        } else {
            Err(Status::Internal)
        }
    }
}

} // verus!
