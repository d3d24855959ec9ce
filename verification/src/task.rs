//! Stored tasks, the three task collections, and the template interface.

use vstd::prelude::*;
use std::sync::Arc;
use crate::{id_view, Identifier, IdView};
use crate::codec::{enc_list, enc_str, parse_list, parse_str};
use crate::id_map::{IdMap, Listing, touched};

verus! {

/// A task at rest: its server-minted id and its payload.
#[derive(Debug)]
pub struct StoredTask {
    pub bytes: Vec<u8>,
    pub id: String,
}

/// The mathematical value of a [`StoredTask`].
pub struct StoredTaskView {
    pub bytes: Seq<u8>,
    pub id: Seq<char>,
}

impl View for StoredTask {
    type V = StoredTaskView;

    open spec fn view(&self) -> StoredTaskView {
        StoredTaskView { bytes: self.bytes@, id: self.id@ }
    }
}

impl StoredTask {
    /// An equal task with storage of its own.
    pub fn duplicate(&self) -> (r: StoredTask)
        ensures
            r@ == self@,
    {
        StoredTask { bytes: self.bytes.clone(), id: self.id.clone() }
    }
}

impl Clone for StoredTask {
    fn clone(&self) -> (r: StoredTask)
        ensures
            r@ == self@,
    {
        self.duplicate()
    }
}

/// A task that a worker holds: the stored task, the worker's identity, and
/// the moment of the hand-over in seconds since the Unix epoch (UTC).
#[derive(Debug)]
pub struct StoredExecutingTask {
    pub bytes: Vec<u8>,
    pub id: String,
    pub user_id: String,
    pub given_at: i64,
}

/// The mathematical value of a [`StoredExecutingTask`].
pub struct StoredExecutingTaskView {
    pub bytes: Seq<u8>,
    pub id: Seq<char>,
    pub user_id: Seq<char>,
    pub given_at: i64,
}

impl View for StoredExecutingTask {
    type V = StoredExecutingTaskView;

    open spec fn view(&self) -> StoredExecutingTaskView {
        StoredExecutingTaskView {
            bytes: self.bytes@,
            id: self.id@,
            user_id: self.user_id@,
            given_at: self.given_at,
        }
    }
}

impl StoredExecutingTask {
    /// An equal task with storage of its own.
    pub fn duplicate(&self) -> (r: StoredExecutingTask)
        ensures
            r@ == self@,
    {
        StoredExecutingTask {
            bytes: self.bytes.clone(),
            id: self.id.clone(),
            user_id: self.user_id.clone(),
            given_at: self.given_at,
        }
    }

    /// The task without its assignment.
    pub fn stored(&self) -> (r: StoredTask)
        ensures
            r@ == self@.stored(),
    {
        StoredTask { bytes: self.bytes.clone(), id: self.id.clone() }
    }
}

impl StoredExecutingTaskView {
    /// The task without its assignment.
    pub open spec fn stored(self) -> StoredTaskView {
        StoredTaskView { bytes: self.bytes, id: self.id }
    }
}

impl Clone for StoredExecutingTask {
    fn clone(&self) -> (r: StoredExecutingTask)
        ensures
            r@ == self@,
    {
        self.duplicate()
    }
}

/// The tasks of one state, as a listing hands them out.
#[derive(Debug)]
pub enum TaskState {
    StoredTask(Vec<StoredTask>),
    StoredExecutingTask(Vec<StoredExecutingTask>),
}

/// The queued tasks of every task type, oldest first.
#[derive(Debug)]
pub struct TaskQueue {
    pub tasks: IdMap<Vec<StoredTask>>,
}

/// The solved tasks of every task type.
#[derive(Debug)]
pub struct SolvedTasks {
    pub tasks: IdMap<Vec<StoredTask>>,
}

/// The tasks of every task type that workers hold.
#[derive(Debug)]
pub struct ExecutingTaskQueue {
    pub tasks: IdMap<Vec<StoredExecutingTask>>,
}

impl TaskQueue {
    /// The queue of each task type, and the task types in the order in
    /// which they were first seen.
    pub open spec fn view(&self) -> Listing<StoredTaskView> {
        self.tasks.shown()
    }
}

impl Default for TaskQueue {
    fn default() -> (r: Self)
        ensures
            r@ == Listing::<StoredTaskView>::empty(),
    {
        let r = TaskQueue { tasks: IdMap::new() };
        assert(r@.lists =~= Listing::<StoredTaskView>::empty().lists);
        r
    }
}

impl SolvedTasks {
    /// The solved tasks of each task type.
    pub open spec fn view(&self) -> Listing<StoredTaskView> {
        self.tasks.shown()
    }
}

impl Default for SolvedTasks {
    fn default() -> (r: Self)
        ensures
            r@ == Listing::<StoredTaskView>::empty(),
    {
        let r = SolvedTasks { tasks: IdMap::new() };
        assert(r@.lists =~= Listing::<StoredTaskView>::empty().lists);
        r
    }
}

impl ExecutingTaskQueue {
    /// The tasks in progress of each task type.
    pub open spec fn view(&self) -> Listing<StoredExecutingTaskView> {
        self.tasks.shown()
    }
}

impl Default for ExecutingTaskQueue {
    fn default() -> (r: Self)
        ensures
            r@ == Listing::<StoredExecutingTaskView>::empty(),
    {
        let r = ExecutingTaskQueue { tasks: IdMap::new() };
        assert(r@.lists =~= Listing::<StoredExecutingTaskView>::empty().lists);
        r
    }
}

/// Which backend executes a task.
#[derive(Debug, Clone, Copy)]
pub enum Runner {
    HIP,
    CPU,
}

/// Decides whether a payload is an instance of a task type.
pub trait Verifiable {
    /// The payloads that this template takes for instances of its type.
    open spec fn accepts(&self, b: Seq<u8>) -> bool {
        arbitrary()
    }

    /// Whether this template takes `b` for an instance of its type.
    fn verify(&self, b: Vec<u8>) -> (r: bool)
        ensures
            r == self.accepts(b@),
    ;
}

/// A task template, and at the same time an instance of its task type.
pub trait Task: Verifiable + Sized {
    /// The identifier under which the type is known.
    open spec fn ident(&self) -> IdView {
        arbitrary()
    }

    /// The payload that encodes this instance.
    open spec fn encoding(&self) -> Seq<u8> {
        arbitrary()
    }

    /// The payload of this instance once executed.
    open spec fn executed(&self) -> Seq<u8> {
        arbitrary()
    }

    /// The configuration text of this instance.
    open spec fn config(&self) -> Seq<char> {
        arbitrary()
    }

    /// The payload of the instance that a configuration text describes, if
    /// it describes one.
    open spec fn described(&self, text: Seq<char>) -> Option<Seq<u8>> {
        arbitrary()
    }

    /// The identifier under which the type is known.
    fn get_id(&self) -> (r: Identifier)
        ensures
            id_view(r) == self.ident(),
    ;

    /// An equal instance with storage of its own.
    fn clone_box(&self) -> (r: Box<Self>)
        ensures
            r.encoding() == self.encoding(),
            r.ident() == self.ident(),
    ;

    /// Executes the task on the HIP backend. Where a type has no such
    /// implementation, the task runs on the CPU.
    fn run_hip(&mut self)
        ensures
            final(self).encoding() == old(self).executed(),
            final(self).ident() == old(self).ident(),
    {
        self.run_cpu();
    }

    /// Executes the task on the CPU.
    fn run_cpu(&mut self)
        ensures
            final(self).encoding() == old(self).executed(),
            final(self).ident() == old(self).ident(),
    ;

    /// Executes the task on the backend that `run` names, on the CPU where
    /// it names none.
    fn run(&mut self, run: Option<Runner>)
        ensures
            final(self).encoding() == old(self).executed(),
            final(self).ident() == old(self).ident(),
    {
        match run {
            Some(Runner::HIP) => self.run_hip(),
            Some(Runner::CPU) | None => self.run_cpu(),
        }
    }

    /// The payload that encodes this instance. The template accepts it.
    fn to_bytes(&self) -> (r: Vec<u8>)
        ensures
            r@ == self.encoding(),
            self.accepts(r@),
    ;

    /// The instance that a payload encodes. The payload must be one that the
    /// template accepts.
    fn from_bytes(&self, bytes: &[u8]) -> (r: Box<Self>)
        requires
            self.accepts(bytes@),
        ensures
            r.encoding() == bytes@,
            r.ident() == self.ident(),
    ;

    /// The instance that the configuration text `d` describes. Where the
    /// text describes none, the instance is this one.
    fn from_toml(&self, d: String) -> (r: Box<Self>)
        ensures
            r.ident() == self.ident(),
            r.encoding() == (match self.described(d@) {
                Some(payload) => payload,
                None => self.encoding(),
            }),
    ;

    /// The configuration text of this instance. It describes this instance.
    fn to_toml(&self) -> (r: String)
        ensures
            r@ == self.config(),
            self.described(r@) == Some(self.encoding()),
    ;
}

/// Decodes a payload that the template accepts, and encodes the instance
/// again: the payload comes back as it was.
pub fn reencode<T: Task>(template: &T, payload: &[u8]) -> (r: Vec<u8>)
    requires
        template.accepts(payload@),
    ensures
        r@ == payload@,
{
    template.from_bytes(payload).to_bytes()
}

/// The payload as the template's instance encodes it, where the template
/// accepts the payload: the payload itself.
pub fn round_trip<T: Task>(template: &T, payload: Vec<u8>) -> (r: Option<Vec<u8>>)
    ensures
        match r {
            Some(bytes) => template.accepts(payload@) && bytes@ == payload@,
            None => !template.accepts(payload@),
        },
{
    if template.verify(payload.clone()) {
        Some(reencode(template, payload.as_slice()))
    } else {
        None
    }
}

/// Writes an instance as configuration text and reads the text again: the
/// instance comes back with the payload that it had.
pub fn reconfigure<T: Task>(instance: &T) -> (r: Box<T>)
    ensures
        r.encoding() == instance.encoding(),
        r.ident() == instance.ident(),
{
    instance.from_toml(instance.to_toml())
}

/// The bytes that stand for an identifier: its two parts as texts.
pub open spec fn enc_name(id: IdView) -> Seq<u8> {
    enc_str(id.0) + enc_str(id.1)
}

/// Reads an identifier from the front of `b`.
pub open spec fn parse_name(b: Seq<u8>) -> Option<(IdView, int)> {
    match parse_str(b) {
        Some((namespace, k1)) => match parse_str(b.skip(k1)) {
            Some((name, k2)) => Some(((namespace, name), k1 + k2)),
            None => None,
        },
        None => None,
    }
}

/// The bytes that stand for a list of identifiers.
pub open spec fn enc_names(names: Seq<IdView>) -> Seq<u8> {
    enc_list(|id: IdView| enc_name(id), names)
}

/// The identifiers that `b` encodes: none where `b` encodes no list of
/// identifiers.
pub open spec fn parsed_names(b: Seq<u8>) -> Seq<IdView> {
    match parse_list(|x: Seq<u8>| parse_name(x), b) {
        Some((names, _)) => names,
        None => Seq::empty(),
    }
}

/// A registry of task templates that can tell which task types it knows.
pub trait TaskRegistry<T: Task>: Sized {
    /// The templates by identifier.
    spec fn templates(&self) -> Map<IdView, Arc<T>>;

    /// The identifiers in the order of their registration.
    spec fn names(&self) -> Seq<IdView>;

    /// Registers `task` under `identifier`. What was registered there before
    /// is replaced.
    fn register(&mut self, task: Arc<T>, identifier: Identifier)
        ensures
            final(self).templates() == old(self).templates().insert(id_view(identifier), task),
            final(self).names() == touched(old(self).names(), id_view(identifier)),
    ;

    /// The template of the task type `identifier` of the module `mod_id`.
    fn get(&self, mod_id: String, identifier: String) -> (r: Option<&T>)
        ensures
            match r {
                Some(t) => self.templates().contains_key((mod_id@, identifier@)) && *t
                    == *self.templates()[(mod_id@, identifier@)],
                None => !self.templates().contains_key((mod_id@, identifier@)),
            },
    ;

    /// The identifiers of the known task types as bytes.
    fn serialize(&self) -> (r: Vec<u8>)
        ensures
            r@ == enc_names(self.names()),
    ;

    /// The identifiers that `bytes` encode: none where they encode no list
    /// of identifiers.
    fn deserialize(bytes: &[u8]) -> (r: Vec<Identifier>)
        ensures
            r@.map_values(|id: Identifier| id_view(id)) == parsed_names(bytes@),
    ;
}

} // verus!
