//! The engine's state: configuration, the three task collections, the
//! registry of task templates, the event bus and the table of modules.

use vstd::prelude::*;
use std::sync::Arc;
use crate::{id_view, Identifier, IdView, Registry};
use crate::codec::{
    enc_seq, lemma_enc_seq_push, parse_list, parse_seq, read_str, read_u64, write_str, write_u64,
};
use crate::config::Config;
use crate::event::{EventBus, EventHandler};
use crate::events::{CoreEvent, CoreHandler};
use crate::id_map::{IdMap, Listing, touched};
use crate::plugin::LibraryManager;
use crate::proto::{SnapshotKey, SnapshotWrite, writes_view};
use crate::snapshot::{
    decode_listing, decoded, encode_listing, lemma_snapshot_round_trip, listing_fits, Record,
    snapshot_of,
};
use crate::store::StoreView;
use crate::task::{
    enc_name, enc_names, ExecutingTaskQueue, parse_name, SolvedTasks, StoredExecutingTask,
    StoredTask, Task, TaskQueue, TaskRegistry,
};

verus! {

/// The task templates, one for each identifier.
#[derive(Debug)]
pub struct EngineTaskRegistry<T> {
    pub tasks: IdMap<Arc<T>>,
}

impl<T> EngineTaskRegistry<T> {
    /// The registry without templates.
    pub fn new() -> (r: Self)
        ensures
            r.tasks@ == Map::<IdView, Arc<T>>::empty(),
            r.tasks.keys() == Seq::<IdView>::empty(),
    {
        EngineTaskRegistry { tasks: IdMap::new() }
    }
}

impl<T> Default for EngineTaskRegistry<T> {
    fn default() -> (r: Self)
        ensures
            r.tasks@ == Map::<IdView, Arc<T>>::empty(),
            r.tasks.keys() == Seq::<IdView>::empty(),
    {
        EngineTaskRegistry::new()
    }
}

impl<T: Task> Registry<T> for EngineTaskRegistry<T> {
    open spec fn entries(&self) -> Map<IdView, Arc<T>> {
        self.tasks@
    }

    open spec fn same(a: T, b: T) -> bool {
        a.encoding() == b.encoding() && a.ident() == b.ident()
    }

    fn register(&mut self, task: Arc<T>, identifier: Identifier)
        ensures
            final(self).tasks.keys() == touched(old(self).tasks.keys(), id_view(identifier)),
    {
        self.tasks.insert(identifier, task);
    }

    fn get(&self, identifier: &Identifier) -> (r: Option<Box<T>>) {
        match self.tasks.get(identifier) {
            Some(task) => Some(task.clone_box()),
            None => None,
        }
    }
}

impl<T: Task> TaskRegistry<T> for EngineTaskRegistry<T> {
    open spec fn templates(&self) -> Map<IdView, Arc<T>> {
        self.tasks@
    }

    open spec fn names(&self) -> Seq<IdView> {
        self.tasks.keys()
    }

    fn register(&mut self, task: Arc<T>, identifier: Identifier) {
        self.tasks.insert(identifier, task);
    }

    fn get(&self, mod_id: String, identifier: String) -> (r: Option<&T>) {
        let key = (mod_id, identifier);
        match self.tasks.position(&key) {
            Some(i) => Some(self.tasks.value_at(i)),
            None => None,
        }
    }

    fn serialize(&self) -> (r: Vec<u8>) {
        let ghost f = |id: IdView| enc_name(id);
        let ghost names = self.tasks.keys();
        let mut out: Vec<u8> = Vec::new();
        let n = self.tasks.len();
        write_u64(&mut out, n as u64);
        let ghost head = out@;
        let mut i: usize = 0;
        while i < n
            invariant
                i <= n,
                n == names.len(),
                names == self.tasks.keys(),
                f == |id: IdView| enc_name(id),
                out@ == head + enc_seq(f, names.take(i as int)),
            decreases n - i,
        {
            let key = self.tasks.key_at(i);
            let ghost mid = out@;
            write_str(&mut out, key.0.as_str());
            write_str(&mut out, key.1.as_str());
            proof {
                assert(out@ =~= mid + enc_name(names[i as int]));
                lemma_enc_seq_push(f, names.take(i as int), names[i as int]);
                assert(names.take(i as int).push(names[i as int]) =~= names.take(i + 1));
                assert(out@ =~= head + enc_seq(f, names.take(i + 1)));
            }
            i += 1;
        }
        assert(names.take(i as int) =~= names);
        assert(out@ =~= enc_names(names));
        out
    }

    fn deserialize(bytes: &[u8]) -> (r: Vec<Identifier>) {
        let ghost p = |x: Seq<u8>| parse_name(x);
        let ghost as_view = |id: Identifier| id_view(id);
        let mut items: Vec<Identifier> = Vec::new();
        assert(bytes@.skip(0) =~= bytes@);
        let (n, start) = match read_u64(bytes, 0) {
            Some(x) => x,
            None => {
                assert(items@.map_values(as_view) =~= Seq::<IdView>::empty());
                return items;
            },
        };
        let mut at: usize = start;
        let mut i: u64 = 0;
        assert(items@.map_values(as_view) =~= Seq::<IdView>::empty());
        assert(parse_seq(p, bytes@.skip(start as int), n as nat) == (match parse_seq(
            p,
            bytes@.skip(at as int),
            (n - i) as nat,
        ) {
            Some((rest, m)) => Some((items@.map_values(as_view) + rest, (at - start) + m)),
            None => None,
        })) by {
            match parse_seq(p, bytes@.skip(at as int), (n - i) as nat) {
                Some((rest, m)) => {
                    assert(items@.map_values(as_view) + rest =~= rest);
                },
                None => {},
            }
        }
        while i < n
            invariant
                p == |x: Seq<u8>| parse_name(x),
                as_view == |id: Identifier| id_view(id),
                start == 8,
                start <= at <= bytes.len(),
                i <= n,
                parse_list(p, bytes@) == (match parse_seq(p, bytes@.skip(start as int), n as nat) {
                    Some((s, k)) => Some((s, 8 + k)),
                    None => None,
                }),
                parse_seq(p, bytes@.skip(start as int), n as nat) == (match parse_seq(
                    p,
                    bytes@.skip(at as int),
                    (n - i) as nat,
                ) {
                    Some((rest, m)) => Some((items@.map_values(as_view) + rest, (at - start) + m)),
                    None => None,
                }),
            decreases n - i,
        {
            let ghost before = items@.map_values(as_view);
            let (namespace, mid) = match read_str(bytes, at) {
                Some(x) => x,
                None => {
                    let none: Vec<Identifier> = Vec::new();
                    assert(none@.map_values(as_view) =~= Seq::<IdView>::empty());
                    return none;
                },
            };
            assert(bytes@.skip(at as int).skip(mid - at) =~= bytes@.skip(mid as int));
            let (name, next) = match read_str(bytes, mid) {
                Some(x) => x,
                None => {
                    let none: Vec<Identifier> = Vec::new();
                    assert(none@.map_values(as_view) =~= Seq::<IdView>::empty());
                    return none;
                },
            };
            let ghost e = (namespace@, name@);
            proof {
                assert(bytes@.skip(at as int).skip(next - at) =~= bytes@.skip(next as int));
                match parse_seq(p, bytes@.skip(next as int), (n - i - 1) as nat) {
                    Some((rest, m)) => {
                        assert(before.push(e) + rest =~= before + (seq![e] + rest));
                    },
                    None => {},
                }
            }
            items.push((namespace, name));
            assert(items@.map_values(as_view) =~= before.push(e));
            at = next;
            i += 1;
        }
        assert(items@.map_values(as_view) + Seq::<IdView>::empty() =~= items@.map_values(as_view));
        items
    }
}

/// The state of the engine. `T` is the type of the task templates, `X` the
/// type of the event handlers that modules bring.
#[derive(Debug)]
pub struct EngineAPI<T, X> {
    pub cfg: Config,
    pub task_queue: TaskQueue,
    pub executing_tasks: ExecutingTaskQueue,
    pub solved_tasks: SolvedTasks,
    pub task_registry: EngineTaskRegistry<T>,
    pub event_bus: EventBus<CoreEvent, CoreHandler<X>>,
    pub lib_manager: LibraryManager,
}

impl<T: Task, X: EventHandler<CoreEvent>> Default for EngineAPI<T, X> {
    fn default() -> (r: Self)
        ensures
            r.is_fresh(),
    {
        EngineAPI {
            cfg: Config::default(),
            task_queue: TaskQueue::default(),
            executing_tasks: ExecutingTaskQueue::default(),
            solved_tasks: SolvedTasks::default(),
            task_registry: EngineTaskRegistry::new(),
            event_bus: EventBus::new(),
            lib_manager: LibraryManager::default(),
        }
    }
}

/// The snapshot of the collection that lies under `key`.
pub open spec fn snapshot_bytes(s: StoreView, key: SnapshotKey) -> Seq<u8> {
    match key {
        SnapshotKey::Tasks => snapshot_of::<StoredTask>(s.queued),
        SnapshotKey::ExecutingTasks => snapshot_of::<StoredExecutingTask>(s.processing),
        SnapshotKey::SolvedTasks => snapshot_of::<StoredTask>(s.solved),
    }
}

/// Whether every length in the collection that lies under `key` can be
/// written as a `u64`.
pub open spec fn snapshot_fits(s: StoreView, key: SnapshotKey) -> bool {
    match key {
        SnapshotKey::Tasks => listing_fits::<StoredTask>(s.queued.entries()),
        SnapshotKey::ExecutingTasks => listing_fits::<StoredExecutingTask>(s.processing.entries()),
        SnapshotKey::SolvedTasks => listing_fits::<StoredTask>(s.solved.entries()),
    }
}

/// The collection that the stored bytes give: the one that they encode, and
/// the empty one where nothing is stored or what is stored encodes none.
pub open spec fn recovered<R: Record>(stored: Option<Seq<u8>>) -> Listing<R::V> {
    match stored {
        Some(bytes) => match decoded::<R>(bytes) {
            Some(c) => c,
            None => Listing::empty(),
        },
        None => Listing::empty(),
    }
}

/// Whether the stored bytes give a collection.
pub open spec fn readable<R: Record>(stored: Option<Seq<u8>>) -> bool {
    stored is Some && decoded::<R>(stored->0) is Some
}

/// The store that the three stored snapshots give.
pub open spec fn recovered_store(
    tasks: Option<Seq<u8>>,
    executing: Option<Seq<u8>>,
    solved: Option<Seq<u8>>,
) -> StoreView {
    StoreView {
        queued: recovered::<StoredTask>(tasks),
        processing: recovered::<StoredExecutingTask>(executing),
        solved: recovered::<StoredTask>(solved),
    }
}

/// The snapshots to write back after a recovery: an empty collection for
/// each key under which no collection could be read, in the order of the
/// keys.
pub open spec fn write_backs(
    tasks: Option<Seq<u8>>,
    executing: Option<Seq<u8>>,
    solved: Option<Seq<u8>>,
) -> Seq<(SnapshotKey, Seq<u8>)> {
    let a = if readable::<StoredTask>(tasks) {
        Seq::empty()
    } else {
        seq![(SnapshotKey::Tasks, snapshot_of::<StoredTask>(Listing::empty()))]
    };
    let b = if readable::<StoredExecutingTask>(executing) {
        Seq::empty()
    } else {
        seq![(SnapshotKey::ExecutingTasks, snapshot_of::<StoredExecutingTask>(Listing::empty()))]
    };
    let c = if readable::<StoredTask>(solved) {
        Seq::empty()
    } else {
        seq![(SnapshotKey::SolvedTasks, snapshot_of::<StoredTask>(Listing::empty()))]
    };
    a + b + c
}

/// The value of optional bytes.
pub open spec fn opt_bytes(stored: Option<Vec<u8>>) -> Option<Seq<u8>> {
    match stored {
        Some(b) => Some(b@),
        None => None,
    }
}

/// Reads a collection from what is stored under its key. Where nothing is
/// stored, or what is stored encodes no collection, the collection is empty.
pub fn recover<R: Record>(stored: &Option<Vec<u8>>) -> (r: (crate::id_map::IdMap<Vec<R>>, bool))
    ensures
        r.0.shown() == recovered::<R>(opt_bytes(*stored)),
        r.1 == readable::<R>(opt_bytes(*stored)),
{
    match stored {
        Some(bytes) => match decode_listing::<R>(bytes.as_slice()) {
            Some(m) => (m, true),
            None => {
                let m = IdMap::new();
                assert(m.shown().lists =~= Listing::<R::V>::empty().lists);
                (m, false)
            },
        },
        None => {
            let m = IdMap::new();
            assert(m.shown().lists =~= Listing::<R::V>::empty().lists);
            (m, false)
        },
    }
}

impl<T: Task, X: EventHandler<CoreEvent>> EngineAPI<T, X> {
    /// Whether this is the state of an engine that has not been set up:
    /// default configuration, no tasks, no templates, no handlers, no
    /// modules.
    pub open spec fn is_fresh(&self) -> bool {
        &&& self.cfg@ == crate::config::default_server()
        &&& self.store() == (StoreView {
            queued: Listing::empty(),
            processing: Listing::empty(),
            solved: Listing::empty(),
        })
        &&& self.task_registry.tasks@ == Map::<IdView, Arc<T>>::empty()
        &&& forall|id: IdView|
            self.event_bus.event_handler_registry.chain(id) == Seq::<CoreHandler<X>>::empty()
        &&& self.event_bus.event_registry.events@ == Map::<IdView, Arc<CoreEvent>>::empty()
        &&& self.lib_manager@ == Seq::<crate::plugin::LibraryMetadataView>::empty()
    }

    /// The state of an engine that has not been set up, for trying things
    /// out.
    pub fn test_default() -> (r: Self)
        ensures
            r.is_fresh(),
    {
        EngineAPI::default()
    }

    /// The snapshot of the collection that lies under `key`.
    pub fn snapshot(&self, key: SnapshotKey) -> (w: SnapshotWrite)
        ensures
            w@ == (key, snapshot_bytes(self.store(), key)),
            snapshot_fits(self.store(), key),
            self.store().queued.wf(),
            self.store().processing.wf(),
            self.store().solved.wf(),
    {
        self.task_queue.tasks.shape();
        self.executing_tasks.tasks.shape();
        self.solved_tasks.tasks.shape();
        proof {
            crate::snapshot::lemma_shown_wf(&self.task_queue.tasks);
            crate::snapshot::lemma_shown_wf(&self.executing_tasks.tasks);
            crate::snapshot::lemma_shown_wf(&self.solved_tasks.tasks);
        }
        let value = match key {
            SnapshotKey::Tasks => encode_listing(&self.task_queue.tasks),
            SnapshotKey::ExecutingTasks => encode_listing(&self.executing_tasks.tasks),
            SnapshotKey::SolvedTasks => encode_listing(&self.solved_tasks.tasks),
        };
        SnapshotWrite { key, value }
    }

    /// The snapshots of all three collections, in the order of the keys.
    /// From them the collections are read back as they are.
    pub fn sync_db(&self) -> (writes: Vec<SnapshotWrite>)
        ensures
            recovered_store(
                Some(snapshot_bytes(self.store(), SnapshotKey::Tasks)),
                Some(snapshot_bytes(self.store(), SnapshotKey::ExecutingTasks)),
                Some(snapshot_bytes(self.store(), SnapshotKey::SolvedTasks)),
            ) == self.store(),
            writes_view(writes@) == seq![
                (SnapshotKey::Tasks, snapshot_bytes(self.store(), SnapshotKey::Tasks)),
                (
                    SnapshotKey::ExecutingTasks,
                    snapshot_bytes(self.store(), SnapshotKey::ExecutingTasks),
                ),
                (SnapshotKey::SolvedTasks, snapshot_bytes(self.store(), SnapshotKey::SolvedTasks)),
            ],
    {
        let mut writes: Vec<SnapshotWrite> = Vec::new();
        writes.push(self.snapshot(SnapshotKey::Tasks));
        writes.push(self.snapshot(SnapshotKey::ExecutingTasks));
        writes.push(self.snapshot(SnapshotKey::SolvedTasks));
        proof {
            lemma_durable_equivalence(self.store());
        }
        assert(writes_view(writes@) =~= seq![
            (SnapshotKey::Tasks, snapshot_bytes(self.store(), SnapshotKey::Tasks)),
            (
                SnapshotKey::ExecutingTasks,
                snapshot_bytes(self.store(), SnapshotKey::ExecutingTasks),
            ),
            (SnapshotKey::SolvedTasks, snapshot_bytes(self.store(), SnapshotKey::SolvedTasks)),
        ]);
        writes
    }

    /// Sets the three collections to what the durable store holds: `tasks`,
    /// `executing` and `solved` are what lies under the three keys. Where
    /// nothing lies under a key, or what lies there encodes no collection,
    /// the collection becomes empty and its snapshot is to be written back.
    pub fn init_db(
        &mut self,
        tasks: Option<Vec<u8>>,
        executing: Option<Vec<u8>>,
        solved: Option<Vec<u8>>,
    ) -> (writes: Vec<SnapshotWrite>)
        ensures
            final(self).rest_unchanged(old(self)),
            final(self).store() == recovered_store(
                opt_bytes(tasks),
                opt_bytes(executing),
                opt_bytes(solved),
            ),
            writes_view(writes@) == write_backs(
                opt_bytes(tasks),
                opt_bytes(executing),
                opt_bytes(solved),
            ),
    {
        let mut writes: Vec<SnapshotWrite> = Vec::new();
        let (queue, queue_read) = recover::<StoredTask>(&tasks);
        self.task_queue = TaskQueue { tasks: queue };
        if !queue_read {
            writes.push(self.snapshot(SnapshotKey::Tasks));
        }
        let ghost first = writes_view(writes@);
        let (held, held_read) = recover::<StoredExecutingTask>(&executing);
        self.executing_tasks = ExecutingTaskQueue { tasks: held };
        if !held_read {
            writes.push(self.snapshot(SnapshotKey::ExecutingTasks));
        }
        let ghost second = writes_view(writes@);
        let (done, done_read) = recover::<StoredTask>(&solved);
        self.solved_tasks = SolvedTasks { tasks: done };
        if !done_read {
            writes.push(self.snapshot(SnapshotKey::SolvedTasks));
        }
        assert(writes_view(writes@) =~= write_backs(
            opt_bytes(tasks),
            opt_bytes(executing),
            opt_bytes(solved),
        ));
        writes
    }
}

/// A store is read back from its three snapshots as it was, and nothing is
/// to be written back: what the engine holds after a restart is what it
/// held when the snapshots were taken.
pub proof fn lemma_durable_equivalence(s: StoreView)
    requires
        s.queued.wf(),
        s.processing.wf(),
        s.solved.wf(),
        listing_fits::<StoredTask>(s.queued.entries()),
        listing_fits::<StoredExecutingTask>(s.processing.entries()),
        listing_fits::<StoredTask>(s.solved.entries()),
    ensures
        recovered_store(
            Some(snapshot_bytes(s, SnapshotKey::Tasks)),
            Some(snapshot_bytes(s, SnapshotKey::ExecutingTasks)),
            Some(snapshot_bytes(s, SnapshotKey::SolvedTasks)),
        ) == s,
        write_backs(
            Some(snapshot_bytes(s, SnapshotKey::Tasks)),
            Some(snapshot_bytes(s, SnapshotKey::ExecutingTasks)),
            Some(snapshot_bytes(s, SnapshotKey::SolvedTasks)),
        ) == Seq::<(SnapshotKey, Seq<u8>)>::empty(),
{
    let none = Seq::<u8>::empty();
    lemma_snapshot_round_trip::<StoredTask>(s.queued, none);
    lemma_snapshot_round_trip::<StoredExecutingTask>(s.processing, none);
    lemma_snapshot_round_trip::<StoredTask>(s.solved, none);
    assert(snapshot_of::<StoredTask>(s.queued) + none =~= snapshot_of::<StoredTask>(s.queued));
    assert(snapshot_of::<StoredExecutingTask>(s.processing) + none =~= snapshot_of::<
        StoredExecutingTask,
    >(s.processing));
    assert(snapshot_of::<StoredTask>(s.solved) + none =~= snapshot_of::<StoredTask>(s.solved));
    assert(write_backs(
        Some(snapshot_bytes(s, SnapshotKey::Tasks)),
        Some(snapshot_bytes(s, SnapshotKey::ExecutingTasks)),
        Some(snapshot_bytes(s, SnapshotKey::SolvedTasks)),
    ) =~= Seq::<(SnapshotKey, Seq<u8>)>::empty());
}

} // verus!
