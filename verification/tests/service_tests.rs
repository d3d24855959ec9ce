use enginelib::api::EngineAPI;
use enginelib::engine_core::{run, FibTask};
use enginelib::event::EventHandler;
use enginelib::events::{CoreEvent, CoreHandler, Events, ID};
use enginelib::proto::{
    Cgrpcmsg, Empty, Reply, Request, SnapshotKey, SnapshotWrite, Status, Task, TaskPageRequest,
    TaskRequest, TaskSelector,
};
use enginelib::reclaim::{reclaim_cycle, reclaim_cycle_now};
use enginelib::service::EngineService;
use enginelib::store::Lifecycle;
use enginelib::task::Task as Template;
use enginelib::Registry;
use std::collections::HashMap;
use std::sync::Arc;

/// A stand-in for the durable store.
struct Kv {
    map: HashMap<String, Vec<u8>>,
}

impl Kv {
    fn new() -> Self {
        Kv { map: HashMap::new() }
    }
    fn apply(&mut self, writes: Vec<SnapshotWrite>) {
        for w in writes {
            self.map.insert(w.key.as_str().to_string(), w.value);
        }
    }
    fn get(&self, key: &str) -> Option<Vec<u8>> {
        self.map.get(key).cloned()
    }
}

fn fib_payload(iter: u64, result: u64) -> Vec<u8> {
    let mut bytes = Vec::new();
    bytes.extend_from_slice(&iter.to_le_bytes());
    bytes.extend_from_slice(&result.to_le_bytes());
    bytes
}

fn engine<X: EventHandler<CoreEvent>>(token: Option<&str>) -> EngineService<FibTask, X> {
    let mut api: EngineAPI<FibTask, X> = EngineAPI::default();
    api.cfg.config_toml.cgrpc_token = token.map(|t| t.to_string());
    run(&mut api);
    api.task_registry.register(Arc::new(FibTask::default()), ID("ns", "fib"));
    Events::init_auth(&mut api);
    Events::init(&mut api);
    EngineService { api }
}

fn request<M>(authorization: Option<&str>, uid: Option<&str>, message: M) -> Request<M> {
    Request {
        authorization: authorization.map(|s| s.to_string()),
        uid: uid.map(|s| s.to_string()),
        message,
    }
}

fn create(service: &mut EngineService<FibTask, ()>, kv: &mut Kv, fresh: u128) -> Task {
    let req = request(
        None,
        Some("maker"),
        Task {
            id: String::new(),
            task_id: "ns:fib".to_string(),
            task_payload: fib_payload(10, 0),
            payload: Vec::new(),
        },
    );
    let Reply { message, writes } = service.create_task_with(&req, fresh).unwrap();
    kv.apply(writes);
    message
}

fn page(
    service: &EngineService<FibTask, ()>,
    state: Lifecycle,
    page: u64,
    page_size: u32,
) -> Vec<Task> {
    let req = request(
        None,
        None,
        TaskPageRequest {
            namespace: "ns".to_string(),
            task: "fib".to_string(),
            state,
            page,
            page_size,
        },
    );
    service.get_tasks(&req).unwrap().tasks
}

#[test]
fn acquire_publish_round_trip() {
    let mut service: EngineService<FibTask, ()> = engine(None);
    let mut kv = Kv::new();
    let created = create(&mut service, &mut kv, 7);
    assert_eq!(created.id, "00000000000000000000000000000007");
    assert_eq!(created.task_id, "ns:fib");
    assert_eq!(created.task_payload, fib_payload(10, 0));
    assert!(created.payload.is_empty());

    let acquire = request(None, Some("w1"), TaskRequest { task_id: "ns:fib".to_string() });
    let Reply { message: got, writes } = service.aquire_task_at(&acquire, 1_000).unwrap();
    assert_eq!(writes.len(), 2);
    assert_eq!(writes[0].key, SnapshotKey::Tasks);
    assert_eq!(writes[1].key, SnapshotKey::ExecutingTasks);
    kv.apply(writes);
    assert!(!got.id.is_empty());
    assert_eq!(got.id, created.id);
    assert_eq!(got.task_id, "ns:fib");
    assert_eq!(got.task_payload, fib_payload(10, 0));
    assert!(got.payload.is_empty());

    let publish = request(
        None,
        Some("w1"),
        Task {
            id: got.id.clone(),
            task_id: "ns:fib".to_string(),
            task_payload: fib_payload(10, 0),
            payload: Vec::new(),
        },
    );
    let Reply { writes, .. } = service.publish_task(&publish).unwrap();
    assert_eq!(writes.len(), 2);
    assert_eq!(writes[0].key, SnapshotKey::ExecutingTasks);
    assert_eq!(writes[1].key, SnapshotKey::SolvedTasks);
    kv.apply(writes);

    let solved = page(&service, Lifecycle::Solved, 0, 100);
    assert_eq!(solved.len(), 1);
    assert_eq!(solved[0].id, got.id);
    assert_eq!(solved[0].task_id, "ns:fib");
    assert!(page(&service, Lifecycle::Processing, 0, 100).is_empty());
    assert!(page(&service, Lifecycle::Queued, 0, 100).is_empty());
}

#[test]
fn publish_stores_the_new_payload() {
    let mut service: EngineService<FibTask, ()> = engine(None);
    let mut kv = Kv::new();
    let created = create(&mut service, &mut kv, 1);
    let acquire = request(None, Some("w1"), TaskRequest { task_id: "ns:fib".to_string() });
    service.aquire_task_at(&acquire, 5).unwrap();
    let publish = request(
        None,
        Some("w1"),
        Task {
            id: created.id.clone(),
            task_id: "ns:fib".to_string(),
            task_payload: fib_payload(10, 55),
            payload: Vec::new(),
        },
    );
    service.publish_task(&publish).unwrap();
    let solved = page(&service, Lifecycle::Solved, 0, 10);
    assert_eq!(solved.len(), 1);
    assert_eq!(solved[0].task_payload, fib_payload(10, 55));
}

#[test]
fn reclaim_moves_a_stalled_task_back() {
    let mut service: EngineService<FibTask, ()> = engine(None);
    let mut kv = Kv::new();
    kv.apply(service.api.init_db(None, None, None));
    let created = create(&mut service, &mut kv, 99);
    let acquire = request(None, Some("w1"), TaskRequest { task_id: "ns:fib".to_string() });
    let Reply { writes, .. } = service.aquire_task_at(&acquire, 1_000).unwrap();
    kv.apply(writes);
    let threshold = service.api.cfg.config_toml.reclaim_threshold_seconds;
    assert_eq!(threshold, 3600);

    // Exactly at the threshold nothing is reclaimed.
    let writes =
        reclaim_cycle(&kv.get("executing_tasks"), &kv.get("tasks"), 1_000 + 3600, threshold);
    assert_eq!(writes.len(), 1);
    assert_eq!(writes[0].key, SnapshotKey::ExecutingTasks);
    assert_eq!(Some(writes[0].value.clone()), kv.get("executing_tasks"));

    // One second later the task goes back.
    let writes =
        reclaim_cycle(&kv.get("executing_tasks"), &kv.get("tasks"), 1_000 + 3600 + 1, threshold);
    assert_eq!(writes.len(), 2);
    assert_eq!(writes[0].key, SnapshotKey::ExecutingTasks);
    assert_eq!(writes[1].key, SnapshotKey::Tasks);
    kv.apply(writes);
    let back = service.api.init_db(kv.get("tasks"), kv.get("executing_tasks"), kv.get("solved_tasks"));
    assert!(back.is_empty());

    let queued = page(&service, Lifecycle::Queued, 0, 10);
    assert_eq!(queued.len(), 1);
    assert_eq!(queued[0].id, created.id);
    assert_eq!(queued[0].task_payload, fib_payload(10, 0));
    assert!(page(&service, Lifecycle::Processing, 0, 10).is_empty());
}

#[test]
fn reclaim_skips_the_cycle_where_the_tasks_in_progress_cannot_be_read() {
    assert!(reclaim_cycle(&None, &None, 10, 1).is_empty());
    assert!(reclaim_cycle(&Some(vec![1, 2, 3]), &None, 10, 1).is_empty());
    assert!(reclaim_cycle_now(&None, &None, 1).is_empty());
}

#[test]
fn reclaim_by_the_clock_moves_what_is_long_overdue() {
    let mut service: EngineService<FibTask, ()> = engine(None);
    let mut kv = Kv::new();
    kv.apply(service.api.init_db(None, None, None));
    let created = create(&mut service, &mut kv, 3);
    let acquire = request(None, Some("w1"), TaskRequest { task_id: "ns:fib".to_string() });
    // Held since the year 1970.
    let Reply { writes, .. } = service.aquire_task_at(&acquire, 0).unwrap();
    kv.apply(writes);
    let writes = reclaim_cycle_now(&kv.get("executing_tasks"), &kv.get("tasks"), 3600);
    assert_eq!(writes.len(), 2);
    kv.apply(writes);
    service.api.init_db(kv.get("tasks"), kv.get("executing_tasks"), kv.get("solved_tasks"));
    let queued = page(&service, Lifecycle::Queued, 0, 10);
    assert_eq!(queued.len(), 1);
    assert_eq!(queued[0].id, created.id);
}

#[test]
fn acquire_stamps_the_task_with_the_time_of_the_clock() {
    let mut service: EngineService<FibTask, ()> = engine(None);
    let mut kv = Kv::new();
    create(&mut service, &mut kv, 3);
    let before = std::time::SystemTime::now()
        .duration_since(std::time::UNIX_EPOCH)
        .unwrap()
        .as_secs() as i64;
    let acquire = request(None, Some("w1"), TaskRequest { task_id: "ns:fib".to_string() });
    service.aquire_task(&acquire).unwrap();
    let after = std::time::SystemTime::now()
        .duration_since(std::time::UNIX_EPOCH)
        .unwrap()
        .as_secs() as i64;
    let held = service.api.executing_tasks.tasks.get(&ID("ns", "fib")).unwrap();
    assert_eq!(held.len(), 1);
    assert_eq!(held[0].user_id, "w1");
    assert!(before <= held[0].given_at && held[0].given_at <= after);
}

#[test]
fn id_format_errors() {
    let mut service: EngineService<FibTask, ()> = engine(None);
    for bad in ["onlyonepart", "a:b:c", ":fib", "ns:", ":", ""] {
        let acquire = request(None, Some("w1"), TaskRequest { task_id: bad.to_string() });
        assert_eq!(service.aquire_task_at(&acquire, 0).unwrap_err(), Status::InvalidArgument);
        let task = Task {
            id: "x".to_string(),
            task_id: bad.to_string(),
            task_payload: fib_payload(1, 1),
            payload: Vec::new(),
        };
        let req = request(None, Some("w1"), task);
        assert_eq!(service.publish_task(&req).unwrap_err(), Status::InvalidArgument);
        assert_eq!(service.create_task_with(&req, 1).unwrap_err(), Status::InvalidArgument);
    }
}

#[test]
fn unknown_task_types_are_invalid_arguments() {
    let mut service: EngineService<FibTask, ()> = engine(None);
    let acquire = request(None, Some("w1"), TaskRequest { task_id: "ns:nothing".to_string() });
    assert_eq!(service.aquire_task_at(&acquire, 0).unwrap_err(), Status::InvalidArgument);
    let task = Task {
        id: "x".to_string(),
        task_id: "ns:nothing".to_string(),
        task_payload: fib_payload(1, 1),
        payload: Vec::new(),
    };
    let req = request(None, Some("w1"), task);
    assert_eq!(service.publish_task(&req).unwrap_err(), Status::InvalidArgument);
    assert_eq!(service.create_task_with(&req, 1).unwrap_err(), Status::InvalidArgument);
}

#[test]
fn an_empty_queue_is_not_found() {
    let mut service: EngineService<FibTask, ()> = engine(None);
    let acquire = request(None, Some("w1"), TaskRequest { task_id: "ns:fib".to_string() });
    assert_eq!(service.aquire_task_at(&acquire, 0).unwrap_err(), Status::NotFound);
    assert_eq!(service.aquire_task(&acquire).unwrap_err(), Status::NotFound);
}

#[test]
fn a_payload_that_the_template_rejects_is_an_invalid_argument() {
    let mut service: EngineService<FibTask, ()> = engine(None);
    let mut kv = Kv::new();
    let task = Task {
        id: String::new(),
        task_id: "ns:fib".to_string(),
        task_payload: vec![1, 2, 3],
        payload: Vec::new(),
    };
    let req = request(None, Some("w1"), task);
    assert_eq!(service.create_task_with(&req, 1).unwrap_err(), Status::InvalidArgument);
    assert!(page(&service, Lifecycle::Queued, 0, 10).is_empty());

    let created = create(&mut service, &mut kv, 2);
    let acquire = request(None, Some("w1"), TaskRequest { task_id: "ns:fib".to_string() });
    service.aquire_task_at(&acquire, 0).unwrap();
    let publish = request(
        None,
        Some("w1"),
        Task {
            id: created.id.clone(),
            task_id: "ns:fib".to_string(),
            task_payload: vec![0; 17],
            payload: Vec::new(),
        },
    );
    assert_eq!(service.publish_task(&publish).unwrap_err(), Status::InvalidArgument);
    assert_eq!(page(&service, Lifecycle::Processing, 0, 10).len(), 1);
    assert!(page(&service, Lifecycle::Solved, 0, 10).is_empty());
}

#[test]
fn publish_needs_the_worker_that_holds_the_task() {
    let mut service: EngineService<FibTask, ()> = engine(None);
    let mut kv = Kv::new();
    let created = create(&mut service, &mut kv, 2);
    let acquire = request(None, Some("w1"), TaskRequest { task_id: "ns:fib".to_string() });
    service.aquire_task_at(&acquire, 0).unwrap();
    let by = |uid: Option<&str>, id: &str| {
        request(
            None,
            uid,
            Task {
                id: id.to_string(),
                task_id: "ns:fib".to_string(),
                task_payload: fib_payload(10, 55),
                payload: Vec::new(),
            },
        )
    };
    assert_eq!(service.publish_task(&by(Some("w2"), &created.id)).unwrap_err(), Status::NotFound);
    assert_eq!(service.publish_task(&by(None, &created.id)).unwrap_err(), Status::NotFound);
    assert_eq!(service.publish_task(&by(Some("w1"), "other")).unwrap_err(), Status::NotFound);
    assert!(service.publish_task(&by(Some("w1"), &created.id)).is_ok());
    // Once published, the task is no longer held.
    assert_eq!(service.publish_task(&by(Some("w1"), &created.id)).unwrap_err(), Status::NotFound);
}

#[test]
fn admin_token() {
    let mut service: EngineService<FibTask, ()> = engine(Some("secret"));
    let mut kv = Kv::new();
    let created = create(&mut service, &mut kv, 5);
    let selector = |auth: Option<&str>| {
        request(
            auth,
            None,
            TaskSelector {
                namespace: "ns".to_string(),
                task: "fib".to_string(),
                id: created.id.clone(),
                state: Lifecycle::Queued,
            },
        )
    };
    assert_eq!(
        service.delete_task(&selector(Some("wrong"))).unwrap_err(),
        Status::PermissionDenied
    );
    assert_eq!(service.delete_task(&selector(None)).unwrap_err(), Status::PermissionDenied);
    assert_eq!(service.api.task_queue.tasks.get(&ID("ns", "fib")).unwrap().len(), 1);

    let Reply { writes, .. } = service.delete_task(&selector(Some("secret"))).unwrap();
    assert_eq!(writes.len(), 3);
    assert_eq!(writes[0].key, SnapshotKey::Tasks);
    assert_eq!(writes[1].key, SnapshotKey::ExecutingTasks);
    assert_eq!(writes[2].key, SnapshotKey::SolvedTasks);
    assert!(service.api.task_queue.tasks.get(&ID("ns", "fib")).unwrap().is_empty());

    // The task is gone: deleting it again finds nothing.
    assert_eq!(service.delete_task(&selector(Some("secret"))).unwrap_err(), Status::NotFound);

    assert_eq!(
        service.check_auth(&request(Some("wrong"), None, Empty {})).unwrap_err(),
        Status::PermissionDenied
    );
    assert!(service.check_auth(&request(Some("secret"), None, Empty {})).is_ok());
}

#[test]
fn without_a_token_every_administrator_is_let_through() {
    let service: EngineService<FibTask, ()> = engine(None);
    assert!(service.check_auth(&request(None, None, Empty {})).is_ok());
    assert!(service.check_auth(&request(Some("anything"), None, Empty {})).is_ok());
}

#[test]
fn delete_reaches_each_collection() {
    let mut service: EngineService<FibTask, ()> = engine(None);
    let mut kv = Kv::new();
    let a = create(&mut service, &mut kv, 1);
    let b = create(&mut service, &mut kv, 2);
    let c = create(&mut service, &mut kv, 3);
    let acquire = request(None, Some("w1"), TaskRequest { task_id: "ns:fib".to_string() });
    service.aquire_task_at(&acquire, 0).unwrap();
    service.aquire_task_at(&acquire, 0).unwrap();
    let publish = request(
        None,
        Some("w1"),
        Task {
            id: a.id.clone(),
            task_id: "ns:fib".to_string(),
            task_payload: fib_payload(10, 55),
            payload: Vec::new(),
        },
    );
    service.publish_task(&publish).unwrap();
    // a is solved, b is in progress, c is queued.
    let selector = |id: &str, state: Lifecycle| {
        request(
            None,
            None,
            TaskSelector {
                namespace: "ns".to_string(),
                task: "fib".to_string(),
                id: id.to_string(),
                state,
            },
        )
    };
    assert_eq!(
        service.delete_task(&selector(&a.id, Lifecycle::Queued)).unwrap_err(),
        Status::NotFound
    );
    assert_eq!(
        service.delete_task(&selector(&b.id, Lifecycle::Solved)).unwrap_err(),
        Status::NotFound
    );
    assert_eq!(
        service.delete_task(&selector(&c.id, Lifecycle::Processing)).unwrap_err(),
        Status::NotFound
    );
    assert!(service.delete_task(&selector(&a.id, Lifecycle::Solved)).is_ok());
    assert!(service.delete_task(&selector(&b.id, Lifecycle::Processing)).is_ok());
    assert!(service.delete_task(&selector(&c.id, Lifecycle::Queued)).is_ok());
    assert!(page(&service, Lifecycle::Queued, 0, 10).is_empty());
    assert!(page(&service, Lifecycle::Processing, 0, 10).is_empty());
    assert!(page(&service, Lifecycle::Solved, 0, 10).is_empty());
    // A type that was never seen has nothing to delete.
    let unknown = request(
        None,
        None,
        TaskSelector {
            namespace: "no".to_string(),
            task: "thing".to_string(),
            id: "x".to_string(),
            state: Lifecycle::Queued,
        },
    );
    assert_eq!(service.delete_task(&unknown).unwrap_err(), Status::NotFound);
}

#[test]
fn crash_recovery() {
    let mut service: EngineService<FibTask, ()> = engine(None);
    let mut kv = Kv::new();
    let first = service.api.init_db(None, None, None);
    assert_eq!(first.len(), 3);
    kv.apply(first);
    let a = create(&mut service, &mut kv, 0xa);
    let b = create(&mut service, &mut kv, 0xb);
    let acquire = request(None, Some("w1"), TaskRequest { task_id: "ns:fib".to_string() });
    let Reply { message: held, writes } = service.aquire_task_at(&acquire, 77).unwrap();
    kv.apply(writes);
    assert_eq!(held.id, a.id);
    drop(service);

    // A new process starts from what the durable store holds.
    let mut again: EngineService<FibTask, ()> = engine(None);
    let back = again.api.init_db(kv.get("tasks"), kv.get("executing_tasks"), kv.get("solved_tasks"));
    assert!(back.is_empty());
    let types = again.aquire_task_reg(&request(None, None, Empty {})).unwrap().tasks;
    assert!(types.contains(&"ns:fib".to_string()));
    let queued = page(&again, Lifecycle::Queued, 0, 10);
    assert_eq!(queued.len(), 1);
    assert_eq!(queued[0].id, b.id);
    let processing = page(&again, Lifecycle::Processing, 0, 10);
    assert_eq!(processing.len(), 1);
    assert_eq!(processing[0].id, a.id);
    let entry = &again.api.executing_tasks.tasks.get(&ID("ns", "fib")).unwrap()[0];
    assert_eq!(entry.user_id, "w1");
    assert_eq!(entry.given_at, 77);
}

#[test]
fn recovery_from_nothing_or_from_garbage_gives_empty_collections() {
    let mut service: EngineService<FibTask, ()> = engine(None);
    let mut kv = Kv::new();
    create(&mut service, &mut kv, 1);
    let writes = service.api.init_db(Some(vec![9, 9, 9]), None, kv.get("tasks"));
    // The queue was garbage, the tasks in progress were missing: both are written back empty.
    assert_eq!(writes.len(), 2);
    assert_eq!(writes[0].key, SnapshotKey::Tasks);
    assert_eq!(writes[0].value, vec![0u8; 8]);
    assert_eq!(writes[1].key, SnapshotKey::ExecutingTasks);
    assert_eq!(writes[1].value, vec![0u8; 8]);
    assert!(page(&service, Lifecycle::Queued, 0, 10).is_empty());
    assert!(page(&service, Lifecycle::Processing, 0, 10).is_empty());
    // What lay under the key of the queue was given as the solved tasks, and is read as such.
    assert_eq!(page(&service, Lifecycle::Solved, 0, 10).len(), 1);
}

#[test]
fn pagination() {
    let mut service: EngineService<FibTask, ()> = engine(None);
    let mut kv = Kv::new();
    // The ids are minted in an order that is not the order of the ids.
    for i in 0..25u128 {
        create(&mut service, &mut kv, (i * 7919) % 25 + (1 << 100));
    }
    let first = page(&service, Lifecycle::Queued, 0, 10);
    let second = page(&service, Lifecycle::Queued, 1, 10);
    let third = page(&service, Lifecycle::Queued, 2, 10);
    let fourth = page(&service, Lifecycle::Queued, 3, 10);
    assert_eq!(first.len(), 10);
    assert_eq!(second.len(), 10);
    assert_eq!(third.len(), 5);
    assert!(fourth.is_empty());
    let all: Vec<String> =
        first.iter().chain(second.iter()).chain(third.iter()).map(|t| t.id.clone()).collect();
    let mut sorted = all.clone();
    sorted.sort();
    sorted.dedup();
    assert_eq!(sorted.len(), 25);
    assert_eq!(all, sorted);
    let expected: Vec<String> = (0..25u128).map(|i| format!("{:032x}", i + (1 << 100))).collect();
    assert_eq!(all, expected);
    // A page far behind the end is empty, even where the product overflows 64 bits.
    assert!(page(&service, Lifecycle::Queued, u64::MAX, u32::MAX).is_empty());
    assert!(page(&service, Lifecycle::Queued, 0, 0).is_empty());
    assert_eq!(page(&service, Lifecycle::Queued, 0, u32::MAX).len(), 25);
}

#[test]
fn the_configured_limit_cuts_the_pages() {
    let mut service: EngineService<FibTask, ()> = engine(None);
    let mut kv = Kv::new();
    for i in 0..25u128 {
        create(&mut service, &mut kv, i);
    }
    service.api.cfg.config_toml.pagination_limit = 4;
    let second = page(&service, Lifecycle::Queued, 1, 10);
    assert_eq!(second.len(), 4);
    assert_eq!(second[0].id, format!("{:032x}", 10));
    assert_eq!(second[3].id, format!("{:032x}", 13));
    assert_eq!(page(&service, Lifecycle::Queued, 2, 10).len(), 4);
    assert_eq!(page(&service, Lifecycle::Queued, 8, 3).len(), 1);
}

#[test]
fn list_task_types() {
    let service: EngineService<FibTask, ()> = engine(None);
    let types = service.aquire_task_reg(&request(None, None, Empty {})).unwrap().tasks;
    assert_eq!(types, vec!["engine_core:fib".to_string(), "ns:fib".to_string()]);
}

#[test]
fn minted_ids_are_numerals_of_random_bits() {
    let mut service: EngineService<FibTask, ()> = engine(None);
    let req = request(
        None,
        Some("maker"),
        Task {
            id: "ignored".to_string(),
            task_id: "ns:fib".to_string(),
            task_payload: fib_payload(1, 0),
            payload: vec![1, 2, 3],
        },
    );
    let mut seen = Vec::new();
    for _ in 0..20 {
        let Reply { message, writes } = service.create_task(&req).unwrap();
        assert_eq!(writes.len(), 1);
        assert_eq!(writes[0].key, SnapshotKey::Tasks);
        assert_eq!(message.id.len(), 32);
        assert!(message.id.chars().all(|c| c.is_ascii_digit() || ('a'..='f').contains(&c)));
        assert_eq!(message.task_id, "ns:fib");
        assert_eq!(message.task_payload, fib_payload(1, 0));
        assert!(message.payload.is_empty());
        assert!(!seen.contains(&message.id));
        seen.push(message.id);
    }
    let queued: Vec<String> = service
        .api
        .task_queue
        .tasks
        .get(&ID("ns", "fib"))
        .unwrap()
        .iter()
        .map(|t| t.id.clone())
        .collect();
    assert_eq!(queued, seen);
    let bad = request(None, None, Task {
        id: String::new(),
        task_id: "nocolon".to_string(),
        task_payload: fib_payload(1, 0),
        payload: Vec::new(),
    });
    assert_eq!(service.create_task(&bad).unwrap_err(), Status::InvalidArgument);
}

#[test]
fn first_in_first_out() {
    let mut service: EngineService<FibTask, ()> = engine(None);
    let mut kv = Kv::new();
    let ids: Vec<String> =
        [30u128, 10, 20].iter().map(|f| create(&mut service, &mut kv, *f).id).collect();
    let acquire = request(None, Some("w1"), TaskRequest { task_id: "ns:fib".to_string() });
    for id in &ids {
        let got = service.aquire_task_at(&acquire, 0).unwrap().message;
        assert_eq!(&got.id, id);
    }
    assert_eq!(service.aquire_task_at(&acquire, 0).unwrap_err(), Status::NotFound);
}

/// A handler that a module might bring: it lets nobody through.
struct Deny;

impl EventHandler<CoreEvent> for Deny {
    fn handle(&self, event: &mut CoreEvent) {
        match event {
            CoreEvent::Auth(e) => e.output = false,
            CoreEvent::AdminAuth(e) => e.output = false,
            _ => {}
        }
    }
}

#[test]
fn every_operation_is_denied_where_the_handlers_say_no() {
    let mut service: EngineService<FibTask, Deny> = engine(None);
    service
        .api
        .event_bus
        .event_handler_registry
        .register_handler(CoreHandler::Module(Deny), ID("core", "auth_event"));
    service
        .api
        .event_bus
        .event_handler_registry
        .register_handler(CoreHandler::Module(Deny), ID("core", "admin_auth_event"));
    let task = || Task {
        id: "x".to_string(),
        task_id: "ns:fib".to_string(),
        task_payload: fib_payload(1, 1),
        payload: Vec::new(),
    };
    let denied = Status::PermissionDenied;
    assert_eq!(service.check_auth(&request(None, None, Empty {})).unwrap_err(), denied);
    assert_eq!(service.aquire_task_reg(&request(None, None, Empty {})).unwrap_err(), denied);
    assert_eq!(
        service
            .aquire_task_at(&request(None, None, TaskRequest { task_id: "bad".to_string() }), 0)
            .unwrap_err(),
        denied
    );
    assert_eq!(
        service
            .aquire_task(&request(None, None, TaskRequest { task_id: "ns:fib".to_string() }))
            .unwrap_err(),
        denied
    );
    assert_eq!(service.publish_task(&request(None, None, task())).unwrap_err(), denied);
    assert_eq!(service.create_task(&request(None, None, task())).unwrap_err(), denied);
    assert_eq!(service.create_task_with(&request(None, None, task()), 1).unwrap_err(), denied);
    assert_eq!(
        service
            .delete_task(&request(
                None,
                None,
                TaskSelector {
                    namespace: "ns".to_string(),
                    task: "fib".to_string(),
                    id: "x".to_string(),
                    state: Lifecycle::Queued,
                }
            ))
            .unwrap_err(),
        denied
    );
    assert_eq!(
        service
            .get_tasks(&request(
                None,
                None,
                TaskPageRequest {
                    namespace: "ns".to_string(),
                    task: "fib".to_string(),
                    state: Lifecycle::Queued,
                    page: 0,
                    page_size: 1,
                }
            ))
            .unwrap_err(),
        denied
    );
    assert_eq!(
        service
            .cgrpc(&request(
                None,
                None,
                Cgrpcmsg {
                    handler_mod_id: "m".to_string(),
                    handler_id: "h".to_string(),
                    event_payload: vec![1],
                }
            ))
            .unwrap_err(),
        denied
    );
    assert!(service.api.task_queue.tasks.get(&ID("ns", "fib")).unwrap().is_empty());
}

/// A handler that answers custom calls for one handler id by turning the request round.
struct Echo;

impl EventHandler<CoreEvent> for Echo {
    fn handle(&self, event: &mut CoreEvent) {
        if let CoreEvent::Cgrpc(e) = event {
            if e.handler_id == ID("mod", "echo") {
                e.output = e.payload.iter().rev().cloned().collect();
            }
        }
    }
}

#[test]
fn custom_calls_reach_their_handler() {
    let mut service: EngineService<FibTask, Echo> = engine(Some("secret"));
    service
        .api
        .event_bus
        .event_handler_registry
        .register_handler(CoreHandler::Module(Echo), ID("core", "cgrpc_event"));
    let call = |auth: &str, handler: &str| {
        request(
            Some(auth),
            None,
            Cgrpcmsg {
                handler_mod_id: "mod".to_string(),
                handler_id: handler.to_string(),
                event_payload: vec![1, 2, 3],
            },
        )
    };
    let reply = service.cgrpc(&call("secret", "echo")).unwrap();
    assert_eq!(reply.handler_mod_id, "mod");
    assert_eq!(reply.handler_id, "echo");
    assert_eq!(reply.event_payload, vec![3, 2, 1]);
    // Another handler id: nobody answers, the reply is empty.
    assert!(service.cgrpc(&call("secret", "other")).unwrap().event_payload.is_empty());
    assert_eq!(service.cgrpc(&call("wrong", "echo")).unwrap_err(), Status::PermissionDenied);
}

#[test]
fn a_reply_becomes_an_internal_failure_where_a_write_failed() {
    let reply = Reply { message: 5u8, writes: Vec::new() };
    assert_eq!(reply.into_response(true), Ok(5u8));
    let reply = Reply { message: 5u8, writes: Vec::new() };
    assert_eq!(reply.into_response(false), Err(Status::Internal));
}

#[test]
fn the_start_event_reaches_the_handlers() {
    struct Stop;
    impl EventHandler<CoreEvent> for Stop {
        fn handle(&self, event: &mut CoreEvent) {
            if let CoreEvent::Start(e) = event {
                if e.modules.iter().any(|m| m.mod_id == "engine_core") {
                    enginelib::event::Event::cancel(e);
                }
            }
        }
    }
    let mut service: EngineService<FibTask, Stop> = engine(None);
    assert!(!Events::StartEvent(&service.api));
    service
        .api
        .event_bus
        .event_handler_registry
        .register_handler(CoreHandler::Module(Stop), ID("core", "start_event"));
    // No module is loaded: the handler has no reason to cancel.
    assert!(!Events::StartEvent(&service.api));
    service.api.lib_manager.load_library(enginelib::engine_core::metadata()).unwrap();
    assert!(Events::StartEvent(&service.api));
}

#[test]
fn the_fibonacci_template_is_what_the_module_registers() {
    let service: EngineService<FibTask, ()> = engine(None);
    let template = service.api.task_registry.get(&ID("engine_core", "fib")).unwrap();
    assert_eq!(template.get_id(), ID("engine_core", "fib"));
    assert_eq!(template.to_bytes(), fib_payload(0, 0));
    assert!(service.api.task_registry.get(&ID("engine_core", "nothing")).is_none());
}
