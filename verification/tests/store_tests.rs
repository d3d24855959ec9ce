use enginelib::api::{EngineAPI, EngineTaskRegistry};
use enginelib::config::{Config, ConfigTomlServer};
use enginelib::engine_core::{run, FibTask};
use enginelib::events::{CoreEvent, Events, ID};
use enginelib::id_map::IdMap;
use enginelib::proto::{get_auth, get_uid, Request, SnapshotKey};
use enginelib::reclaim::{reclaim, split_expired};
use enginelib::store::{remove_by_id, Lifecycle, StoreError};
use enginelib::task::{StoredExecutingTask, StoredTask, TaskState};
use enginelib::{clone_id, same_id, Registry};
use std::sync::Arc;

fn api() -> EngineAPI<FibTask, ()> {
    let mut api: EngineAPI<FibTask, ()> = EngineAPI::default();
    api.task_registry.register(Arc::new(FibTask::default()), ID("ns", "fib"));
    api
}

fn task(id: &str, byte: u8) -> StoredTask {
    StoredTask { bytes: vec![byte; 16], id: id.to_string() }
}

fn ids(state: TaskState) -> Vec<String> {
    match state {
        TaskState::StoredTask(v) => v.into_iter().map(|t| t.id).collect(),
        TaskState::StoredExecutingTask(v) => v.into_iter().map(|t| t.id).collect(),
    }
}

fn everything(api: &EngineAPI<FibTask, ()>, id: &(String, String)) -> Vec<String> {
    let mut all = Vec::new();
    for state in [Lifecycle::Queued, Lifecycle::Processing, Lifecycle::Solved] {
        all.extend(ids(api.list(id, state, 0, u32::MAX)));
    }
    all
}

#[test]
fn enqueue_needs_a_template() {
    let mut api = api();
    assert_eq!(api.enqueue(&ID("ns", "other"), task("a", 1)), Err(StoreError::NotRegistered));
    assert!(api.task_queue.tasks.get(&ID("ns", "other")).is_none());
    assert_eq!(api.enqueue(&ID("ns", "fib"), task("a", 1)), Ok(()));
    assert_eq!(api.task_queue.tasks.get(&ID("ns", "fib")).unwrap().len(), 1);
}

#[test]
fn acquire_takes_the_head_and_stamps_it() {
    let mut api = api();
    let id = ID("ns", "fib");
    assert_eq!(api.acquire(&id, "w1", 5).unwrap_err(), StoreError::NoTask);
    api.enqueue(&id, task("a", 1)).unwrap();
    api.enqueue(&id, task("b", 2)).unwrap();
    let got = api.acquire(&id, "w1", 5).unwrap();
    assert_eq!(got.id, "a");
    assert_eq!(got.bytes, vec![1; 16]);
    let held = api.executing_tasks.tasks.get(&id).unwrap();
    assert_eq!(held.len(), 1);
    assert_eq!(held[0].id, "a");
    assert_eq!(held[0].bytes, vec![1; 16]);
    assert_eq!(held[0].user_id, "w1");
    assert_eq!(held[0].given_at, 5);
    assert_eq!(ids(api.list(&id, Lifecycle::Queued, 0, 10)), vec!["b"]);
    // A type that was never queued has no task either.
    assert_eq!(api.acquire(&ID("ns", "other"), "w1", 5).unwrap_err(), StoreError::NoTask);
}

#[test]
fn publish_tells_why_it_fails() {
    let mut api = api();
    let id = ID("ns", "fib");
    api.enqueue(&id, task("a", 1)).unwrap();
    api.acquire(&id, "w1", 0).unwrap();
    assert_eq!(
        api.publish(&ID("ns", "other"), "a", "w1", vec![0; 16]),
        Err(StoreError::NotRegistered)
    );
    assert_eq!(api.publish(&id, "b", "w1", vec![0; 16]), Err(StoreError::NotAssigned));
    assert_eq!(api.publish(&id, "a", "w2", vec![0; 16]), Err(StoreError::NotAssigned));
    // Not assigned comes before a payload that does not verify.
    assert_eq!(api.publish(&id, "a", "w2", vec![0; 3]), Err(StoreError::NotAssigned));
    assert_eq!(api.publish(&id, "a", "w1", vec![0; 3]), Err(StoreError::VerifyFailed));
    assert_eq!(ids(api.list(&id, Lifecycle::Processing, 0, 10)), vec!["a"]);
    assert_eq!(api.publish(&id, "a", "w1", vec![9; 16]), Ok(()));
    assert!(ids(api.list(&id, Lifecycle::Processing, 0, 10)).is_empty());
    let solved = api.solved_tasks.tasks.get(&id).unwrap();
    assert_eq!(solved.len(), 1);
    assert_eq!(solved[0].id, "a");
    assert_eq!(solved[0].bytes, vec![9; 16]);
}

#[test]
fn publish_takes_the_task_of_the_worker_and_leaves_the_others() {
    let mut api = api();
    let id = ID("ns", "fib");
    for name in ["a", "b", "c"] {
        api.enqueue(&id, task(name, 1)).unwrap();
    }
    api.acquire(&id, "w1", 0).unwrap();
    api.acquire(&id, "w2", 0).unwrap();
    api.acquire(&id, "w1", 0).unwrap();
    api.publish(&id, "b", "w2", vec![2; 16]).unwrap();
    let held: Vec<(String, String)> = api
        .executing_tasks
        .tasks
        .get(&id)
        .unwrap()
        .iter()
        .map(|t| (t.id.clone(), t.user_id.clone()))
        .collect();
    assert_eq!(held, vec![("a".to_string(), "w1".to_string()), ("c".to_string(), "w1".to_string())]);
}

#[test]
fn delete_takes_every_record_of_the_task() {
    let mut api = api();
    let id = ID("ns", "fib");
    assert_eq!(api.delete(&id, "a", Lifecycle::Queued), Err(StoreError::NotFound));
    for name in ["a", "b", "a", "c"] {
        api.enqueue(&id, task(name, 1)).unwrap();
    }
    assert_eq!(api.delete(&id, "x", Lifecycle::Queued), Err(StoreError::NotFound));
    assert_eq!(api.delete(&id, "a", Lifecycle::Solved), Err(StoreError::NotFound));
    assert_eq!(api.delete(&id, "a", Lifecycle::Queued), Ok(()));
    let left: Vec<String> =
        api.task_queue.tasks.get(&id).unwrap().iter().map(|t| t.id.clone()).collect();
    assert_eq!(left, vec!["b", "c"]);

    let mut m: IdMap<Vec<StoredTask>> = IdMap::new();
    m.append(&id, task("a", 1));
    assert!(!remove_by_id(&mut m, &ID("no", "key"), "a"));
    assert!(!remove_by_id(&mut m, &id, "b"));
    assert!(remove_by_id(&mut m, &id, "a"));
    assert!(m.get(&id).unwrap().is_empty());
}

#[test]
fn a_task_is_in_one_collection_at_a_time() {
    let mut api = api();
    let id = ID("ns", "fib");
    let unique = |api: &EngineAPI<FibTask, ()>| {
        let mut all = everything(api, &ID("ns", "fib"));
        let n = all.len();
        all.sort();
        all.dedup();
        assert_eq!(all.len(), n);
        n
    };
    for name in ["a", "b", "c", "d", "e"] {
        api.enqueue(&id, task(name, 1)).unwrap();
    }
    assert_eq!(unique(&api), 5);
    api.acquire(&id, "w1", 0).unwrap();
    api.acquire(&id, "w2", 100).unwrap();
    api.acquire(&id, "w1", 200).unwrap();
    assert_eq!(unique(&api), 5);
    api.publish(&id, "a", "w1", vec![0; 16]).unwrap();
    assert_eq!(unique(&api), 5);
    api.delete(&id, "d", Lifecycle::Queued).unwrap();
    assert_eq!(unique(&api), 4);
    assert!(reclaim(&mut api.executing_tasks.tasks, &mut api.task_queue.tasks, 250, 100));
    assert_eq!(unique(&api), 4);
    assert_eq!(ids(api.list(&id, Lifecycle::Queued, 0, 10)), vec!["b", "e"]);
    assert_eq!(ids(api.list(&id, Lifecycle::Processing, 0, 10)), vec!["c"]);
    assert_eq!(ids(api.list(&id, Lifecycle::Solved, 0, 10)), vec!["a"]);
    // What went back stands at the end of the queue.
    let order: Vec<String> =
        api.task_queue.tasks.get(&id).unwrap().iter().map(|t| t.id.clone()).collect();
    assert_eq!(order, vec!["e", "b"]);
}

#[test]
fn after_a_reclaim_cycle_nothing_is_held_for_longer_than_the_threshold() {
    let held = |id: &str, at: i64| StoredExecutingTask {
        bytes: vec![1],
        id: id.to_string(),
        user_id: "w".to_string(),
        given_at: at,
    };
    let mut executing: IdMap<Vec<StoredExecutingTask>> = IdMap::new();
    let mut queue: IdMap<Vec<StoredTask>> = IdMap::new();
    let fib = ID("ns", "fib");
    let other = ID("ns", "other");
    let quiet = ID("ns", "quiet");
    for (i, at) in [0i64, 50, 100, 101, 200, -7, i64::MIN].iter().enumerate() {
        executing.append(&fib, held(&format!("f{}", i), *at));
    }
    executing.append(&other, held("o0", 99));
    executing.append(&quiet, held("q0", 150));
    queue.append(&fib, task("old", 1));
    let now = 200;
    let threshold = 100;
    assert!(reclaim(&mut executing, &mut queue, now, threshold));
    for i in 0..executing.len() {
        for e in executing.value_at(i) {
            assert!((now as i128) - (e.given_at as i128) <= threshold as i128);
        }
    }
    let left: Vec<String> = executing.get(&fib).unwrap().iter().map(|t| t.id.clone()).collect();
    assert_eq!(left, vec!["f2", "f3", "f4"]);
    assert!(executing.get(&other).unwrap().is_empty());
    assert_eq!(executing.get(&quiet).unwrap().len(), 1);
    let back: Vec<String> = queue.get(&fib).unwrap().iter().map(|t| t.id.clone()).collect();
    assert_eq!(back, vec!["old", "f0", "f1", "f5", "f6"]);
    assert_eq!(queue.get(&other).unwrap().len(), 1);
    assert_eq!(queue.get(&other).unwrap()[0].bytes, vec![1]);
    // A type of which nothing expired gets no queue.
    assert!(queue.get(&quiet).is_none());
    // A second cycle at the same moment finds nothing.
    assert!(!reclaim(&mut executing, &mut queue, now, threshold));

    let (stay, go) = split_expired(&vec![held("a", 0), held("b", 10)], 10, 9);
    assert_eq!(stay.len(), 1);
    assert_eq!(stay[0].id, "b");
    assert_eq!(go.len(), 1);
    assert_eq!(go[0].id, "a");
    let (stay, go) = split_expired(&vec![held("a", i64::MAX)], i64::MIN, 0);
    assert_eq!((stay.len(), go.len()), (1, 0));
    // The greatest age there is, to the second: it is the greatest threshold, and not above it.
    let (stay, go) = split_expired(&vec![held("a", i64::MIN)], i64::MAX, u64::MAX);
    assert_eq!((stay.len(), go.len()), (1, 0));
    let (stay, go) = split_expired(&vec![held("a", i64::MIN)], i64::MAX, u64::MAX - 1);
    assert_eq!((stay.len(), go.len()), (0, 1));
}

#[test]
fn what_is_written_is_what_is_read_after_a_restart() {
    let mut api = api();
    let id = ID("ns", "fib");
    for name in ["a", "b", "c"] {
        api.enqueue(&id, task(name, 3)).unwrap();
    }
    api.enqueue(&ID("ns", "fib"), task("ü", 4)).unwrap();
    api.acquire(&id, "w1", 11).unwrap();
    api.acquire(&id, "w2", 12).unwrap();
    api.publish(&id, "a", "w1", vec![7; 16]).unwrap();
    let writes = api.sync_db();
    assert_eq!(writes.len(), 3);
    let find = |key: SnapshotKey| writes.iter().find(|w| w.key == key).unwrap().value.clone();

    let mut again = self::api();
    let back = again.init_db(
        Some(find(SnapshotKey::Tasks)),
        Some(find(SnapshotKey::ExecutingTasks)),
        Some(find(SnapshotKey::SolvedTasks)),
    );
    assert!(back.is_empty());
    let rewritten = again.sync_db();
    for (a, b) in writes.iter().zip(rewritten.iter()) {
        assert_eq!(a.key, b.key);
        assert_eq!(a.value, b.value);
    }
    assert_eq!(everything(&again, &id), everything(&api, &id));
    let held = again.executing_tasks.tasks.get(&id).unwrap();
    assert_eq!(held.len(), 1);
    assert_eq!((held[0].id.as_str(), held[0].user_id.as_str(), held[0].given_at), ("b", "w2", 12));
    assert_eq!(again.solved_tasks.tasks.get(&id).unwrap()[0].bytes, vec![7; 16]);
}

#[test]
fn the_keys_of_the_durable_store() {
    assert_eq!(SnapshotKey::Tasks.as_str(), "tasks");
    assert_eq!(SnapshotKey::ExecutingTasks.as_str(), "executing_tasks");
    assert_eq!(SnapshotKey::SolvedTasks.as_str(), "solved_tasks");
    let api = api();
    for key in [SnapshotKey::Tasks, SnapshotKey::ExecutingTasks, SnapshotKey::SolvedTasks] {
        let w = api.snapshot(key);
        assert_eq!(w.key, key);
        assert_eq!(w.value, vec![0u8; 8]);
    }
}

#[test]
fn the_defaults_of_the_configuration() {
    let c = ConfigTomlServer::default();
    assert_eq!(c.host, "[::1]:50051");
    assert_eq!(c.cgrpc_token, None);
    assert_eq!(c.clean_tasks, 60);
    assert_eq!(c.pagination_limit, u32::MAX);
    assert_eq!(c.reclaim_threshold_seconds, 3600);
    let config = Config::default();
    assert_eq!(config.config_toml.host, "[::1]:50051");
    assert_eq!(config.reclaim_period_seconds(), 3600);
    assert_eq!(Config::new(None).config_toml.clean_tasks, 60);
    let mut other = ConfigTomlServer::default();
    other.clean_tasks = 2;
    other.cgrpc_token = Some("t".to_string());
    let config = Config::new(Some(other));
    assert_eq!(config.reclaim_period_seconds(), 120);
    let copy = config.clone();
    assert_eq!(copy.config_toml.cgrpc_token, Some("t".to_string()));
    assert_eq!(copy.config_toml.clean_tasks, 2);
    let mut long = ConfigTomlServer::default();
    long.clean_tasks = u64::MAX / 60;
    assert_eq!(Config::new(Some(long.clone())).reclaim_period_seconds(), u64::MAX / 60 * 60);
    long.clean_tasks = u64::MAX / 60 + 1;
    assert_eq!(Config::new(Some(long)).reclaim_period_seconds(), u64::MAX);
}

#[test]
fn a_new_engine_is_empty() {
    let api: EngineAPI<FibTask, ()> = EngineAPI::test_default();
    assert_eq!(api.task_queue.tasks.len(), 0);
    assert_eq!(api.executing_tasks.tasks.len(), 0);
    assert_eq!(api.solved_tasks.tasks.len(), 0);
    assert_eq!(api.task_registry.tasks.len(), 0);
    assert_eq!(api.event_bus.event_handler_registry.event_handlers.len(), 0);
    assert_eq!(api.event_bus.event_registry.events.len(), 0);
    assert!(api.lib_manager.libraries.is_empty());
    assert_eq!(api.cfg.config_toml.host, "[::1]:50051");
    let registry: EngineTaskRegistry<FibTask> = EngineTaskRegistry::default();
    assert_eq!(registry.tasks.len(), 0);
}

#[test]
fn setting_up_gives_every_task_type_its_lists_and_the_events_their_instances() {
    let mut api: EngineAPI<FibTask, ()> = EngineAPI::default();
    run(&mut api);
    api.task_registry.register(Arc::new(FibTask::default()), ID("ns", "fib"));
    api.enqueue(&ID("ns", "fib"), task("a", 1)).unwrap();
    Events::init(&mut api);
    for id in [ID("engine_core", "fib"), ID("ns", "fib")] {
        assert!(api.task_queue.tasks.contains_key(&id));
        assert!(api.executing_tasks.tasks.contains_key(&id));
        assert!(api.solved_tasks.tasks.contains_key(&id));
    }
    assert_eq!(api.task_queue.tasks.get(&ID("ns", "fib")).unwrap().len(), 1);
    assert!(api.task_queue.tasks.get(&ID("engine_core", "fib")).unwrap().is_empty());
    match *api.event_bus.event_registry.get(&ID("core", "cgrpc_event")).unwrap() {
        CoreEvent::Cgrpc(e) => {
            assert!(!e.cancelled);
            assert_eq!(e.id, ID("core", "cgrpc_event"));
            assert_eq!(e.handler_id, ID("", ""));
            assert!(e.payload.is_empty() && e.output.is_empty());
        }
        _ => panic!("the instance of the custom-call event is of another kind"),
    }
    match *api.event_bus.event_registry.get(&ID("core", "start_event")).unwrap() {
        CoreEvent::Start(e) => {
            assert!(!e.cancelled);
            assert_eq!(e.id, ID("core", "start_event"));
            assert!(e.modules.is_empty());
        }
        _ => panic!("the instance of the start event is of another kind"),
    }
    assert!(api.event_bus.event_registry.get(&ID("core", "auth_event")).is_none());
    // The module's handler of the start event is registered, the engine's own are not yet.
    let chains = &api.event_bus.event_handler_registry.event_handlers;
    assert_eq!(chains.get(&ID("core", "start_event")).unwrap().len(), 1);
    assert!(chains.get(&ID("core", "auth_event")).is_none());
    Events::init_auth(&mut api);
    let chains = &api.event_bus.event_handler_registry.event_handlers;
    assert_eq!(chains.get(&ID("core", "auth_event")).unwrap().len(), 1);
    assert_eq!(chains.get(&ID("core", "admin_auth_event")).unwrap().len(), 1);
}

#[test]
fn without_handlers_nobody_is_let_through() {
    let mut api: EngineAPI<FibTask, ()> = EngineAPI::default();
    assert!(!Events::CheckAuth(&api, "w1".to_string(), "x".to_string()));
    assert!(!Events::CheckAdminAuth(&api, "x".to_string(), ID("", "")));
    assert!(Events::CgrpcEvent(&api, ID("m", "h"), vec![1]).is_empty());
    api.cfg.config_toml.cgrpc_token = Some("secret".to_string());
    Events::init_auth(&mut api);
    assert!(Events::CheckAuth(&api, "w1".to_string(), "x".to_string()));
    assert!(Events::CheckAuth(&api, String::new(), String::new()));
    assert!(!Events::CheckAdminAuth(&api, "x".to_string(), ID("", "")));
    assert!(!Events::CheckAdminAuth(&api, String::new(), ID("", "")));
    assert!(Events::CheckAdminAuth(&api, "secret".to_string(), ID("m", "h")));
    match Events::AuthEvent(&api, "w1".to_string(), "x".to_string()) {
        CoreEvent::Auth(e) => {
            assert!(e.output);
            assert_eq!(e.uid, "w1");
            assert_eq!(e.payload, "x");
            assert_eq!(e.id, ID("core", "auth_event"));
        }
        _ => panic!("the event came back as another kind"),
    }
    match Events::AdminAuthEvent(&api, "no".to_string(), ID("m", "h")) {
        CoreEvent::AdminAuth(e) => {
            assert!(!e.output);
            assert_eq!(e.target, ID("m", "h"));
        }
        _ => panic!("the event came back as another kind"),
    }
}

#[test]
fn headers_default_to_the_empty_text() {
    let bare = Request::new(5u8);
    assert_eq!(get_uid(&bare), "");
    assert_eq!(get_auth(&bare), "");
    assert_eq!(*bare.get_ref(), 5);
    let full = Request {
        authorization: Some("token".to_string()),
        uid: Some("w1".to_string()),
        message: (),
    };
    assert_eq!(get_uid(&full), "w1");
    assert_eq!(get_auth(&full), "token");
}

#[test]
fn the_map_keeps_the_order_of_first_insertion() {
    let mut m: IdMap<u8> = IdMap::new();
    assert_eq!(m.len(), 0);
    assert_eq!(m.position(&ID("a", "b")), None);
    m.insert(ID("a", "b"), 1);
    m.insert(ID("c", "d"), 2);
    m.insert(ID("a", "b"), 3);
    m.insert(ID("e", "f"), 4);
    assert_eq!(m.len(), 3);
    assert_eq!(m.key_at(0), &ID("a", "b"));
    assert_eq!(m.key_at(1), &ID("c", "d"));
    assert_eq!(m.key_at(2), &ID("e", "f"));
    assert_eq!(*m.value_at(0), 3);
    assert_eq!(m.get(&ID("c", "d")), Some(&2));
    assert_eq!(m.get(&ID("c", "x")), None);
    assert!(m.contains_key(&ID("e", "f")));
    assert!(!m.contains_key(&ID("f", "e")));
    assert_eq!(m.position(&ID("e", "f")), Some(2));
    assert_eq!(m.replace_at(1, 9), 2);
    assert_eq!(m.get(&ID("c", "d")), Some(&9));

    let mut lists: IdMap<Vec<StoredTask>> = IdMap::new();
    assert!(lists.take_first(&ID("a", "b")).is_none());
    lists.ensure_key(&ID("a", "b"));
    assert!(lists.take_first(&ID("a", "b")).is_none());
    lists.append(&ID("a", "b"), task("x", 1));
    lists.append(&ID("a", "b"), task("y", 2));
    lists.ensure_key(&ID("a", "b"));
    assert_eq!(lists.take_first(&ID("a", "b")).unwrap().id, "x");
    assert_eq!(lists.get(&ID("a", "b")).unwrap().len(), 1);
    let previous = lists.set_list(0, vec![task("z", 3)]);
    assert_eq!(previous[0].id, "y");
    lists.insert_list(ID("c", "d"), vec![task("w", 4)]);
    lists.insert_list(ID("a", "b"), Vec::new());
    assert_eq!(lists.len(), 2);
    assert!(lists.get(&ID("a", "b")).unwrap().is_empty());
    let mut plain: IdMap<Vec<u8>> = IdMap::new();
    plain.push_item(&ID("k", "k"), 1);
    plain.push_item(&ID("k", "k"), 2);
    assert_eq!(plain.get(&ID("k", "k")), Some(&vec![1, 2]));

    assert!(same_id(&ID("a", "b"), &ID("a", "b")));
    assert!(!same_id(&ID("a", "b"), &ID("a", "c")));
    assert!(!same_id(&ID("a", "b"), &ID("b", "a")));
    assert_eq!(clone_id(&ID("a", "b")), ID("a", "b"));
    let copy = task("x", 1).clone();
    assert_eq!((copy.id.as_str(), copy.bytes.len()), ("x", 16));
}
