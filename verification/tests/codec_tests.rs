use enginelib::api::{recover, EngineTaskRegistry};
use enginelib::codec::{read_bytes, read_str, read_u64, write_bytes, write_str, write_u64};
use enginelib::engine_core::FibTask;
use enginelib::events::ID;
use enginelib::id_map::IdMap;
use enginelib::snapshot::{decode_listing, encode_listing};
use enginelib::task::{StoredExecutingTask, StoredTask, TaskRegistry};
use std::sync::Arc;

fn task(id: &str, bytes: &[u8]) -> StoredTask {
    StoredTask { bytes: bytes.to_vec(), id: id.to_string() }
}

fn held(id: &str, bytes: &[u8], uid: &str, at: i64) -> StoredExecutingTask {
    StoredExecutingTask {
        bytes: bytes.to_vec(),
        id: id.to_string(),
        user_id: uid.to_string(),
        given_at: at,
    }
}

type Plain = Vec<((String, String), Vec<(Vec<u8>, String)>)>;

fn plain(m: &IdMap<Vec<StoredTask>>) -> Plain {
    (0..m.len())
        .map(|i| {
            (
                m.key_at(i).clone(),
                m.value_at(i).iter().map(|t| (t.bytes.clone(), t.id.clone())).collect(),
            )
        })
        .collect()
}

fn sample() -> IdMap<Vec<StoredTask>> {
    let mut m: IdMap<Vec<StoredTask>> = IdMap::new();
    m.append(&ID("ns", "fib"), task("a", &[1, 2, 3]));
    m.append(&ID("grüß", "日本"), task("ü", &[]));
    m.append(&ID("ns", "fib"), task("b", &[255; 300]));
    m.ensure_key(&ID("empty", "type"));
    m
}

#[test]
fn the_snapshot_of_a_queue_is_what_bincode_writes() {
    let m = sample();
    let ours = encode_listing(&m);
    let theirs = bincode::serialize(&plain(&m)).unwrap();
    assert_eq!(ours, theirs);
    // The same bytes are what bincode writes for a map of tasks with one key.
    let mut one: IdMap<Vec<StoredTask>> = IdMap::new();
    one.append(&ID("ns", "fib"), task("a", &[7]));
    let mut map = std::collections::HashMap::new();
    map.insert(("ns".to_string(), "fib".to_string()), vec![(vec![7u8], "a".to_string())]);
    assert_eq!(encode_listing(&one), bincode::serialize(&map).unwrap());
}

#[test]
fn the_snapshot_of_an_empty_collection_is_a_zero_count() {
    let m: IdMap<Vec<StoredTask>> = IdMap::new();
    assert_eq!(encode_listing(&m), vec![0u8; 8]);
    let back = decode_listing::<StoredTask>(&[0u8; 8]).unwrap();
    assert_eq!(back.len(), 0);
}

#[test]
fn a_snapshot_is_read_back_as_it_was() {
    let m = sample();
    let bytes = encode_listing(&m);
    let back = decode_listing::<StoredTask>(&bytes).unwrap();
    assert_eq!(plain(&back), plain(&m));
    assert_eq!(encode_listing(&back), bytes);
    // What bincode wrote is read as well.
    let theirs = bincode::serialize(&plain(&m)).unwrap();
    assert_eq!(plain(&decode_listing::<StoredTask>(&theirs).unwrap()), plain(&m));
}

#[test]
fn tasks_in_progress_are_read_back_as_they_were() {
    let mut m: IdMap<Vec<StoredExecutingTask>> = IdMap::new();
    m.append(&ID("ns", "fib"), held("a", &[1], "w1", 1_700_000_000));
    m.append(&ID("ns", "fib"), held("b", &[2, 3], "", -5));
    m.append(&ID("ns", "other"), held("c", &[], "w2", i64::MIN));
    m.append(&ID("ns", "other"), held("d", &[], "w2", i64::MAX));
    let bytes = encode_listing(&m);
    let back = decode_listing::<StoredExecutingTask>(&bytes).unwrap();
    assert_eq!(back.len(), 2);
    let first = back.get(&ID("ns", "fib")).unwrap();
    assert_eq!(first.len(), 2);
    assert_eq!(first[0].id, "a");
    assert_eq!(first[0].user_id, "w1");
    assert_eq!(first[0].given_at, 1_700_000_000);
    assert_eq!(first[1].bytes, vec![2, 3]);
    assert_eq!(first[1].given_at, -5);
    let second = back.get(&ID("ns", "other")).unwrap();
    assert_eq!(second[0].given_at, i64::MIN);
    assert_eq!(second[1].given_at, i64::MAX);
    assert_eq!(encode_listing(&back), bytes);
    // The moment of the hand-over stands in eight little-endian bytes at the end of the entry.
    let mut one: IdMap<Vec<StoredExecutingTask>> = IdMap::new();
    one.append(&ID("n", "t"), held("i", &[9], "u", 258));
    let expected = bincode::serialize(&vec![(
        ("n".to_string(), "t".to_string()),
        vec![(vec![9u8], "i".to_string(), "u".to_string(), 258i64)],
    )])
    .unwrap();
    assert_eq!(encode_listing(&one), expected);
}

#[test]
fn what_follows_a_snapshot_is_ignored() {
    let m = sample();
    let mut bytes = encode_listing(&m);
    bytes.extend_from_slice(&[1, 2, 3, 4, 5, 6, 7, 8, 9]);
    assert_eq!(plain(&decode_listing::<StoredTask>(&bytes).unwrap()), plain(&m));
}

#[test]
fn a_cut_snapshot_is_not_read() {
    let bytes = encode_listing(&sample());
    for n in 0..bytes.len() {
        assert!(decode_listing::<StoredTask>(&bytes[..n]).is_none(), "cut at {}", n);
    }
    // A count that promises more than there is.
    let mut many = u64::MAX.to_le_bytes().to_vec();
    many.extend_from_slice(&[0; 64]);
    assert!(decode_listing::<StoredTask>(&many).is_none());
}

#[test]
fn text_that_is_not_utf8_is_not_read() {
    let good: Plain = vec![(("ns".to_string(), "fib".to_string()), vec![(vec![1], "id".to_string())])];
    let bytes = bincode::serialize(&good).unwrap();
    assert!(decode_listing::<StoredTask>(&bytes).is_some());
    // The namespace starts at byte 16; 0xff never stands in UTF-8.
    let mut bad = bytes.clone();
    bad[16] = 0xff;
    assert!(decode_listing::<StoredTask>(&bad).is_none());
    // The id of the task is the last text of the snapshot.
    let mut bad = bytes.clone();
    let last = bad.len() - 1;
    bad[last] = 0xc3;
    assert!(decode_listing::<StoredTask>(&bad).is_none());
}

#[test]
fn of_two_entries_with_one_key_the_later_stands() {
    let twice: Plain = vec![
        (("ns".to_string(), "fib".to_string()), vec![(vec![1], "first".to_string())]),
        (("ns".to_string(), "two".to_string()), vec![]),
        (("ns".to_string(), "fib".to_string()), vec![(vec![2], "second".to_string())]),
    ];
    let back = decode_listing::<StoredTask>(&bincode::serialize(&twice).unwrap()).unwrap();
    assert_eq!(back.len(), 2);
    assert_eq!(back.key_at(0), &ID("ns", "fib"));
    assert_eq!(back.key_at(1), &ID("ns", "two"));
    let list = back.get(&ID("ns", "fib")).unwrap();
    assert_eq!(list.len(), 1);
    assert_eq!(list[0].id, "second");
}

#[test]
fn recover_tells_whether_something_was_read() {
    let bytes = encode_listing(&sample());
    let (m, read) = recover::<StoredTask>(&Some(bytes));
    assert!(read);
    assert_eq!(m.len(), 3);
    let (m, read) = recover::<StoredTask>(&Some(vec![1]));
    assert!(!read);
    assert_eq!(m.len(), 0);
    let (m, read) = recover::<StoredTask>(&None);
    assert!(!read);
    assert_eq!(m.len(), 0);
}

#[test]
fn the_primitives_write_little_endian_lengths() {
    let mut out = Vec::new();
    write_u64(&mut out, 0x0102_0304_0506_0708);
    assert_eq!(out, vec![8, 7, 6, 5, 4, 3, 2, 1]);
    write_bytes(&mut out, &[0xaa, 0xbb]);
    assert_eq!(&out[8..], &[2, 0, 0, 0, 0, 0, 0, 0, 0xaa, 0xbb]);
    let mut text = Vec::new();
    write_str(&mut text, "aé");
    assert_eq!(text, vec![3, 0, 0, 0, 0, 0, 0, 0, b'a', 0xc3, 0xa9]);

    assert_eq!(read_u64(&out, 0), Some((0x0102_0304_0506_0708, 8)));
    assert_eq!(read_u64(&out, 11), None);
    assert_eq!(read_bytes(&out, 8), Some((vec![0xaa, 0xbb], 18)));
    assert_eq!(read_bytes(&out, 0), None);
    assert_eq!(read_str(&text, 0), Some(("aé".to_string(), 11)));
    assert_eq!(read_str(&text[..10], 0), None);
    assert_eq!(read_str(&[1, 0, 0, 0, 0, 0, 0, 0, 0x80], 0), None);
}

#[test]
fn a_registry_tells_its_task_types() {
    let mut registry: EngineTaskRegistry<FibTask> = EngineTaskRegistry::new();
    assert_eq!(TaskRegistry::serialize(&registry), vec![0u8; 8]);
    TaskRegistry::register(&mut registry, Arc::new(FibTask { iter: 1, result: 2 }), ID("b", "two"));
    TaskRegistry::register(&mut registry, Arc::new(FibTask { iter: 3, result: 4 }), ID("a", "one"));
    TaskRegistry::register(&mut registry, Arc::new(FibTask { iter: 5, result: 6 }), ID("b", "two"));
    let got = TaskRegistry::get(&registry, "b".to_string(), "two".to_string()).unwrap();
    assert_eq!((got.iter, got.result), (5, 6));
    assert!(TaskRegistry::get(&registry, "b".to_string(), "one".to_string()).is_none());

    let bytes = TaskRegistry::serialize(&registry);
    let expected = bincode::serialize(&vec![
        ("b".to_string(), "two".to_string()),
        ("a".to_string(), "one".to_string()),
    ])
    .unwrap();
    assert_eq!(bytes, expected);
    let names = <EngineTaskRegistry<FibTask> as TaskRegistry<FibTask>>::deserialize(&bytes);
    assert_eq!(names, vec![ID("b", "two"), ID("a", "one")]);
    let none = <EngineTaskRegistry<FibTask> as TaskRegistry<FibTask>>::deserialize(&bytes[..20]);
    assert!(none.is_empty());
}
