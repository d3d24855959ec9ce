use enginelib::engine_core::{metadata, FibTask};
use enginelib::events::ID;
use enginelib::identifier::{parse_identifier, render_identifier};
use enginelib::packer::{parse_entries, split_key};
use enginelib::paging::{sort_by_id, take_page};
use enginelib::plugin::{bundles, is_bundle, LibraryManager, LibraryMetadata};
use enginelib::task::{reconfigure, reencode, round_trip, Runner, StoredTask, Task, Verifiable};
use enginelib::text::{
    chars_of, ends_with, find_char, parse_decimal, read_line, same_text, text_le, to_decimal,
    to_hex, write_line,
};
use enginelib::{GIT_VERSION, RUSTC_VERSION};

#[test]
fn identifiers_are_read_from_their_wire_form() {
    assert_eq!(parse_identifier("ns:fib"), Some(ID("ns", "fib")));
    assert_eq!(parse_identifier("a:b"), Some(ID("a", "b")));
    assert_eq!(parse_identifier("größe:日本語"), Some(ID("größe", "日本語")));
    assert_eq!(parse_identifier("with space: and more "), Some(ID("with space", " and more ")));
    for bad in ["", ":", "a", "a:", ":b", "a:b:c", "a::b", "::", "onlyonepart"] {
        assert_eq!(parse_identifier(bad), None, "{:?}", bad);
    }
}

#[test]
fn the_wire_form_is_read_back() {
    for id in [ID("ns", "fib"), ID("core", "start_event"), ID("ü", "é")] {
        let wire = render_identifier(&id);
        assert_eq!(wire, format!("{}:{}", id.0, id.1));
        assert_eq!(parse_identifier(&wire), Some(id));
    }
    // What holds a colon in a part cannot go on the wire and come back.
    assert_eq!(render_identifier(&ID("a:b", "c")), "a:b:c");
    assert_eq!(parse_identifier("a:b:c"), None);
}

#[test]
fn numerals_have_thirty_two_lower_case_digits() {
    assert_eq!(to_hex(0), "00000000000000000000000000000000");
    assert_eq!(to_hex(1), "00000000000000000000000000000001");
    assert_eq!(to_hex(0xabcdef), "00000000000000000000000000abcdef");
    assert_eq!(to_hex(u128::MAX), "ffffffffffffffffffffffffffffffff");
    assert_eq!(to_hex(0x0123_4567_89ab_cdef_fedc_ba98_7654_3210), "0123456789abcdeffedcba9876543210");
    for v in [7u128, 1 << 64, 1 << 127, 0xdead_beef] {
        assert_eq!(to_hex(v), format!("{:032x}", v));
    }
}

#[test]
fn texts_are_ordered_as_strings_are() {
    let words = ["", "a", "A", "ab", "b", "aa", "é", "z", "日本", "a\u{10ffff}", "ba"];
    for x in words {
        for y in words {
            assert_eq!(text_le(&chars_of(x), &chars_of(y)), x <= y, "{:?} {:?}", x, y);
            assert_eq!(same_text(x, y), x == y);
        }
    }
}

#[test]
fn characters_and_suffixes() {
    assert_eq!(chars_of("aé日"), vec!['a', 'é', '日']);
    let v = chars_of("a:b:c");
    assert_eq!(find_char(&v, 0, ':'), Some(1));
    assert_eq!(find_char(&v, 2, ':'), Some(3));
    assert_eq!(find_char(&v, 4, ':'), None);
    assert_eq!(find_char(&v, 5, ':'), None);
    assert!(ends_with(&chars_of("abc"), &chars_of("bc")));
    assert!(ends_with(&chars_of("abc"), &chars_of("")));
    assert!(ends_with(&chars_of("abc"), &chars_of("abc")));
    assert!(!ends_with(&chars_of("abc"), &chars_of("xabc")));
    assert!(!ends_with(&chars_of("abc"), &chars_of("ab")));
}

#[test]
fn bundles_are_told_by_their_names() {
    assert!(is_bundle("engine_core.rustforge.tar"));
    assert!(is_bundle("./mods/x.rustforge.tar"));
    assert!(is_bundle(".rustforge.tar"));
    assert!(!is_bundle("engine_core.tar"));
    assert!(!is_bundle("engine_core.rustforge.tar.gz"));
    assert!(!is_bundle("engine_core.rustforge"));
    assert!(!is_bundle("rustforge.tar"));
    assert!(!is_bundle(""));
    let names: Vec<String> =
        ["a.rustforge.tar", "b.txt", "c.rustforge.tar", "d.tar"].iter().map(|s| s.to_string()).collect();
    assert_eq!(bundles(&names), vec!["a.rustforge.tar".to_string(), "c.rustforge.tar".to_string()]);
    assert!(bundles(&Vec::new()).is_empty());
}

#[test]
fn a_module_is_admitted_only_with_the_versions_of_the_engine() {
    let mut manager = LibraryManager::default();
    let mut strange = LibraryMetadata::default();
    strange.mod_id = "strange".to_string();
    strange.api_version = "9.9.9".to_string();
    let err = manager.load_library(strange).unwrap_err();
    assert_eq!(
        err,
        format!(
            "Version mismatch - Module API: 9.9.9, Engine API: {}, Module Rustc: {}, Engine Rustc: {}",
            GIT_VERSION, RUSTC_VERSION, RUSTC_VERSION
        )
    );
    assert!(manager.libraries.is_empty());

    let mut old_compiler = LibraryMetadata::default();
    old_compiler.rustc_version = "1.0.0".to_string();
    assert!(!old_compiler.is_compatible());
    assert!(manager.load_library(old_compiler).is_err());
    assert!(manager.libraries.is_empty());

    assert!(metadata().is_compatible());
    manager.load_library(metadata()).unwrap();
    assert_eq!(manager.libraries.len(), 1);
    assert_eq!(manager.find("engine_core"), Some(0));
    assert_eq!(manager.find("other"), None);
}

#[test]
fn a_module_that_is_loaded_again_takes_the_place_of_its_earlier_self() {
    let mut manager = LibraryManager::default();
    let named = |id: &str, version: &str| {
        let mut m = LibraryMetadata::default();
        m.mod_id = id.to_string();
        m.mod_version = version.to_string();
        m
    };
    manager.load_library(named("a", "1")).unwrap();
    manager.load_library(named("b", "1")).unwrap();
    manager.load_library(named("a", "2")).unwrap();
    assert_eq!(manager.libraries.len(), 2);
    assert_eq!(manager.libraries[0].metadata.mod_id, "a");
    assert_eq!(manager.libraries[0].metadata.mod_version, "2");
    assert_eq!(manager.libraries[1].metadata.mod_id, "b");
}

#[test]
fn what_the_module_says_of_itself() {
    let meta = metadata();
    assert_eq!(meta.mod_id, "engine_core");
    assert_eq!(meta.mod_author, "@ign-styly");
    assert_eq!(meta.mod_name, "Engine Core");
    assert_eq!(meta.mod_version, "0.0.1");
    assert_eq!(meta.api_version, GIT_VERSION);
    assert_eq!(meta.rustc_version, RUSTC_VERSION);
    assert!(meta.mod_dependencies.is_empty());
    assert_eq!(meta.mod_description, "");
    let copy = meta.clone();
    assert_eq!(copy.mod_name, "Engine Core");
}

#[test]
fn the_fibonacci_task_runs() {
    let expected: [u64; 11] = [0, 1, 1, 2, 3, 5, 8, 13, 21, 34, 55];
    for (n, want) in expected.iter().enumerate() {
        let mut task = FibTask { iter: n as u64, result: 99 };
        task.run(Some(Runner::CPU));
        assert_eq!(task.result, *want);
        assert_eq!(task.iter, n as u64);
    }
    let mut big = FibTask { iter: 93, result: 0 };
    big.run_cpu();
    assert_eq!(big.result, 12200160415121876738);
    // The next number no longer fits; what is left of it is kept.
    let mut over = FibTask { iter: 94, result: 0 };
    over.run(None);
    assert_eq!(over.result, 19740274219868223167u128 as u64);
    let mut hip = FibTask { iter: 10, result: 0 };
    hip.run(Some(Runner::HIP));
    assert_eq!(hip.result, 55);
}

#[test]
fn fibonacci_payloads_come_back_as_they_were() {
    let template = FibTask::default();
    let payload: Vec<u8> = (1..=16).collect();
    assert!(template.verify(payload.clone()));
    let task = template.from_bytes(&payload);
    assert_eq!(task.iter, 0x0807_0605_0403_0201);
    assert_eq!(task.result, 0x100f_0e0d_0c0b_0a09);
    assert_eq!(task.to_bytes(), payload);
    assert_eq!(reencode(&template, &payload), payload);
    assert_eq!(round_trip(&template, payload.clone()), Some(payload));
    assert_eq!(round_trip(&template, vec![0; 15]), None);
    assert_eq!(round_trip(&template, vec![0; 17]), None);
    assert!(!template.verify(Vec::new()));
    let ten = FibTask { iter: 10, result: 0 };
    assert_eq!(ten.to_bytes(), vec![10, 0, 0, 0, 0, 0, 0, 0, 0, 0, 0, 0, 0, 0, 0, 0]);
    assert_eq!(ten.clone_box().to_bytes(), ten.to_bytes());
    assert_eq!(ten.get_id(), ID("engine_core", "fib"));
}

#[test]
fn sorting_is_by_id_and_keeps_the_order_of_equal_ids() {
    let task = |id: &str, b: u8| StoredTask { bytes: vec![b], id: id.to_string() };
    let list = vec![task("b", 1), task("a", 2), task("c", 3), task("a", 4), task("", 5), task("b", 6)];
    let sorted = sort_by_id(&list);
    let got: Vec<(String, u8)> = sorted.iter().map(|t| (t.id.clone(), t.bytes[0])).collect();
    let want: Vec<(String, u8)> = [("", 5), ("a", 2), ("a", 4), ("b", 1), ("b", 6), ("c", 3)]
        .iter()
        .map(|(i, b)| (i.to_string(), *b))
        .collect();
    assert_eq!(got, want);
    assert!(sort_by_id::<StoredTask>(&Vec::new()).is_empty());

    let ids = |v: Vec<StoredTask>| v.into_iter().map(|t| t.bytes[0]).collect::<Vec<u8>>();
    assert_eq!(ids(take_page(&sorted, 0, 4, u32::MAX)), vec![5, 2, 4, 1]);
    assert_eq!(ids(take_page(&sorted, 1, 4, u32::MAX)), vec![6, 3]);
    assert_eq!(ids(take_page(&sorted, 1, 4, 1)), vec![6]);
    assert_eq!(ids(take_page(&sorted, 2, 3, 9)), Vec::<u8>::new());
    assert_eq!(ids(take_page(&sorted, 1, 5, 0)), Vec::<u8>::new());
}

#[test]
fn the_names_of_tables_are_split_at_the_first_colon() {
    assert_eq!(split_key("widget:button"), ("widget".to_string(), "button".to_string()));
    assert_eq!(split_key("a:b:c"), ("a".to_string(), "b:c".to_string()));
    assert_eq!(split_key("plain"), ("plain".to_string(), String::new()));
    assert_eq!(split_key(":x"), (String::new(), "x".to_string()));
    assert_eq!(split_key("x:"), ("x".to_string(), String::new()));
    assert_eq!(split_key(""), (String::new(), String::new()));
}

#[test]
fn the_entries_of_a_document_come_table_by_table() {
    let raw = vec![
        ("ns:fib".to_string(), vec![1, 2]),
        ("lonely".to_string(), vec![]),
        ("a:b:c".to_string(), vec![3]),
    ];
    let entries = parse_entries(raw);
    let got: Vec<(String, String, i32)> =
        entries.into_iter().map(|e| (e.namespace, e.id, e.data)).collect();
    let want: Vec<(String, String, i32)> = [("ns", "fib", 1), ("ns", "fib", 2), ("a", "b:c", 3)]
        .iter()
        .map(|(n, i, d)| (n.to_string(), i.to_string(), *d))
        .collect();
    assert_eq!(got, want);
    assert!(parse_entries::<u8>(Vec::new()).is_empty());
}

#[test]
fn decimal_numerals() {
    for v in [0u64, 1, 9, 10, 11, 99, 100, 12345, 1 << 32, u64::MAX - 1, u64::MAX] {
        let text = to_decimal(v);
        assert_eq!(text, format!("{}", v));
        let chars = chars_of(&text);
        assert_eq!(parse_decimal(&chars, 0, chars.len()), Some(v));
    }
    let parse = |s: &str| {
        let chars = chars_of(s);
        parse_decimal(&chars, 0, chars.len())
    };
    assert_eq!(parse("007"), Some(7));
    assert_eq!(parse("18446744073709551615"), Some(u64::MAX));
    assert_eq!(parse("18446744073709551616"), None);
    assert_eq!(parse("99999999999999999999999999"), None);
    assert_eq!(parse(""), None);
    assert_eq!(parse("12a"), None);
    assert_eq!(parse("-1"), None);
    assert_eq!(parse(" 1"), None);
    let chars = chars_of("ab123cd");
    assert_eq!(parse_decimal(&chars, 2, 5), Some(123));
    assert_eq!(parse_decimal(&chars, 2, 4), Some(12));
    assert_eq!(parse_decimal(&chars, 2, 2), None);
    assert_eq!(parse_decimal(&chars, 1, 4), None);
}

#[test]
fn lines_of_configuration_text() {
    let mut out = String::from("x");
    write_line(&mut out, "iter", 10);
    write_line(&mut out, "result", 0);
    assert_eq!(out, "xiter = 10\nresult = 0\n");
    let chars = chars_of(&out);
    assert_eq!(read_line(&chars, 1, "iter"), Some((10, 11)));
    assert_eq!(read_line(&chars, 11, "result"), Some((0, 22)));
    assert_eq!(read_line(&chars, 0, "iter"), None);
    assert_eq!(read_line(&chars, 1, "result"), None);
    assert_eq!(read_line(&chars, 22, "iter"), None);
    assert_eq!(read_line(&chars_of("iter = 5"), 0, "iter"), None);
    assert_eq!(read_line(&chars_of("iter = \n"), 0, "iter"), None);
    assert_eq!(read_line(&chars_of("iter=5\n"), 0, "iter"), None);
    assert_eq!(read_line(&chars_of("iter = 5\n\n"), 0, "iter"), Some((5, 9)));
}

#[test]
fn the_fibonacci_task_has_a_configuration_text() {
    let template = FibTask::default();
    let task = FibTask { iter: 10, result: 55 };
    assert_eq!(task.to_toml(), "iter = 10\nresult = 55\n");
    assert_eq!(template.to_toml(), "iter = 0\nresult = 0\n");
    let back = template.from_toml(task.to_toml());
    assert_eq!((back.iter, back.result), (10, 55));
    let again = reconfigure(&task);
    assert_eq!(again.to_bytes(), task.to_bytes());
    let most = FibTask { iter: u64::MAX, result: u64::MAX };
    assert_eq!(template.from_toml(most.to_toml()).to_bytes(), most.to_bytes());

    // A text that is not the configuration text of a task gives the template.
    let other = FibTask { iter: 4, result: 3 };
    for bad in [
        "",
        "iter = 10\n",
        "iter = 10\nresult = 55",
        "iter = 10\nresult = 55\n\n",
        "result = 55\niter = 10\n",
        "iter = 010\nresult = 55\n",
        "iter = 10\nresult = 18446744073709551616\n",
        "iter = ten\nresult = 55\n",
        "iter=10\nresult=55\n",
    ] {
        assert!(FibTask::parse(bad).is_none(), "{:?}", bad);
        let got = other.from_toml(bad.to_string());
        assert_eq!((got.iter, got.result), (4, 3), "{:?}", bad);
    }
    let parsed = FibTask::parse("iter = 7\nresult = 13\n").unwrap();
    assert_eq!((parsed.iter, parsed.result), (7, 13));
}
