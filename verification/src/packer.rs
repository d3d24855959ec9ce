//! Packing: from a document of task descriptions to the queue that a pack
//! file holds.
//!
//! A document has one table of records for each task type; the name of the
//! table is the wire identifier of the type.

use vstd::prelude::*;
use vstd::string::StrSliceExecFns;
use crate::text::{chars_of, find_char};

verus! {

/// One record of a document, with the task type that its table names.
#[derive(Debug)]
pub struct Entry<D> {
    pub namespace: String,
    pub id: String,
    pub data: D,
}

/// What stands before the first colon of a table's name: the whole name
/// where it has no colon.
pub open spec fn namespace_of(key: Seq<char>) -> Seq<char> {
    if key.contains(':') {
        key.take(key.index_of_first(':')->0)
    } else {
        key
    }
}

/// What stands behind the first colon of a table's name: nothing where it
/// has no colon.
pub open spec fn name_of(key: Seq<char>) -> Seq<char> {
    if key.contains(':') {
        key.skip(key.index_of_first(':')->0 + 1)
    } else {
        Seq::empty()
    }
}

/// Splits the name of a table at its first colon.
pub fn split_key(key: &str) -> (r: (String, String))
    ensures
        r.0@ == namespace_of(key@),
        r.1@ == name_of(key@),
{
    let chars = chars_of(key);
    proof {
        key@.index_of_first_ensures(':');
    }
    match find_char(&chars, 0, ':') {
        Some(p) => {
            assert(key@.contains(':'));
            assert(key@.index_of_first(':') == Some(p as int));
            (
                key.substring_char(0, p).to_owned(),
                key.substring_char(p + 1, chars.len()).to_owned(),
            )
        },
        None => {
            assert(!key@.contains(':')) by {
                if key@.contains(':') {
                    let j = key@.index_of(':');
                    assert(0 <= j < key@.len() && key@[j] == ':');
                }
            }
            assert(key@.take(key@.len() as int) =~= key@);
            (key.to_owned(), String::new())
        },
    }
}

/// The entries of the first `n` tables of a document, table by table and
/// record by record.
pub open spec fn entries_of<D>(raw: Seq<(String, Vec<D>)>, n: nat) -> Seq<
    (Seq<char>, Seq<char>, D),
>
    decreases n,
{
    if n == 0 {
        Seq::empty()
    } else {
        let table = raw[n - 1];
        entries_of(raw, (n - 1) as nat) + table.1@.map_values(
            |d: D| (namespace_of(table.0@), name_of(table.0@), d),
        )
    }
}

/// What an entry is to a contract.
pub open spec fn entry_view<D>(e: Entry<D>) -> (Seq<char>, Seq<char>, D) {
    (e.namespace@, e.id@, e.data)
}

/// The entries of a document: each record with the namespace and the name
/// that the name of its table gives, in the order of the tables and, within
/// a table, of the records.
pub fn parse_entries<D>(raw: Vec<(String, Vec<D>)>) -> (result: Vec<Entry<D>>)
    ensures
        result@.map_values(|e: Entry<D>| entry_view(e)) == entries_of(raw@, raw@.len()),
{
    let ghost all = raw@;
    let ghost as_view = |e: Entry<D>| entry_view(e);
    let mut result: Vec<Entry<D>> = Vec::new();
    let mut raw = raw;
    let mut tables: Vec<(String, Vec<D>)> = Vec::new();
    // Tables and records are taken from the ends of their lists, so both are
    // turned first.
    while raw.len() > 0
        invariant
            raw.len() + tables.len() == all.len(),
            raw@ == all.take(raw.len() as int),
            forall|j: int| 0 <= j < tables.len() ==> tables[j] == all[all.len() - 1 - j],
        decreases raw.len(),
    {
        let ghost len = raw.len();
        let table = raw.pop().unwrap();
        assert(raw@ =~= all.take(raw.len() as int));
        assert(table == all[len - 1]);
        tables.push(table);
    }
    let mut done: usize = 0;
    assert(result@.map_values(as_view) =~= entries_of(all, 0));
    while tables.len() > 0
        invariant
            as_view == |e: Entry<D>| entry_view(e),
            all.len() <= usize::MAX,
            done + tables.len() == all.len(),
            forall|j: int| 0 <= j < tables.len() ==> tables[j] == all[all.len() - 1 - j],
            result@.map_values(as_view) == entries_of(all, done as nat),
        decreases tables.len(),
    {
        let (compound_key, records) = tables.pop().unwrap();
        assert((compound_key, records) == all[done as int]);
        let (namespace, id) = split_key(compound_key.as_str());
        let ghost before = result@.map_values(as_view);
        let ghost these = records@;
        let ghost wanted = these.map_values(
            |d: D| (namespace_of(compound_key@), name_of(compound_key@), d),
        );
        let mut records = records;
        let mut turned: Vec<D> = Vec::new();
        while records.len() > 0
            invariant
                records.len() + turned.len() == these.len(),
                records@ == these.take(records.len() as int),
                forall|j: int| 0 <= j < turned.len() ==> turned[j] == these[these.len() - 1 - j],
            decreases records.len(),
        {
            let ghost len = records.len();
            let data = records.pop().unwrap();
            assert(records@ =~= these.take(records.len() as int));
            assert(data == these[len - 1]);
            turned.push(data);
        }
        let mut k: usize = 0;
        assert(before + wanted.take(0) =~= before);
        while turned.len() > 0
            invariant
                as_view == |e: Entry<D>| entry_view(e),
                these.len() <= usize::MAX,
                k + turned.len() == these.len(),
                wanted.len() == these.len(),
                forall|j: int| 0 <= j < turned.len() ==> turned[j] == these[these.len() - 1 - j],
                forall|j: int|
                    0 <= j < these.len() ==> wanted[j] == (namespace@, id@, these[j]),
                result@.map_values(as_view) == before + wanted.take(k as int),
            decreases turned.len(),
        {
            let data = turned.pop().unwrap();
            assert(data == these[k as int]);
            let ghost was = result@.map_values(as_view);
            result.push(Entry { namespace: namespace.clone(), id: id.clone(), data });
            assert(result@.map_values(as_view) =~= was.push(wanted[k as int]));
            assert(before + wanted.take(k + 1) =~= (before + wanted.take(k as int)).push(
                wanted[k as int],
            ));
            k += 1;
        }
        assert(wanted.take(k as int) =~= wanted);
        done += 1;
    }
    result
}

} // verus!
