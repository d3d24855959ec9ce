//! Snapshots of the task collections: how a collection becomes bytes for the
//! durable store and how it is read back.
//!
//! A snapshot is the list of the collection's entries in key order. An entry
//! is the two parts of its identifier, then the list of its tasks.

use vstd::prelude::*;
use vstd::bytes::spec_u64_to_le_bytes;
use vstd::utf8::encode_utf8;
use crate::{id_view, Identifier, IdView};
use crate::codec::{
    enc_bytes, enc_list, enc_seq, enc_str, lemma_bytes_round_trip, lemma_enc_seq_push,
    lemma_list_round_trip, lemma_str_round_trip, lemma_u64_round_trip, parse_bytes, parse_list,
    parse_seq, parse_str, parse_u64, read_bytes, read_str, read_u64, write_bytes, write_str,
    write_u64,
};
use crate::id_map::{IdMap, lemma_paired_at, Listing, paired, touched, views};
use crate::task::{StoredExecutingTask, StoredExecutingTaskView, StoredTask, StoredTaskView};

verus! {

/// A value with a place in the snapshot format.
pub trait Record: View + Sized {
    /// The bytes that stand for `v`.
    spec fn enc(v: Self::V) -> Seq<u8>;

    /// Reads a value from the front of `b`: the value and the bytes taken.
    spec fn parse(b: Seq<u8>) -> Option<(Self::V, int)>;

    /// Whether every length in `v` can be written as a `u64`.
    spec fn fits(v: Self::V) -> bool;

    /// The id of the task that `v` stores.
    spec fn task_id(v: Self::V) -> Seq<char>;

    /// The payload of the task that `v` stores.
    spec fn payload(v: Self::V) -> Seq<u8>;

    /// The id of the stored task.
    fn id_text(&self) -> (r: &str)
        ensures
            r@ == Self::task_id(self@),
    ;

    /// The payload of the stored task.
    fn payload_bytes(&self) -> (r: &Vec<u8>)
        ensures
            r@ == Self::payload(self@),
    ;

    /// An equal record with storage of its own.
    fn duplicate_record(&self) -> (r: Self)
        ensures
            r@ == self@,
    ;

    /// A value is read back from its encoding, whatever follows it.
    proof fn lemma_round_trip(v: Self::V, tail: Seq<u8>)
        requires
            Self::fits(v),
        ensures
            Self::parse(Self::enc(v) + tail) == Some((v, Self::enc(v).len() as int)),
    ;

    /// Appends the encoding of this value.
    fn write(&self, out: &mut Vec<u8>)
        ensures
            final(out)@ == old(out)@ + Self::enc(self@),
            Self::fits(self@),
    ;

    /// Reads a value at `pos`: the value and the place behind it.
    fn read(bytes: &[u8], pos: usize) -> (r: Option<(Self, usize)>)
        requires
            pos <= bytes.len(),
        ensures
            match (Self::parse(bytes@.skip(pos as int)), r) {
                (Some((v, k)), Some((item, next))) => item@ == v && next == pos + k && pos <= next
                    <= bytes.len(),
                (None, None) => true,
                _ => false,
            },
    ;
}

/// The encoder of `T` as a function.
pub open spec fn encoder<T: Record>() -> spec_fn(T::V) -> Seq<u8> {
    |v: T::V| T::enc(v)
}

/// The reader of `T` as a function.
pub open spec fn parser<T: Record>() -> spec_fn(Seq<u8>) -> Option<(T::V, int)> {
    |b: Seq<u8>| T::parse(b)
}

impl Record for StoredTask {
    open spec fn enc(v: StoredTaskView) -> Seq<u8> {
        enc_bytes(v.bytes) + enc_str(v.id)
    }

    open spec fn parse(b: Seq<u8>) -> Option<(StoredTaskView, int)> {
        match parse_bytes(b) {
            Some((bytes, k1)) => match parse_str(b.skip(k1)) {
                Some((id, k2)) => Some((StoredTaskView { bytes, id }, k1 + k2)),
                None => None,
            },
            None => None,
        }
    }

    open spec fn fits(v: StoredTaskView) -> bool {
        v.bytes.len() <= u64::MAX && encode_utf8(v.id).len() <= u64::MAX
    }

    open spec fn task_id(v: StoredTaskView) -> Seq<char> {
        v.id
    }

    open spec fn payload(v: StoredTaskView) -> Seq<u8> {
        v.bytes
    }

    fn payload_bytes(&self) -> (r: &Vec<u8>) {
        &self.bytes
    }

    fn id_text(&self) -> (r: &str) {
        self.id.as_str()
    }

    fn duplicate_record(&self) -> (r: Self) {
        self.duplicate()
    }

    proof fn lemma_round_trip(v: StoredTaskView, tail: Seq<u8>) {
        lemma_bytes_round_trip(v.bytes, enc_str(v.id) + tail);
        lemma_str_round_trip(v.id, tail);
        assert(Self::enc(v) + tail =~= enc_bytes(v.bytes) + (enc_str(v.id) + tail));
    }

    fn write(&self, out: &mut Vec<u8>) {
        write_bytes(out, self.bytes.as_slice());
        write_str(out, self.id.as_str());
        assert(out@ =~= old(out)@ + Self::enc(self@));
    }

    fn read(bytes: &[u8], pos: usize) -> (r: Option<(Self, usize)>) {
        let (payload, after_payload) = match read_bytes(bytes, pos) {
            Some(x) => x,
            None => {
                return None;
            },
        };
        assert(bytes@.skip(pos as int).skip(after_payload - pos) =~= bytes@.skip(
            after_payload as int,
        ));
        let (id, next) = match read_str(bytes, after_payload) {
            Some(x) => x,
            None => {
                return None;
            },
        };
        Some((StoredTask { bytes: payload, id }, next))
    }
}

impl Record for StoredExecutingTask {
    open spec fn enc(v: StoredExecutingTaskView) -> Seq<u8> {
        enc_bytes(v.bytes) + enc_str(v.id) + enc_str(v.user_id) + spec_u64_to_le_bytes(
            v.given_at as u64,
        )
    }

    open spec fn parse(b: Seq<u8>) -> Option<(StoredExecutingTaskView, int)> {
        match parse_bytes(b) {
            Some((bytes, k1)) => match parse_str(b.skip(k1)) {
                Some((id, k2)) => match parse_str(b.skip(k1 + k2)) {
                    Some((user_id, k3)) => match parse_u64(b.skip(k1 + k2 + k3)) {
                        Some((at, k4)) => Some(
                            (
                                StoredExecutingTaskView { bytes, id, user_id, given_at: at as i64 },
                                k1 + k2 + k3 + k4,
                            ),
                        ),
                        None => None,
                    },
                    None => None,
                },
                None => None,
            },
            None => None,
        }
    }

    open spec fn fits(v: StoredExecutingTaskView) -> bool {
        &&& v.bytes.len() <= u64::MAX
        &&& encode_utf8(v.id).len() <= u64::MAX
        &&& encode_utf8(v.user_id).len() <= u64::MAX
    }

    open spec fn task_id(v: StoredExecutingTaskView) -> Seq<char> {
        v.id
    }

    open spec fn payload(v: StoredExecutingTaskView) -> Seq<u8> {
        v.bytes
    }

    fn payload_bytes(&self) -> (r: &Vec<u8>) {
        &self.bytes
    }

    fn id_text(&self) -> (r: &str) {
        self.id.as_str()
    }

    fn duplicate_record(&self) -> (r: Self) {
        self.duplicate()
    }

    proof fn lemma_round_trip(v: StoredExecutingTaskView, tail: Seq<u8>) {
        let stamp = spec_u64_to_le_bytes(v.given_at as u64);
        let t3 = stamp + tail;
        let t2 = enc_str(v.user_id) + t3;
        let t1 = enc_str(v.id) + t2;
        lemma_bytes_round_trip(v.bytes, t1);
        lemma_str_round_trip(v.id, t2);
        lemma_str_round_trip(v.user_id, t3);
        lemma_u64_round_trip(v.given_at as u64, tail);
        let whole = Self::enc(v) + tail;
        assert(whole =~= enc_bytes(v.bytes) + t1);
        let k1 = 8 + v.bytes.len() as int;
        let k2 = 8 + encode_utf8(v.id).len() as int;
        let k3 = 8 + encode_utf8(v.user_id).len() as int;
        assert(whole.skip(k1) == t1);
        assert(whole.skip(k1 + k2) =~= t1.skip(k2));
        assert(whole.skip(k1 + k2 + k3) =~= t2.skip(k3));
        let x = v.given_at;
        assert((x as u64) as i64 == x) by (bit_vector);
    }

    fn write(&self, out: &mut Vec<u8>) {
        write_bytes(out, self.bytes.as_slice());
        write_str(out, self.id.as_str());
        write_str(out, self.user_id.as_str());
        write_u64(out, #[verifier::truncate] (self.given_at as u64));
        assert(out@ =~= old(out)@ + Self::enc(self@));
    }

    fn read(bytes: &[u8], pos: usize) -> (r: Option<(Self, usize)>) {
        let ghost b = bytes@.skip(pos as int);
        let (payload, first_end) = match read_bytes(bytes, pos) {
            Some(x) => x,
            None => {
                return None;
            },
        };
        assert(b.skip(first_end - pos) =~= bytes@.skip(first_end as int));
        let (id, second_end) = match read_str(bytes, first_end) {
            Some(x) => x,
            None => {
                return None;
            },
        };
        assert(b.skip((first_end - pos) + (second_end - first_end)) =~= bytes@.skip(second_end as int));
        let (user_id, third_end) = match read_str(bytes, second_end) {
            Some(x) => x,
            None => {
                return None;
            },
        };
        assert(b.skip((first_end - pos) + (second_end - first_end) + (third_end - second_end)) =~= bytes@.skip(third_end as int));
        let (at, next) = match read_u64(bytes, third_end) {
            Some(x) => x,
            None => {
                return None;
            },
        };
        Some((StoredExecutingTask { bytes: payload, id, user_id, given_at: at as i64 }, next))
    }
}

/// Appends the encoding of a list of records.
pub fn write_list<T: Record>(out: &mut Vec<u8>, list: &Vec<T>)
    ensures
        final(out)@ == old(out)@ + enc_list(encoder::<T>(), views(list@)),
        views(list@).len() <= u64::MAX,
        forall|i: int| 0 <= i < list.len() ==> T::fits(#[trigger] views(list@)[i]),
{
    let ghost f = encoder::<T>();
    let ghost items = views(list@);
    write_u64(out, list.len() as u64);
    let ghost head = out@;
    let mut i: usize = 0;
    while i < list.len()
        invariant
            i <= list.len(),
            f == encoder::<T>(),
            items == views(list@),
            out@ == head + enc_seq(f, items.take(i as int)),
            forall|j: int| 0 <= j < i ==> T::fits(#[trigger] items[j]),
        decreases list.len() - i,
    {
        list[i].write(out);
        proof {
            lemma_enc_seq_push(f, items.take(i as int), items[i as int]);
            assert(items.take(i as int).push(items[i as int]) =~= items.take(i + 1));
            assert(out@ =~= head + enc_seq(f, items.take(i + 1)));
        }
        i += 1;
    }
    assert(items.take(i as int) =~= items);
    assert(out@ =~= old(out)@ + enc_list(f, items));
}

/// Reads a list of records at `pos`: the list and the place behind it.
pub fn read_list<T: Record>(bytes: &[u8], pos: usize) -> (r: Option<(Vec<T>, usize)>)
    requires
        pos <= bytes.len(),
    ensures
        match (parse_list(parser::<T>(), bytes@.skip(pos as int)), r) {
            (Some((s, k)), Some((list, next))) => views(list@) == s && next == pos + k && pos
                <= next <= bytes.len(),
            (None, None) => true,
            _ => false,
        },
{
    let ghost p = parser::<T>();
    let (n, start) = match read_u64(bytes, pos) {
        Some(x) => x,
        None => {
            return None;
        },
    };
    assert(bytes@.skip(pos as int).skip(8) =~= bytes@.skip(start as int));
    let mut items: Vec<T> = Vec::new();
    let mut at: usize = start;
    let mut i: u64 = 0;
    assert(views(items@) =~= Seq::<T::V>::empty());
    assert(parse_seq(p, bytes@.skip(start as int), n as nat) == (match parse_seq(
        p,
        bytes@.skip(at as int),
        (n - i) as nat,
    ) {
        Some((rest, m)) => Some((views(items@) + rest, (at - start) + m)),
        None => None,
    })) by {
        match parse_seq(p, bytes@.skip(at as int), (n - i) as nat) {
            Some((rest, m)) => {
                assert(views(items@) + rest =~= rest);
            },
            None => {},
        }
    }
    while i < n
        invariant
            p == parser::<T>(),
            start == pos + 8,
            start <= at <= bytes.len(),
            i <= n,
            parse_list(p, bytes@.skip(pos as int)) == (match parse_seq(
                p,
                bytes@.skip(start as int),
                n as nat,
            ) {
                Some((s, k)) => Some((s, 8 + k)),
                None => None,
            }),
            parse_seq(p, bytes@.skip(start as int), n as nat) == (match parse_seq(
                p,
                bytes@.skip(at as int),
                (n - i) as nat,
            ) {
                Some((rest, m)) => Some((views(items@) + rest, (at - start) + m)),
                None => None,
            }),
        decreases n - i,
    {
        let ghost before = views(items@);
        match T::read(bytes, at) {
            None => {
                return None;
            },
            Some((item, next)) => {
                proof {
                    assert(bytes@.skip(at as int).skip(next - at) =~= bytes@.skip(next as int));
                    match parse_seq(p, bytes@.skip(next as int), (n - i - 1) as nat) {
                        Some((rest, m)) => {
                            assert(before.push(item@) + rest =~= before + (seq![item@] + rest));
                        },
                        None => {},
                    }
                }
                items.push(item);
                assert(views(items@) =~= before.push(item@));
                at = next;
                i += 1;
            },
        }
    }
    assert(views(items@) + Seq::<T::V>::empty() =~= views(items@));
    Some((items, at))
}

/// The bytes that stand for an entry: the key's two parts, then the list.
pub open spec fn enc_entry<T: Record>(e: (IdView, Seq<T::V>)) -> Seq<u8> {
    enc_str(e.0.0) + enc_str(e.0.1) + enc_list(encoder::<T>(), e.1)
}

/// Reads an entry from the front of `b`.
pub open spec fn parse_entry<T: Record>(b: Seq<u8>) -> Option<((IdView, Seq<T::V>), int)> {
    match parse_str(b) {
        Some((namespace, k1)) => match parse_str(b.skip(k1)) {
            Some((name, k2)) => match parse_list(parser::<T>(), b.skip(k1 + k2)) {
                Some((items, k3)) => Some((((namespace, name), items), k1 + k2 + k3)),
                None => None,
            },
            None => None,
        },
        None => None,
    }
}

/// Whether every length in an entry can be written as a `u64`.
pub open spec fn entry_fits<T: Record>(e: (IdView, Seq<T::V>)) -> bool {
    &&& encode_utf8(e.0.0).len() <= u64::MAX
    &&& encode_utf8(e.0.1).len() <= u64::MAX
    &&& e.1.len() <= u64::MAX
    &&& forall|i: int| 0 <= i < e.1.len() ==> T::fits(#[trigger] e.1[i])
}

/// The encoder of entries as a function.
pub open spec fn entry_encoder<T: Record>() -> spec_fn((IdView, Seq<T::V>)) -> Seq<u8> {
    |e: (IdView, Seq<T::V>)| enc_entry::<T>(e)
}

/// The reader of entries as a function.
pub open spec fn entry_parser<T: Record>() -> spec_fn(Seq<u8>) -> Option<
    ((IdView, Seq<T::V>), int),
> {
    |b: Seq<u8>| parse_entry::<T>(b)
}

/// The bytes that stand for a collection, given as its entries in key order.
pub open spec fn enc_listing<T: Record>(es: Seq<(IdView, Seq<T::V>)>) -> Seq<u8> {
    enc_list(entry_encoder::<T>(), es)
}

/// Reads the entries of a collection from the front of `b`.
pub open spec fn parse_listing<T: Record>(b: Seq<u8>) -> Option<
    (Seq<(IdView, Seq<T::V>)>, int),
> {
    parse_list(entry_parser::<T>(), b)
}

/// Whether every length in a collection can be written as a `u64`.
pub open spec fn listing_fits<T: Record>(es: Seq<(IdView, Seq<T::V>)>) -> bool {
    &&& es.len() <= u64::MAX
    &&& forall|i: int| 0 <= i < es.len() ==> entry_fits::<T>(#[trigger] es[i])
}

/// An entry is read back from its encoding, whatever follows it.
pub proof fn lemma_entry_round_trip<T: Record>(e: (IdView, Seq<T::V>), tail: Seq<u8>)
    requires
        entry_fits::<T>(e),
    ensures
        parse_entry::<T>(enc_entry::<T>(e) + tail) == Some((e, enc_entry::<T>(e).len() as int)),
{
    let f = encoder::<T>();
    let p = parser::<T>();
    let t2 = enc_list(f, e.1) + tail;
    let t1 = enc_str(e.0.1) + t2;
    let whole = enc_entry::<T>(e) + tail;
    assert(whole =~= enc_str(e.0.0) + t1);
    lemma_str_round_trip(e.0.0, t1);
    lemma_str_round_trip(e.0.1, t2);
    assert forall|i: int, t: Seq<u8>| 0 <= i < e.1.len() implies #[trigger] p(f(e.1[i]) + t)
        == Some((e.1[i], f(e.1[i]).len() as int)) by {
        T::lemma_round_trip(e.1[i], t);
    }
    lemma_list_round_trip(f, p, e.1, tail);
    let k1 = 8 + encode_utf8(e.0.0).len() as int;
    let k2 = 8 + encode_utf8(e.0.1).len() as int;
    assert(whole.skip(k1) == t1);
    assert(whole.skip(k1 + k2) =~= t1.skip(k2));
}

/// The entries of a collection are read back from its encoding, whatever
/// follows it.
pub proof fn lemma_listing_round_trip<T: Record>(es: Seq<(IdView, Seq<T::V>)>, tail: Seq<u8>)
    requires
        listing_fits::<T>(es),
    ensures
        parse_listing::<T>(enc_listing::<T>(es) + tail) == Some(
            (es, enc_listing::<T>(es).len() as int),
        ),
{
    let f = entry_encoder::<T>();
    let p = entry_parser::<T>();
    assert forall|i: int, t: Seq<u8>| 0 <= i < es.len() implies #[trigger] p(f(es[i]) + t) == Some(
        (es[i], f(es[i]).len() as int),
    ) by {
        lemma_entry_round_trip::<T>(es[i], t);
    }
    lemma_list_round_trip(f, p, es, tail);
}

/// The key order that comes of inserting the entries one after another.
pub open spec fn built_order<X>(es: Seq<(IdView, X)>) -> Seq<IdView>
    decreases es.len(),
{
    if es.len() == 0 {
        Seq::empty()
    } else {
        touched(built_order(es.drop_last()), es.last().0)
    }
}

/// The map that comes of inserting the entries one after another: where a
/// key repeats, the later entry stands.
pub open spec fn built_map<X>(es: Seq<(IdView, X)>) -> Map<IdView, X>
    decreases es.len(),
{
    if es.len() == 0 {
        Map::empty()
    } else {
        built_map(es.drop_last()).insert(es.last().0, es.last().1)
    }
}

/// Inserting the entries of a map in key order builds that map again.
pub proof fn lemma_built_paired<X>(keys: Seq<IdView>, lists: Seq<X>)
    requires
        keys.no_duplicates(),
        keys.len() == lists.len(),
    ensures
        built_order(Seq::new(keys.len(), |i: int| (keys[i], lists[i]))) == keys,
        built_map(Seq::new(keys.len(), |i: int| (keys[i], lists[i]))) == crate::id_map::paired(
            keys,
            lists,
        ),
    decreases keys.len(),
{
    let es = Seq::new(keys.len(), |i: int| (keys[i], lists[i]));
    if keys.len() == 0 {
        assert(built_order(es) =~= keys);
        assert(built_map(es) =~= crate::id_map::paired(keys, lists));
    } else {
        let k0 = keys.drop_last();
        let l0 = lists.drop_last();
        let e0 = Seq::new(k0.len(), |i: int| (k0[i], l0[i]));
        assert(es.drop_last() =~= e0);
        lemma_built_paired(k0, l0);
        assert(!k0.contains(keys.last())) by {
            if k0.contains(keys.last()) {
                let j = k0.index_of(keys.last());
                assert(0 <= j < k0.len() && k0[j] == keys.last());
                assert(keys[j] == keys[keys.len() - 1]);
            }
        }
        crate::id_map::lemma_paired_push(k0, l0, keys.last(), lists.last());
        assert(k0.push(keys.last()) =~= keys);
        assert(l0.push(lists.last()) =~= lists);
    }
}

/// Encodes a collection.
pub fn encode_listing<T: Record>(m: &IdMap<Vec<T>>) -> (r: Vec<u8>)
    ensures
        r@ == enc_listing::<T>(m.shown().entries()),
        listing_fits::<T>(m.shown().entries()),
        m.shown().wf(),
{
    let ghost f = entry_encoder::<T>();
    let ghost es = m.listing();
    let mut out: Vec<u8> = Vec::new();
    let n = m.len();
    proof {
        assert forall|i: int| 0 <= i < es.len() implies es[i] == #[trigger] m.shown().entries()[i] by {
            lemma_paired_at(m.keys(), m.values(), i);
        }
        assert(es =~= m.shown().entries());
    }
    write_u64(&mut out, n as u64);
    let ghost head = out@;
    let mut i: usize = 0;
    while i < n
        invariant
            i <= n,
            n == m.keys().len(),
            n == m.values().len(),
            f == entry_encoder::<T>(),
            es == m.listing(),
            out@ == head + enc_seq(f, es.take(i as int)),
            forall|j: int| 0 <= j < i ==> entry_fits::<T>(#[trigger] es[j]),
        decreases n - i,
    {
        let key = m.key_at(i);
        let list = m.value_at(i);
        let ghost mid = out@;
        write_str(&mut out, key.0.as_str());
        write_str(&mut out, key.1.as_str());
        write_list(&mut out, list);
        proof {
            assert(out@ =~= mid + enc_entry::<T>(es[i as int]));
            lemma_enc_seq_push(f, es.take(i as int), es[i as int]);
            assert(es.take(i as int).push(es[i as int]) =~= es.take(i + 1));
            assert(out@ =~= head + enc_seq(f, es.take(i + 1)));
        }
        i += 1;
    }
    assert(es.take(i as int) =~= es);
    assert(out@ =~= enc_listing::<T>(es));
    out
}

/// Reads an entry at `pos`: its key, its list, and the place behind it.
pub fn read_entry<T: Record>(bytes: &[u8], pos: usize) -> (r: Option<(Identifier, Vec<T>, usize)>)
    requires
        pos <= bytes.len(),
    ensures
        match (parse_entry::<T>(bytes@.skip(pos as int)), r) {
            (Some((e, k)), Some((key, list, next))) => {
                &&& id_view(key) == e.0
                &&& views(list@) == e.1
                &&& next == pos + k
                &&& pos <= next <= bytes.len()
            },
            (None, None) => true,
            _ => false,
        },
{
    let ghost b = bytes@.skip(pos as int);
    let (namespace, first_end) = match read_str(bytes, pos) {
        Some(x) => x,
        None => {
            return None;
        },
    };
    assert(b.skip(first_end - pos) =~= bytes@.skip(first_end as int));
    let (name, second_end) = match read_str(bytes, first_end) {
        Some(x) => x,
        None => {
            return None;
        },
    };
    assert(b.skip((first_end - pos) + (second_end - first_end)) =~= bytes@.skip(second_end as int));
    let (list, next) = match read_list::<T>(bytes, second_end) {
        Some(x) => x,
        None => {
            return None;
        },
    };
    Some(((namespace, name), list, next))
}

/// Decodes a collection. Bytes behind the collection are ignored; where a key
/// repeats, the later entry stands.
pub fn decode_listing<T: Record>(bytes: &[u8]) -> (r: Option<IdMap<Vec<T>>>)
    ensures
        match (decoded::<T>(bytes@), r) {
            (Some(c), Some(m)) => m.shown() == c,
            (None, None) => true,
            _ => false,
        },
{
    let ghost p = entry_parser::<T>();
    assert(bytes@.skip(0) =~= bytes@);
    let (n, start) = match read_u64(bytes, 0) {
        Some(x) => x,
        None => {
            return None;
        },
    };
    let mut m: IdMap<Vec<T>> = IdMap::new();
    let ghost mut acc: Seq<(IdView, Seq<T::V>)> = Seq::empty();
    let mut at: usize = start;
    let mut i: u64 = 0;
    assert(m.deep() =~= built_map(acc));
    assert(parse_seq(p, bytes@.skip(start as int), n as nat) == (match parse_seq(
        p,
        bytes@.skip(at as int),
        (n - i) as nat,
    ) {
        Some((rest, k)) => Some((acc + rest, (at - start) + k)),
        None => None,
    })) by {
        match parse_seq(p, bytes@.skip(at as int), (n - i) as nat) {
            Some((rest, k)) => {
                assert(acc + rest =~= rest);
            },
            None => {},
        }
    }
    while i < n
        invariant
            p == entry_parser::<T>(),
            start == 8,
            start <= at <= bytes.len(),
            i <= n,
            m.keys() == built_order(acc),
            m.deep() == built_map(acc),
            parse_listing::<T>(bytes@) == (match parse_seq(p, bytes@.skip(start as int), n as nat) {
                Some((s, k)) => Some((s, 8 + k)),
                None => None,
            }),
            parse_seq(p, bytes@.skip(start as int), n as nat) == (match parse_seq(
                p,
                bytes@.skip(at as int),
                (n - i) as nat,
            ) {
                Some((rest, k)) => Some((acc + rest, (at - start) + k)),
                None => None,
            }),
        decreases n - i,
    {
        match read_entry::<T>(bytes, at) {
            None => {
                return None;
            },
            Some((key, list, next)) => {
                let ghost e = (id_view(key), views(list@));
                proof {
                    assert(bytes@.skip(at as int).skip(next - at) =~= bytes@.skip(next as int));
                    match parse_seq(p, bytes@.skip(next as int), (n - i - 1) as nat) {
                        Some((rest, k)) => {
                            assert(acc.push(e) + rest =~= acc + (seq![e] + rest));
                        },
                        None => {},
                    }
                    assert(acc.push(e).drop_last() =~= acc);
                }
                m.insert_list(key, list);
                proof {
                    acc = acc.push(e);
                }
                at = next;
                i += 1;
            },
        }
    }
    assert(acc + Seq::<(IdView, Seq<T::V>)>::empty() =~= acc);
    Some(m)
}

/// The collection that a map holds is well-formed.
pub proof fn lemma_shown_wf<T: View>(m: &IdMap<Vec<T>>)
    requires
        m.keys().no_duplicates(),
    ensures
        m.shown().wf(),
{
}

/// What reading a snapshot gives: the collection that `bytes` encode, if
/// they encode one. Where a key repeats, the later entry stands.
pub open spec fn decoded<T: Record>(bytes: Seq<u8>) -> Option<Listing<T::V>> {
    match parse_listing::<T>(bytes) {
        Some((es, _)) => Some(Listing { order: built_order(es), lists: built_map(es) }),
        None => None,
    }
}

/// The snapshot of a collection.
pub open spec fn snapshot_of<T: Record>(c: Listing<T::V>) -> Seq<u8> {
    enc_listing::<T>(c.entries())
}

/// A collection is read back from its snapshot, whatever follows the
/// snapshot: same keys in the same order, same lists.
pub proof fn lemma_snapshot_round_trip<T: Record>(c: Listing<T::V>, tail: Seq<u8>)
    requires
        c.wf(),
        listing_fits::<T>(c.entries()),
    ensures
        decoded::<T>(snapshot_of::<T>(c) + tail) == Some(c),
{
    let es = c.entries();
    let lists = Seq::new(c.order.len(), |i: int| c.lists[c.order[i]]);
    lemma_listing_round_trip::<T>(es, tail);
    lemma_built_paired(c.order, lists);
    assert(es =~= Seq::new(c.order.len(), |i: int| (c.order[i], lists[i])));
    assert(paired(c.order, lists) =~= c.lists) by {
        assert forall|k: IdView| c.lists.contains_key(k) implies #[trigger] paired(
            c.order,
            lists,
        )[k] == c.lists[k] by {
            assert(c.order.contains(k));
            let j = c.order.index_of(k);
            assert(0 <= j < c.order.len() && c.order[j] == k);
        }
    }
}

} // verus!
