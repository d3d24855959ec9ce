//! A map keyed by identifier that remembers the order in which keys arrived.

use vstd::prelude::*;
use crate::{id_view, Identifier, IdView, same_id};

verus! {

/// An insertion-ordered map from identifiers to values.
///
/// No key occurs twice. The order of the keys is the order of their first
/// insertion; replacing a value keeps the key's place.
#[derive(Debug)]
pub struct IdMap<V> {
    entries: Vec<(Identifier, V)>,
}

/// The keys of a sequence of entries.
pub open spec fn entry_keys<V>(entries: Seq<(Identifier, V)>) -> Seq<IdView> {
    entries.map_values(|e: (Identifier, V)| id_view(e.0))
}

/// The values of a sequence of entries.
pub open spec fn entry_values<V>(entries: Seq<(Identifier, V)>) -> Seq<V> {
    entries.map_values(|e: (Identifier, V)| e.1)
}

/// The map that pairs each of `keys` with the value at the same place.
pub open spec fn paired<V>(keys: Seq<IdView>, values: Seq<V>) -> Map<IdView, V> {
    Map::new(|k: IdView| keys.contains(k), |k: IdView| values[keys.index_of(k)])
}

/// `order` with `key` appended unless it is there already.
pub open spec fn touched(order: Seq<IdView>, key: IdView) -> Seq<IdView> {
    if order.contains(key) {
        order
    } else {
        order.push(key)
    }
}

/// In a sequence without duplicates an element is found where it stands.
pub proof fn lemma_index_of<A>(s: Seq<A>, j: int)
    requires
        s.no_duplicates(),
        0 <= j < s.len(),
    ensures
        s.contains(s[j]),
        s.index_of(s[j]) == j,
{
    let i = s.index_of(s[j]);
    assert(0 <= i < s.len() && s[i] == s[j]);
}

/// What a paired map holds at the key of place `i`.
pub proof fn lemma_paired_at<V>(keys: Seq<IdView>, values: Seq<V>, i: int)
    requires
        keys.no_duplicates(),
        0 <= i < keys.len(),
    ensures
        paired(keys, values).contains_key(keys[i]),
        paired(keys, values)[keys[i]] == values[i],
{
    lemma_index_of(keys, i);
}

/// Replacing the value at place `i` is an insertion at that place's key.
pub proof fn lemma_paired_update<V>(keys: Seq<IdView>, values: Seq<V>, i: int, v: V)
    requires
        keys.no_duplicates(),
        keys.len() == values.len(),
        0 <= i < keys.len(),
    ensures
        paired(keys, values.update(i, v)) == paired(keys, values).insert(keys[i], v),
{
    let a = paired(keys, values.update(i, v));
    let b = paired(keys, values).insert(keys[i], v);
    assert forall|k: IdView| a.contains_key(k) implies #[trigger] a[k] == b[k] by {
        let j = keys.index_of(k);
        assert(0 <= j < keys.len() && keys[j] == k);
        lemma_index_of(keys, j);
        lemma_index_of(keys, i);
    }
    lemma_index_of(keys, i);
    assert(a =~= b);
}

/// Appending a fresh key with its value is an insertion.
pub proof fn lemma_paired_push<V>(keys: Seq<IdView>, values: Seq<V>, k: IdView, v: V)
    requires
        keys.no_duplicates(),
        keys.len() == values.len(),
        !keys.contains(k),
    ensures
        keys.push(k).no_duplicates(),
        paired(keys.push(k), values.push(v)) == paired(keys, values).insert(k, v),
{
    let keys2 = keys.push(k);
    let a = paired(keys2, values.push(v));
    let b = paired(keys, values).insert(k, v);
    assert(keys2.no_duplicates()) by {
        assert forall|i: int, j: int| 0 <= i < keys2.len() && 0 <= j < keys2.len() && i != j implies keys2[i]
            != keys2[j] by {
            if i < keys.len() && j < keys.len() {
            } else if i < keys.len() {
                assert(keys[i] == keys2[i]);
            } else {
                assert(keys[j] == keys2[j]);
            }
        }
    }
    assert(keys2[keys.len() as int] == k);
    assert forall|x: IdView| a.contains_key(x) <==> b.contains_key(x) by {
        if keys2.contains(x) {
            let j = keys2.index_of(x);
            assert(0 <= j < keys2.len() && keys2[j] == x);
            if j < keys.len() {
                assert(keys[j] == x);
            }
        }
        if keys.contains(x) {
            let j = keys.index_of(x);
            assert(0 <= j < keys.len() && keys[j] == x);
            assert(keys2[j] == x);
        }
    }
    assert forall|x: IdView| a.contains_key(x) implies #[trigger] a[x] == b[x] by {
        let j = keys2.index_of(x);
        assert(0 <= j < keys2.len() && keys2[j] == x);
        lemma_index_of(keys2, j);
        if j < keys.len() {
            assert(keys[j] == x);
            lemma_index_of(keys, j);
        }
    }
    assert(a =~= b);
}

impl<V> IdMap<V> {
    /// The keys, in order of first insertion.
    pub closed spec fn keys(&self) -> Seq<IdView> {
        entry_keys(self.entries@)
    }

    /// The values, in the order of their keys.
    pub closed spec fn values(&self) -> Seq<V> {
        entry_values(self.entries@)
    }

    #[verifier::type_invariant]
    spec fn distinct_keys(&self) -> bool {
        entry_keys(self.entries@).no_duplicates()
    }

    /// The map as a mathematical map.
    pub open spec fn view(&self) -> Map<IdView, V> {
        paired(self.keys(), self.values())
    }

    /// The empty map.
    pub fn new() -> (r: Self)
        ensures
            r.keys() == Seq::<IdView>::empty(),
            r.values() == Seq::<V>::empty(),
            r@ == Map::<IdView, V>::empty(),
    {
        let r = IdMap { entries: Vec::new() };
        assert(r.keys() =~= Seq::<IdView>::empty());
        assert(r.values() =~= Seq::<V>::empty());
        assert(r@ =~= Map::<IdView, V>::empty());
        r
    }

    /// Recalls what holds of every map: keys and values run in step, and no
    /// key repeats.
    pub fn shape(&self)
        ensures
            self.keys().len() == self.values().len(),
            self.keys().no_duplicates(),
    {
        proof {
            use_type_invariant(self);
        }
    }

    /// The number of keys.
    pub fn len(&self) -> (n: usize)
        ensures
            n == self.keys().len(),
            n == self.values().len(),
            self.keys().no_duplicates(),
    {
        proof {
            use_type_invariant(self);
        }
        self.entries.len()
    }

    /// The place of `key` among the keys, if it is one of them.
    pub fn position(&self, key: &Identifier) -> (r: Option<usize>)
        ensures
            self.keys().no_duplicates(),
            self.keys().len() == self.values().len(),
            match r {
                Some(i) => {
                    &&& i < self.keys().len()
                    &&& self.keys()[i as int] == id_view(*key)
                    &&& self.keys().contains(id_view(*key))
                    &&& self@.contains_key(id_view(*key))
                    &&& self@[id_view(*key)] == self.values()[i as int]
                },
                None => !self.keys().contains(id_view(*key)) && !self@.contains_key(id_view(*key)),
            },
    {
        proof {
            use_type_invariant(self);
        }
        let mut i: usize = 0;
        while i < self.entries.len()
            invariant
                i <= self.entries.len(),
                self.keys().no_duplicates(),
                forall|j: int| 0 <= j < i ==> self.keys()[j] != id_view(*key),
            decreases self.entries.len() - i,
        {
            if same_id(&self.entries[i].0, key) {
                proof {
                    lemma_paired_at(self.keys(), self.values(), i as int);
                }
                return Some(i);
            }
            i += 1;
        }
        None
    }

    /// Whether the map holds `key`.
    pub fn contains_key(&self, key: &Identifier) -> (r: bool)
        ensures
            r == self@.contains_key(id_view(*key)),
            r == self.keys().contains(id_view(*key)),
    {
        self.position(key).is_some()
    }

    /// The value at `key`, if the map holds it.
    pub fn get(&self, key: &Identifier) -> (r: Option<&V>)
        ensures
            match r {
                Some(v) => self@.contains_key(id_view(*key)) && *v == self@[id_view(*key)],
                None => !self@.contains_key(id_view(*key)),
            },
    {
        match self.position(key) {
            Some(i) => Some(&self.entries[i].1),
            None => None,
        }
    }

    /// The key at place `i`.
    pub fn key_at(&self, i: usize) -> (r: &Identifier)
        requires
            i < self.keys().len(),
        ensures
            id_view(*r) == self.keys()[i as int],
            self@.contains_key(id_view(*r)),
    {
        proof {
            use_type_invariant(self);
            lemma_paired_at(self.keys(), self.values(), i as int);
        }
        &self.entries[i].0
    }

    /// The value at place `i`.
    pub fn value_at(&self, i: usize) -> (r: &V)
        requires
            i < self.values().len(),
        ensures
            *r == self.values()[i as int],
            self@[self.keys()[i as int]] == *r,
    {
        proof {
            use_type_invariant(self);
            lemma_paired_at(self.keys(), self.values(), i as int);
        }
        &self.entries[i].1
    }

    /// Puts `value` at place `i` and hands back what stood there.
    pub fn replace_at(&mut self, i: usize, value: V) -> (prev: V)
        requires
            i < old(self).values().len(),
        ensures
            prev == old(self).values()[i as int],
            final(self).keys() == old(self).keys(),
            final(self).values() == old(self).values().update(i as int, value),
            final(self)@ == old(self)@.insert(old(self).keys()[i as int], value),
    {
        proof {
            use_type_invariant(&*self);
        }
        let mut entries: Vec<(Identifier, V)> = Vec::new();
        std::mem::swap(&mut self.entries, &mut entries);
        let mut slot = value;
        std::mem::swap(&mut entries[i].1, &mut slot);
        assert(entries@ =~= old(self).entries@.update(
            i as int,
            (old(self).entries@[i as int].0, value),
        ));
        assert(entry_keys(entries@) =~= old(self).keys());
        self.entries = entries;
        assert(self.keys() =~= old(self).keys());
        assert(self.values() =~= old(self).values().update(i as int, value));
        proof {
            lemma_paired_update(old(self).keys(), old(self).values(), i as int, value);
        }
        slot
    }

    /// Appends a key that the map does not hold yet.
    pub(crate) fn push_new(&mut self, key: Identifier, value: V)
        requires
            !old(self).keys().contains(id_view(key)),
        ensures
            final(self).keys() == old(self).keys().push(id_view(key)),
            final(self).values() == old(self).values().push(value),
            final(self)@ == old(self)@.insert(id_view(key), value),
    {
        proof {
            use_type_invariant(&*self);
            lemma_paired_push(old(self).keys(), old(self).values(), id_view(key), value);
        }
        let mut entries: Vec<(Identifier, V)> = Vec::new();
        std::mem::swap(&mut self.entries, &mut entries);
        entries.push((key, value));
        assert(entry_keys(entries@) =~= old(self).keys().push(id_view(key)));
        self.entries = entries;
        assert(self.keys() =~= old(self).keys().push(id_view(key)));
        assert(self.values() =~= old(self).values().push(value));
    }

    /// Binds `key` to `value`: in place where the key is known, at the end
    /// where it is new.
    pub fn insert(&mut self, key: Identifier, value: V)
        ensures
            final(self)@ == old(self)@.insert(id_view(key), value),
            final(self).keys() == touched(old(self).keys(), id_view(key)),
    {
        match self.position(&key) {
            Some(i) => {
                let _ = self.replace_at(i, value);
            },
            None => {
                self.push_new(key, value);
            },
        }
    }
}

impl<T> IdMap<Vec<T>> {
    /// The map of lists, each list as a sequence.
    pub open spec fn lists(&self) -> Map<IdView, Seq<T>> {
        Map::new(|k: IdView| self@.contains_key(k), |k: IdView| self@[k]@)
    }

    /// Appends `item` to the list at `key`, which is created where it is
    /// missing.
    pub fn push_item(&mut self, key: &Identifier, item: T)
        ensures
            final(self).keys() == touched(old(self).keys(), id_view(*key)),
            final(self).lists() == old(self).lists().insert(
                id_view(*key),
                list_of(old(self).lists(), id_view(*key)).push(item),
            ),
    {
        match self.position(key) {
            Some(i) => {
                let mut list = self.replace_at(i, Vec::new());
                list.push(item);
                let _ = self.replace_at(i, list);
                assert(self.lists() =~= old(self).lists().insert(
                    id_view(*key),
                    list_of(old(self).lists(), id_view(*key)).push(item),
                ));
            },
            None => {
                let mut list: Vec<T> = Vec::new();
                list.push(item);
                assert(list@ =~= Seq::<T>::empty().push(item));
                self.push_new(crate::clone_id(key), list);
                assert(self.lists() =~= old(self).lists().insert(
                    id_view(*key),
                    list_of(old(self).lists(), id_view(*key)).push(item),
                ));
            },
        }
    }
}

/// The values of a sequence of items.
pub open spec fn views<T: View>(items: Seq<T>) -> Seq<T::V> {
    items.map_values(|t: T| t@)
}

/// The list that a map of lists holds at `key`: empty where it holds none.
pub open spec fn list_of<X>(m: Map<IdView, Seq<X>>, key: IdView) -> Seq<X> {
    if m.contains_key(key) {
        m[key]
    } else {
        Seq::empty()
    }
}

/// A collection of lists by identifier: the identifiers in the order in
/// which they were first seen, and the list of each.
pub struct Listing<X> {
    pub order: Seq<IdView>,
    pub lists: Map<IdView, Seq<X>>,
}

impl<X> Listing<X> {
    /// The collection without any identifier.
    pub open spec fn empty() -> Listing<X> {
        Listing { order: Seq::empty(), lists: Map::empty() }
    }

    /// The list of `key`: empty where the collection has none.
    pub open spec fn at(self, key: IdView) -> Seq<X> {
        list_of(self.lists, key)
    }

    /// The collection with `list` as the list of `key`.
    pub open spec fn with(self, key: IdView, list: Seq<X>) -> Listing<X> {
        Listing { order: touched(self.order, key), lists: self.lists.insert(key, list) }
    }

    /// Whether the order names exactly the identifiers that have a list,
    /// each once.
    pub open spec fn wf(self) -> bool {
        &&& self.order.no_duplicates()
        &&& forall|k: IdView| self.lists.contains_key(k) <==> self.order.contains(k)
    }

    /// The identifiers with their lists, in order.
    pub open spec fn entries(self) -> Seq<(IdView, Seq<X>)> {
        Seq::new(self.order.len(), |i: int| (self.order[i], self.lists[self.order[i]]))
    }
}

impl<T: View> IdMap<Vec<T>> {
    /// The collection that this map holds, each item taken by its value.
    pub open spec fn shown(&self) -> Listing<T::V> {
        Listing { order: self.keys(), lists: self.deep() }
    }

    /// The map of lists, each item taken by its value.
    pub open spec fn deep(&self) -> Map<IdView, Seq<T::V>> {
        Map::new(|k: IdView| self@.contains_key(k), |k: IdView| views(self@[k]@))
    }

    /// Puts `list` at place `i` and hands back the list that stood there.
    pub fn set_list(&mut self, i: usize, list: Vec<T>) -> (prev: Vec<T>)
        requires
            i < old(self).keys().len(),
        ensures
            old(self).deep().contains_key(old(self).keys()[i as int]),
            views(prev@) == old(self).deep()[old(self).keys()[i as int]],
            prev == old(self).values()[i as int],
            final(self).keys() == old(self).keys(),
            final(self).deep() == old(self).deep().insert(old(self).keys()[i as int], views(list@)),
    {
        self.shape();
        proof {
            lemma_paired_at(self.keys(), self.values(), i as int);
        }
        let prev = self.replace_at(i, list);
        assert(self.deep() =~= old(self).deep().insert(old(self).keys()[i as int], views(list@)));
        prev
    }

    /// The keys with their lists, in the order of the keys.
    pub open spec fn listing(&self) -> Seq<(IdView, Seq<T::V>)> {
        Seq::new(self.keys().len(), |i: int| (self.keys()[i], views(self.values()[i]@)))
    }

    /// Binds `key` to `list`: in place where the key is known, at the end
    /// where it is new.
    pub fn insert_list(&mut self, key: Identifier, list: Vec<T>)
        ensures
            final(self).keys() == touched(old(self).keys(), id_view(key)),
            final(self).deep() == old(self).deep().insert(id_view(key), views(list@)),
    {
        self.insert(key, list);
        assert(self.deep() =~= old(self).deep().insert(id_view(key), views(list@)));
    }

    /// Makes sure that `key` has a list, an empty one if it had none.
    pub fn ensure_key(&mut self, key: &Identifier)
        ensures
            final(self).keys() == touched(old(self).keys(), id_view(*key)),
            final(self).deep() == old(self).deep().insert(
                id_view(*key),
                list_of(old(self).deep(), id_view(*key)),
            ),
    {
        match self.position(key) {
            Some(_) => {
                assert(self.deep() =~= old(self).deep().insert(
                    id_view(*key),
                    list_of(old(self).deep(), id_view(*key)),
                ));
            },
            None => {
                let list: Vec<T> = Vec::new();
                self.push_new(crate::clone_id(key), list);
                assert(views(list@) =~= Seq::<T::V>::empty());
                assert(self.deep() =~= old(self).deep().insert(
                    id_view(*key),
                    list_of(old(self).deep(), id_view(*key)),
                ));
            },
        }
    }

    /// Appends `item` to the list at `key`, which is created where it is
    /// missing.
    pub fn append(&mut self, key: &Identifier, item: T)
        ensures
            final(self).keys() == touched(old(self).keys(), id_view(*key)),
            final(self).deep() == old(self).deep().insert(
                id_view(*key),
                list_of(old(self).deep(), id_view(*key)).push(item@),
            ),
    {
        match self.position(key) {
            Some(i) => {
                let mut list = self.set_list(i, Vec::new());
                list.push(item);
                assert(views(list@) =~= list_of(old(self).deep(), id_view(*key)).push(item@));
                let _ = self.set_list(i, list);
                assert(self.deep() =~= old(self).deep().insert(
                    id_view(*key),
                    list_of(old(self).deep(), id_view(*key)).push(item@),
                ));
            },
            None => {
                let mut list: Vec<T> = Vec::new();
                list.push(item);
                assert(views(list@) =~= Seq::<T::V>::empty().push(item@));
                self.push_new(crate::clone_id(key), list);
                assert(self.deep() =~= old(self).deep().insert(
                    id_view(*key),
                    list_of(old(self).deep(), id_view(*key)).push(item@),
                ));
            },
        }
    }

    /// Takes the head of the list at `key`, if that list has one.
    pub fn take_first(&mut self, key: &Identifier) -> (r: Option<T>)
        ensures
            final(self).keys() == old(self).keys(),
            match r {
                Some(t) => {
                    &&& list_of(old(self).deep(), id_view(*key)).len() > 0
                    &&& t@ == list_of(old(self).deep(), id_view(*key))[0]
                    &&& final(self).deep() == old(self).deep().insert(
                        id_view(*key),
                        list_of(old(self).deep(), id_view(*key)).drop_first(),
                    )
                },
                None => {
                    &&& list_of(old(self).deep(), id_view(*key)).len() == 0
                    &&& final(self).deep() == old(self).deep()
                },
            },
    {
        match self.position(key) {
            Some(i) => {
                if self.value_at(i).len() == 0 {
                    assert(self.deep() =~= old(self).deep());
                    return None;
                }
                let mut list = self.set_list(i, Vec::new());
                let head = list.remove(0);
                assert(views(list@) =~= list_of(old(self).deep(), id_view(*key)).drop_first());
                let _ = self.set_list(i, list);
                assert(self.deep() =~= old(self).deep().insert(
                    id_view(*key),
                    list_of(old(self).deep(), id_view(*key)).drop_first(),
                ));
                Some(head)
            },
            None => None,
        }
    }
}

} // verus!
