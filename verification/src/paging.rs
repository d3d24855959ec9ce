//! Listings: tasks in ascending order of their ids, one page at a time.

use vstd::prelude::*;
use crate::id_map::views;
use crate::snapshot::Record;
use crate::text::{chars_of, lemma_lex_total, lemma_lex_trans, lex_le, text_le};

verus! {

/// Whether the id of `a` is ordered before the id of `b`, or is the same.
pub open spec fn id_le<T: Record>(a: T::V, b: T::V) -> bool {
    lex_le(T::task_id(a), T::task_id(b))
}

/// Whether the ids of `s` ascend.
pub open spec fn ascending<T: Record>(s: Seq<T::V>) -> bool {
    forall|i: int, j: int| 0 <= i < j < s.len() ==> id_le::<T>(s[i], s[j])
}

/// The place at which `x` enters an ascending sequence: behind everything
/// whose id is not ordered behind the id of `x`.
pub open spec fn entry_place<T: Record>(sorted: Seq<T::V>, x: T::V) -> int
    decreases sorted.len(),
{
    if sorted.len() == 0 {
        0
    } else if id_le::<T>(sorted.last(), x) {
        sorted.len() as int
    } else {
        entry_place::<T>(sorted.drop_last(), x)
    }
}

/// The records of `s` in ascending order of their ids; records with the same
/// id keep the order that they have in `s`.
pub open spec fn sorted_by_id<T: Record>(s: Seq<T::V>) -> Seq<T::V>
    decreases s.len(),
{
    if s.len() == 0 {
        Seq::empty()
    } else {
        let rest = sorted_by_id::<T>(s.drop_last());
        rest.insert(entry_place::<T>(rest, s.last()), s.last())
    }
}

/// Where a record enters: everything before that place is ordered before the
/// record, everything from that place on is ordered behind it.
pub proof fn lemma_entry_place<T: Record>(sorted: Seq<T::V>, x: T::V)
    requires
        ascending::<T>(sorted),
    ensures
        0 <= entry_place::<T>(sorted, x) <= sorted.len(),
        forall|i: int| 0 <= i < entry_place::<T>(sorted, x) ==> id_le::<T>(sorted[i], x),
        forall|i: int|
            entry_place::<T>(sorted, x) <= i < sorted.len() ==> !id_le::<T>(sorted[i], x),
    decreases sorted.len(),
{
    if sorted.len() == 0 {
    } else if id_le::<T>(sorted.last(), x) {
        assert forall|i: int| 0 <= i < sorted.len() implies id_le::<T>(sorted[i], x) by {
            if i < sorted.len() - 1 {
                assert(id_le::<T>(sorted[i], sorted[sorted.len() - 1]));
                lemma_lex_trans(T::task_id(sorted[i]), T::task_id(sorted.last()), T::task_id(x));
            }
        }
    } else {
        let front = sorted.drop_last();
        assert(ascending::<T>(front)) by {
            assert forall|i: int, j: int| 0 <= i < j < front.len() implies id_le::<T>(
                front[i],
                front[j],
            ) by {
                assert(front[i] == sorted[i] && front[j] == sorted[j]);
            }
        }
        lemma_entry_place::<T>(front, x);
        assert forall|i: int| 0 <= i < entry_place::<T>(sorted, x) implies id_le::<T>(
            sorted[i],
            x,
        ) by {
            assert(front[i] == sorted[i]);
        }
        assert forall|i: int| entry_place::<T>(sorted, x) <= i < sorted.len() implies !id_le::<T>(
            sorted[i],
            x,
        ) by {
            if i < sorted.len() - 1 {
                assert(front[i] == sorted[i]);
            }
        }
    }
}

/// The sorted sequence ascends and holds what the given sequence holds, each
/// record as often.
pub proof fn lemma_sorted_by_id<T: Record>(s: Seq<T::V>)
    ensures
        ascending::<T>(sorted_by_id::<T>(s)),
        sorted_by_id::<T>(s).len() == s.len(),
        sorted_by_id::<T>(s).to_multiset() == s.to_multiset(),
    decreases s.len(),
{
    broadcast use vstd::seq_lib::group_to_multiset_ensures;

    if s.len() == 0 {
        assert(sorted_by_id::<T>(s).to_multiset() =~= s.to_multiset());
    } else {
        let rest = sorted_by_id::<T>(s.drop_last());
        let x = s.last();
        lemma_sorted_by_id::<T>(s.drop_last());
        lemma_entry_place::<T>(rest, x);
        let p = entry_place::<T>(rest, x);
        let out = rest.insert(p, x);
        assert forall|i: int, j: int| 0 <= i < j < out.len() implies id_le::<T>(out[i], out[j]) by {
            if j == p {
                assert(out[i] == rest[i]);
            } else if i == p {
                assert(out[j] == rest[j - 1]);
                lemma_lex_total(T::task_id(rest[j - 1]), T::task_id(x));
            } else {
                let a = if i < p {
                    i
                } else {
                    i - 1
                };
                let b = if j < p {
                    j
                } else {
                    j - 1
                };
                assert(out[i] == rest[a] && out[j] == rest[b]);
            }
        }
        assert(s.drop_last().push(x) =~= s);
        assert(out.to_multiset() =~= s.to_multiset());
    }
}

/// The records of `list` in ascending order of their ids.
pub fn sort_by_id<T: Record>(list: &Vec<T>) -> (r: Vec<T>)
    ensures
        views(r@) == sorted_by_id::<T>(views(list@)),
        ascending::<T>(views(r@)),
        views(r@).to_multiset() == views(list@).to_multiset(),
{
    let ghost input = views(list@);
    let mut out: Vec<T> = Vec::new();
    let mut keys: Vec<Vec<char>> = Vec::new();
    let mut i: usize = 0;
    assert(views(out@) =~= sorted_by_id::<T>(input.take(0)));
    while i < list.len()
        invariant
            i <= list.len(),
            input == views(list@),
            out.len() == i,
            keys.len() == i,
            views(out@) == sorted_by_id::<T>(input.take(i as int)),
            forall|k: int| 0 <= k < i ==> (#[trigger] keys[k])@ == T::task_id(out[k]@),
        decreases list.len() - i,
    {
        let item = list[i].duplicate_record();
        let key = chars_of(item.id_text());
        let ghost before = views(out@);
        let ghost x = item@;
        proof {
            lemma_sorted_by_id::<T>(input.take(i as int));
            lemma_entry_place::<T>(before, x);
            assert(input.take(i + 1).drop_last() =~= input.take(i as int));
            assert(input.take(i + 1).last() == x);
        }
        let mut p: usize = i;
        assert(before.take(p as int) =~= before);
        while p > 0 && !text_le(&keys[p - 1], &key)
            invariant
                p <= i,
                out.len() == i,
                keys.len() == i,
                before == views(out@),
                key@ == T::task_id(x),
                forall|k: int| 0 <= k < i ==> (#[trigger] keys[k])@ == T::task_id(out[k]@),
                entry_place::<T>(before, x) == entry_place::<T>(before.take(p as int), x),
            decreases p,
        {
            proof {
                let front = before.take(p as int);
                assert(front.last() == before[p - 1]);
                assert(front.drop_last() =~= before.take(p - 1));
            }
            p -= 1;
        }
        proof {
            let front = before.take(p as int);
            if p > 0 {
                assert(front.last() == before[p - 1]);
            }
            assert(entry_place::<T>(before, x) == p);
        }
        out.insert(p, item);
        keys.insert(p, key);
        assert(views(out@) =~= before.insert(p as int, x));
        i += 1;
    }
    assert(input.take(i as int) =~= input);
    proof {
        lemma_sorted_by_id::<T>(input);
    }
    out
}

/// The least of three numbers.
pub open spec fn min3(a: int, b: int, c: int) -> int {
    if a <= b && a <= c {
        a
    } else if b <= c {
        b
    } else {
        c
    }
}

/// Page number `page` of `s` in pages of `size` items: it starts at item
/// `page * size` and holds at most `size` and at most `limit` items. Behind
/// the end of `s` the pages are empty.
pub open spec fn page_of<A>(s: Seq<A>, page: u64, size: u32, limit: u32) -> Seq<A> {
    let start = page * size;
    if start >= s.len() {
        Seq::empty()
    } else {
        s.subrange(start, start + min3(size as int, limit as int, s.len() - start))
    }
}

/// Where the limit does not cut the pages short, the pages up to a number
/// are, one after another, the front of the sequence: they leave nothing out
/// and hold nothing twice.
pub proof fn lemma_pages_tile<A>(s: Seq<A>, pages: u64, size: u32, limit: u32)
    requires
        limit >= size,
    ensures
        pages_up_to(s, pages as nat, size, limit) == s.take(
            if pages * size <= s.len() {
                pages * size
            } else {
                s.len() as int
            },
        ),
    decreases pages,
{
    if pages == 0 {
        assert(s.take(0) =~= Seq::<A>::empty());
    } else {
        let before = (pages - 1) as u64;
        lemma_pages_tile(s, before, size, limit);
        assert(before * size + size == pages * size) by (nonlinear_arith)
            requires
                before + 1 == pages,
        ;
        assert(pages_up_to(s, pages as nat, size, limit) =~= s.take(
            if pages * size <= s.len() {
                pages * size
            } else {
                s.len() as int
            },
        ));
    }
}

/// The first `pages` pages of `s`, one after another.
pub open spec fn pages_up_to<A>(s: Seq<A>, pages: nat, size: u32, limit: u32) -> Seq<A>
    decreases pages,
{
    if pages == 0 || pages > u64::MAX {
        Seq::empty()
    } else {
        pages_up_to(s, (pages - 1) as nat, size, limit) + page_of(
            s,
            (pages - 1) as u64,
            size,
            limit,
        )
    }
}

/// Page number `page` of `list`.
pub fn take_page<T: Record>(list: &Vec<T>, page: u64, size: u32, limit: u32) -> (r: Vec<T>)
    ensures
        views(r@) == page_of(views(list@), page, size, limit),
        ascending::<T>(views(list@)) ==> ascending::<T>(views(r@)),
{
    let mut r: Vec<T> = Vec::new();
    assert(page * size <= 0xffff_ffff_ffff_ffff * 0xffff_ffff) by (nonlinear_arith)
        requires
            0 <= page <= 0xffff_ffff_ffff_ffff,
            0 <= size <= 0xffff_ffff,
    ;
    let start: u128 = (page as u128) * (size as u128);
    if start >= list.len() as u128 {
        assert(views(r@) =~= Seq::<T::V>::empty());
        return r;
    }
    let first = start as usize;
    let left = list.len() - first;
    let mut count: usize = left;
    if (size as u128) < count as u128 {
        count = size as usize;
    }
    if (limit as u128) < count as u128 {
        count = limit as usize;
    }
    assert(count == min3(size as int, limit as int, list.len() - start));
    let mut i: usize = 0;
    while i < count
        invariant
            i <= count,
            first + count <= list.len(),
            r.len() == i,
            forall|k: int| 0 <= k < i ==> r[k]@ == list[first + k]@,
        decreases count - i,
    {
        r.push(list[first + i].duplicate_record());
        i += 1;
    }
    assert(views(r@) =~= views(list@).subrange(first as int, first + count));
    assert(ascending::<T>(views(list@)) ==> ascending::<T>(views(r@))) by {
        if ascending::<T>(views(list@)) {
            assert forall|i: int, j: int| 0 <= i < j < r.len() implies id_le::<T>(
                views(r@)[i],
                views(r@)[j],
            ) by {
                assert(id_le::<T>(views(list@)[first + i], views(list@)[first + j]));
            }
        }
    }
    r
}

} // verus!
