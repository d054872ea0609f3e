//! Stable ordering of sequences by an integer key.

use vstd::prelude::*;

verus! {

/// The place for a new item: behind the last one whose key is not greater.
pub open spec fn slot<T>(items: Seq<T>, key: spec_fn(T) -> int, item: T) -> int
    decreases items.len(),
{
    if items.len() == 0 {
        0
    } else if key(items.last()) <= key(item) {
        items.len() as int
    } else {
        slot(items.drop_last(), key, item)
    }
}

/// The items ordered by their keys; items with equal keys keep their order.
pub open spec fn sorted<T>(items: Seq<T>, key: spec_fn(T) -> int) -> Seq<T>
    decreases items.len(),
{
    if items.len() == 0 {
        Seq::empty()
    } else {
        let rest = sorted(items.drop_last(), key);
        rest.insert(slot(rest, key, items.last()), items.last())
    }
}

/// Whether the keys never decrease.
pub open spec fn ascending<T>(items: Seq<T>, key: spec_fn(T) -> int) -> bool {
    forall|i: int, j: int|
        0 <= i < j < items.len() ==> key(#[trigger] items[i]) <= key(#[trigger] items[j])
}

/// A slot splits an ascending sequence by key.
pub proof fn lemma_slot<T>(items: Seq<T>, key: spec_fn(T) -> int, item: T)
    requires
        ascending(items, key),
    ensures
        0 <= slot(items, key, item) <= items.len(),
        forall|i: int|
            0 <= i < slot(items, key, item) ==> key(#[trigger] items[i]) <= key(item),
        forall|i: int|
            slot(items, key, item) <= i < items.len() ==> key(#[trigger] items[i]) > key(item),
    decreases items.len(),
{
    if items.len() > 0 {
        let rest = items.drop_last();
        assert forall|i: int| 0 <= i < rest.len() implies rest[i] == #[trigger] items[i] by {}
        assert(ascending(rest, key)) by {
            assert forall|i: int, j: int| 0 <= i < j < rest.len() implies key(
                #[trigger] rest[i],
            ) <= key(#[trigger] rest[j]) by {
                assert(rest[i] == items[i] && rest[j] == items[j]);
            }
        }
        if key(items.last()) > key(item) {
            lemma_slot(rest, key, item);
            let k = slot(rest, key, item);
            assert forall|i: int| 0 <= i < k implies key(#[trigger] items[i]) <= key(item) by {
                assert(rest[i] == items[i]);
            }
            assert forall|i: int| k <= i < items.len() implies key(#[trigger] items[i]) > key(
                item,
            ) by {
                if i < rest.len() {
                    assert(rest[i] == items[i]);
                }
            }
        }
    }
}

/// Sorting yields ascending keys and keeps every item.
pub proof fn law_sorted<T>(items: Seq<T>, key: spec_fn(T) -> int)
    ensures
        ascending(sorted(items, key), key),
        sorted(items, key).len() == items.len(),
        sorted(items, key).to_multiset() == items.to_multiset(),
    decreases items.len(),
{
    broadcast use vstd::seq_lib::group_to_multiset_ensures;

    if items.len() > 0 {
        let item = items.last();
        let rest = sorted(items.drop_last(), key);
        law_sorted(items.drop_last(), key);
        lemma_slot(rest, key, item);
        let k = slot(rest, key, item);
        let all = rest.insert(k, item);
        assert forall|i: int, j: int| 0 <= i < j < all.len() implies key(#[trigger] all[i]) <= key(
            #[trigger] all[j],
        ) by {
            let a = if i < k {
                rest[i]
            } else if i == k {
                item
            } else {
                rest[i - 1]
            };
            let b = if j < k {
                rest[j]
            } else if j == k {
                item
            } else {
                rest[j - 1]
            };
            assert(all[i] == a && all[j] == b);
        }
        assert(items.drop_last().push(item) =~= items);
    }
}

/// Items of one key keep their order when they are sorted.
pub proof fn law_sorting_is_stable<T>(items: Seq<T>, key: spec_fn(T) -> int, value: int)
    ensures
        sorted(items, key).filter(|x: T| key(x) == value) =~= items.filter(
            |x: T| key(x) == value,
        ),
    decreases items.len(),
{
    let same = |x: T| key(x) == value;
    if items.len() > 0 {
        let item = items.last();
        let rest = sorted(items.drop_last(), key);
        law_sorting_is_stable(items.drop_last(), key, value);
        law_sorted(items.drop_last(), key);
        lemma_slot(rest, key, item);
        let k = slot(rest, key, item);
        let front = rest.take(k);
        let back = rest.skip(k);
        let one = seq![item];
        assert(rest =~= front + back);
        assert(rest.insert(k, item) =~= front + one + back);
        Seq::filter_distributes_over_add(front, back, same);
        Seq::filter_distributes_over_add(front, one, same);
        Seq::filter_distributes_over_add(front + one, back, same);
        assert(items =~= items.drop_last() + one);
        Seq::filter_distributes_over_add(items.drop_last(), one, same);
        lemma_one(item, same);
        if key(item) == value {
            assert forall|i: int| 0 <= i < back.len() implies !same(#[trigger] back[i]) by {
                assert(key(rest[k + i]) > key(item));
            }
            lemma_none(back, same);
        }
    } else {
        assert(sorted(items, key) =~= items);
    }
}

proof fn lemma_one<T>(item: T, cond: spec_fn(T) -> bool)
    ensures
        seq![item].filter(cond) =~= if cond(item) {
            seq![item]
        } else {
            Seq::empty()
        },
{
    reveal(Seq::filter);
    let one = seq![item];
    assert(one.drop_last() =~= Seq::<T>::empty());
    assert(one.drop_last().filter(cond) =~= Seq::<T>::empty());
}

proof fn lemma_none<T>(items: Seq<T>, cond: spec_fn(T) -> bool)
    requires
        forall|i: int| 0 <= i < items.len() ==> !cond(#[trigger] items[i]),
    ensures
        items.filter(cond) =~= Seq::empty(),
    decreases items.len(),
{
    reveal(Seq::filter);
    if items.len() > 0 {
        let rest = items.drop_last();
        assert forall|i: int| 0 <= i < rest.len() implies !cond(#[trigger] rest[i]) by {
            assert(!cond(items[i]));
        }
        lemma_none(rest, cond);
        assert(!cond(items[items.len() - 1]));
    }
}

} // verus!
