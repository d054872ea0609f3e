//! First match in a sequence, and what sequences hold.

use vstd::prelude::*;

verus! {

/// The place of the first item that meets a condition.
pub open spec fn first_where<T>(items: Seq<T>, cond: spec_fn(T) -> bool) -> Option<int>
    decreases items.len(),
{
    if items.len() == 0 {
        None
    } else {
        match first_where(items.drop_last(), cond) {
            Some(i) => Some(i),
            None => if cond(items.last()) {
                Some(items.len() - 1)
            } else {
                None
            },
        }
    }
}

/// The first match is a match with none before it; without a first match
/// there is none at all.
pub proof fn law_first_where<T>(items: Seq<T>, cond: spec_fn(T) -> bool)
    ensures
        match first_where(items, cond) {
            Some(i) => 0 <= i < items.len() && cond(items[i]) && (forall|j: int|
                0 <= j < i ==> !cond(#[trigger] items[j])),
            None => forall|j: int| 0 <= j < items.len() ==> !cond(#[trigger] items[j]),
        },
    decreases items.len(),
{
    if items.len() > 0 {
        let rest = items.drop_last();
        law_first_where(rest, cond);
        match first_where(rest, cond) {
            Some(i) => {
                assert(rest[i] == items[i]);
                assert forall|j: int| 0 <= j < i implies !cond(#[trigger] items[j]) by {
                    assert(rest[j] == items[j]);
                }
            },
            None => {
                assert forall|j: int| 0 <= j < items.len() - 1 implies !cond(
                    #[trigger] items[j],
                ) by {
                    assert(rest[j] == items[j]);
                }
            },
        }
    }
}

/// A match with none before it is the first one.
pub proof fn lemma_found<T>(items: Seq<T>, cond: spec_fn(T) -> bool, i: int)
    requires
        0 <= i < items.len(),
        cond(items[i]),
        forall|j: int| 0 <= j < i ==> !cond(#[trigger] items[j]),
    ensures
        first_where(items, cond) == Some(i),
{
    law_first_where(items, cond);
    let k = first_where(items, cond);
    assert(cond(items[i]));
}

/// Without a match there is no first one.
pub proof fn lemma_not_found<T>(items: Seq<T>, cond: spec_fn(T) -> bool)
    requires
        forall|j: int| 0 <= j < items.len() ==> !cond(#[trigger] items[j]),
    ensures
        first_where(items, cond) is None,
{
    law_first_where(items, cond);
}

/// The place of the last item that meets a condition.
pub open spec fn last_where<T>(items: Seq<T>, cond: spec_fn(T) -> bool) -> Option<int>
    decreases items.len(),
{
    if items.len() == 0 {
        None
    } else if cond(items.last()) {
        Some(items.len() - 1)
    } else {
        last_where(items.drop_last(), cond)
    }
}

/// The last match is a match with none behind it; without a last match there
/// is none at all.
pub proof fn law_last_where<T>(items: Seq<T>, cond: spec_fn(T) -> bool)
    ensures
        match last_where(items, cond) {
            Some(i) => 0 <= i < items.len() && cond(items[i]) && (forall|j: int|
                i < j < items.len() ==> !cond(#[trigger] items[j])),
            None => forall|j: int| 0 <= j < items.len() ==> !cond(#[trigger] items[j]),
        },
    decreases items.len(),
{
    if items.len() > 0 && !cond(items.last()) {
        let rest = items.drop_last();
        law_last_where(rest, cond);
        assert forall|j: int| 0 <= j < rest.len() implies rest[j] == #[trigger] items[j] by {}
        match last_where(rest, cond) {
            Some(i) => {
                assert(rest[i] == items[i]);
                assert forall|j: int| i < j < items.len() implies !cond(#[trigger] items[j]) by {
                    if j < rest.len() {
                        assert(!cond(rest[j]));
                    }
                }
            },
            None => {
                assert forall|j: int| 0 <= j < items.len() implies !cond(#[trigger] items[j]) by {
                    if j < rest.len() {
                        assert(!cond(rest[j]));
                    }
                }
            },
        }
    }
}

/// A list with one more item holds that item and what it held.
pub proof fn lemma_push<T>(list: Seq<T>, last: T, x: T)
    ensures
        list.push(last).contains(x) <==> list.contains(x) || x == last,
{
    if list.contains(x) {
        let i = choose|i: int| 0 <= i < list.len() && list[i] == x;
        assert(list.push(last)[i] == x);
    }
    if x == last {
        assert(list.push(last)[list.len() as int] == x);
    }
    if list.push(last).contains(x) && x != last {
        let i = choose|i: int| 0 <= i < list.push(last).len() && list.push(last)[i] == x;
        assert(list[i] == x);
    }
}

/// A list holds its last item and what comes before it.
pub proof fn lemma_last<T>(list: Seq<T>, x: T)
    requires
        list.len() > 0,
    ensures
        list.contains(x) <==> list.drop_last().contains(x) || x == list.last(),
{
    assert(list.drop_last().push(list.last()) =~= list);
    lemma_push(list.drop_last(), list.last(), x);
}

/// Two lists in a row hold what either holds.
pub proof fn lemma_sum<T>(a: Seq<T>, b: Seq<T>, x: T)
    ensures
        (a + b).contains(x) <==> a.contains(x) || b.contains(x),
{
    if a.contains(x) {
        let k = choose|k: int| 0 <= k < a.len() && a[k] == x;
        assert((a + b)[k] == x);
    }
    if b.contains(x) {
        let k = choose|k: int| 0 <= k < b.len() && b[k] == x;
        assert((a + b)[a.len() + k] == x);
    }
    if (a + b).contains(x) {
        let k = choose|k: int| 0 <= k < (a + b).len() && (a + b)[k] == x;
        if k < a.len() {
            assert(a[k] == x);
        } else {
            assert(b[k - a.len()] == x);
        }
    }
}

} // verus!
