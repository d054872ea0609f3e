//! Pending events in a binary heap, earliest first.

use crate::event::Event;
use vstd::multiset::Multiset;
use vstd::prelude::*;

verus! {

broadcast use vstd::seq_lib::group_to_multiset_ensures;

/// Pending events. The next one to leave is the earliest.
#[derive(Debug)]
pub struct EventQueue {
    heap: Vec<Event>,
}

/// The parent of a heap position.
spec fn parent(i: int) -> int {
    (i - 1) / 2
}

/// Whether the event at `i` does not fire before the one at its parent.
spec fn in_place(heap: Seq<Event>, i: int) -> bool {
    i == 0 || !heap[i].before(heap[parent(i)])
}

/// Whether every event is in place.
spec fn is_heap(heap: Seq<Event>) -> bool {
    forall|i: int| 0 <= i < heap.len() ==> #[trigger] in_place(heap, i)
}

/// Two positions exchanged.
spec fn swapped(s: Seq<Event>, i: int, j: int) -> Seq<Event> {
    s.update(i, s[j]).update(j, s[i])
}

/// Replacing one event replaces it in the multiset.
proof fn lemma_update_multiset(s: Seq<Event>, i: int, e: Event)
    requires
        0 <= i < s.len(),
    ensures
        s.update(i, e).to_multiset() == s.to_multiset().remove(s[i]).insert(e),
{
    let t = s.update(i, e);
    assert(t.remove(i) =~= s.remove(i));
    assert(t.remove(i).to_multiset() == t.to_multiset().remove(t[i]));
    assert(s.remove(i).to_multiset() == s.to_multiset().remove(s[i]));
    assert(t.contains(t[i]));
    assert(t.to_multiset().count(e) > 0);
    assert(t.to_multiset() =~= t.to_multiset().remove(e).insert(e));
}

/// Exchanging two positions keeps the multiset.
proof fn lemma_swap_multiset(s: Seq<Event>, i: int, j: int)
    requires
        0 <= i < s.len(),
        0 <= j < s.len(),
    ensures
        swapped(s, i, j).to_multiset() == s.to_multiset(),
{
    lemma_update_multiset(s, i, s[j]);
    let t = s.update(i, s[j]);
    lemma_update_multiset(t, j, s[i]);
    let m = s.to_multiset();
    assert(s.contains(s[i]) && s.contains(s[j]));
    assert(m.count(s[i]) > 0 && m.count(s[j]) > 0);
    if i == j {
        assert(swapped(s, i, j) =~= s);
    } else {
        assert(t[j] == s[j]);
        assert(m.remove(s[i]).insert(s[j]).remove(s[j]).insert(s[i]) =~= m);
    }
}

/// The root of a heap is the earliest event.
proof fn lemma_root_is_earliest(heap: Seq<Event>, i: int)
    requires
        is_heap(heap),
        0 <= i < heap.len(),
    ensures
        !heap[i].before(heap[0]),
    decreases i,
{
    if i > 0 {
        lemma_root_is_earliest(heap, parent(i));
        assert(in_place(heap, i));
    }
}

/// Moves the event at `at` up to its place.
fn sift_up(heap: &mut Vec<Event>, at: usize)
    requires
        at < old(heap)@.len(),
        forall|j: int| 0 <= j < old(heap)@.len() && j != at ==> #[trigger] in_place(old(heap)@, j),
        forall|j: int|
            0 < j < old(heap)@.len() && parent(j) == at && at > 0 ==> !(#[trigger] old(
                heap,
            )@[j]).before(old(heap)@[parent(at as int)]),
    ensures
        is_heap(final(heap)@),
        final(heap)@.to_multiset() == old(heap)@.to_multiset(),
{
    let mut i: usize = at;
    let ghost start = heap@;
    loop
        invariant
            i < heap@.len(),
            forall|j: int| 0 <= j < heap@.len() && j != i ==> #[trigger] in_place(heap@, j),
            forall|j: int|
                0 < j < heap@.len() && parent(j) == i && i > 0 ==> !(#[trigger] heap@[j]).before(
                    heap@[parent(i as int)],
                ),
            heap@.to_multiset() == start.to_multiset(),
        ensures
            is_heap(heap@),
            heap@.to_multiset() == start.to_multiset(),
        decreases i,
    {
        if i == 0 {
            break;
        }
        let p: usize = (i - 1) / 2;
        if !heap[i].fires_before(&heap[p]) {
            assert(in_place(heap@, i as int));
            break;
        }
        let ghost before = heap@;
        let up: Event = heap[i];
        let down: Event = heap[p];
        heap.set(i, down);
        heap.set(p, up);
        proof {
            assert(heap@ =~= swapped(before, i as int, p as int));
            lemma_swap_multiset(before, i as int, p as int);
            assert forall|j: int| 0 <= j < heap@.len() && j != p implies #[trigger] in_place(
                heap@,
                j,
            ) by {
                if j != i {
                    assert(in_place(before, j));
                    if parent(j) == i {
                        assert(!before[j].before(before[parent(i as int)]));
                    }
                }
                if p > 0 {
                    assert(in_place(before, p as int));
                }
            }
            assert forall|j: int|
                0 < j < heap@.len() && parent(j) == p && p > 0 implies !(
            #[trigger] heap@[j]).before(heap@[parent(p as int)]) by {
                assert(in_place(before, p as int));
                if j != i {
                    assert(in_place(before, j));
                }
            }
        }
        i = p;
    }
}

/// Moves the event at the root down to its place.
fn sift_down(heap: &mut Vec<Event>)
    requires
        old(heap)@.len() > 0,
        forall|j: int|
            0 < j < old(heap)@.len() && parent(j) != 0 ==> #[trigger] in_place(old(heap)@, j),
    ensures
        is_heap(final(heap)@),
        final(heap)@.to_multiset() == old(heap)@.to_multiset(),
{
    let n: usize = heap.len();
    let mut i: usize = 0;
    let ghost start = heap@;
    loop
        invariant
            n == heap@.len(),
            i < n,
            forall|j: int| 0 <= j < n && (j == 0 || parent(j) != i) ==> #[trigger] in_place(heap@, j),
            forall|j: int|
                0 < j < n && parent(j) == i && i > 0 ==> !(#[trigger] heap@[j]).before(
                    heap@[parent(i as int)],
                ),
            heap@.to_multiset() == start.to_multiset(),
        ensures
            is_heap(heap@),
            heap@.to_multiset() == start.to_multiset(),
        decreases n - i,
    {
        if i > (n - 1) / 2 || 2 * i + 1 >= n {
            proof {
                assert forall|j: int| 0 <= j < n implies #[trigger] in_place(heap@, j) by {
                    if j > 0 && parent(j) == i {
                        assert(j >= 2 * i + 1);
                    }
                }
            }
            break;
        }
        let left: usize = 2 * i + 1;
        let right: usize = left + 1;
        let least: usize = if right < n && heap[right].fires_before(&heap[left]) {
            right
        } else {
            left
        };
        if !heap[least].fires_before(&heap[i]) {
            proof {
                assert forall|j: int| 0 <= j < n implies #[trigger] in_place(heap@, j) by {
                    if j > 0 && parent(j) == i {
                        assert(j == left || j == right);
                    }
                }
            }
            break;
        }
        let ghost before = heap@;
        let up: Event = heap[least];
        let down: Event = heap[i];
        heap.set(least, down);
        heap.set(i, up);
        proof {
            assert(heap@ =~= swapped(before, least as int, i as int));
            lemma_swap_multiset(before, least as int, i as int);
            assert forall|j: int|
                0 <= j < n && (j == 0 || parent(j) != least) implies #[trigger] in_place(
                heap@,
                j,
            ) by {
                if j > 0 {
                    if parent(j) == i {
                        assert(j == left || j == right);
                    } else if j == i {
                        assert(!before[least as int].before(before[parent(i as int)]));
                    } else {
                        assert(in_place(before, j));
                    }
                }
            }
            assert forall|j: int|
                0 < j < n && parent(j) == least && least > 0 implies !(
            #[trigger] heap@[j]).before(heap@[parent(least as int)]) by {
                assert(in_place(before, j));
            }
        }
        i = least;
    }
}

impl EventQueue {
    #[verifier::type_invariant]
    spec fn ordered(self) -> bool {
        is_heap(self.heap@)
    }

    /// The pending events.
    pub closed spec fn view(&self) -> Multiset<Event> {
        self.heap@.to_multiset()
    }

    /// A queue without events.
    pub fn new() -> (q: Self)
        ensures
            q@ == Multiset::<Event>::empty(),
    {
        let q = EventQueue { heap: Vec::new() };
        proof {
            assert(q.heap@.to_multiset().len() == 0);
            assert(q@ =~= Multiset::<Event>::empty());
        }
        q
    }

    /// Counts the pending events.
    pub fn len(&self) -> (n: usize)
        ensures
            n == self@.len(),
    {
        self.heap.len()
    }

    /// Adds an event.
    pub fn push(&mut self, e: Event)
        ensures
            final(self)@ == old(self)@.insert(e),
    {
        proof {
            use_type_invariant(&*self);
        }
        let mut heap: Vec<Event> = Vec::new();
        std::mem::swap(&mut heap, &mut self.heap);
        let ghost before = heap@;
        heap.push(e);
        proof {
            assert forall|j: int|
                0 <= j < heap@.len() && j != before.len() implies #[trigger] in_place(
                heap@,
                j,
            ) by {
                assert(in_place(before, j));
            }
        }
        let last: usize = heap.len() - 1;
        sift_up(&mut heap, last);
        self.heap = heap;
    }

    /// Takes the earliest event.
    pub fn pop(&mut self) -> (next: Option<Event>)
        ensures
            match next {
                Some(e) => {
                    &&& old(self)@.count(e) > 0
                    &&& final(self)@ == old(self)@.remove(e)
                    &&& forall|x: Event| #[trigger] old(self)@.count(x) > 0 ==> !x.before(e)
                },
                None => old(self)@.len() == 0 && final(self)@ == old(self)@,
            },
    {
        proof {
            use_type_invariant(&*self);
        }
        let mut heap: Vec<Event> = Vec::new();
        std::mem::swap(&mut heap, &mut self.heap);
        let ghost before = heap@;
        proof {
            assert forall|x: Event| #[trigger] before.to_multiset().count(x) > 0 && before.len() > 0
                implies !x.before(before[0]) by {
                assert(before.contains(x));
                let i = choose|i: int| 0 <= i < before.len() && before[i] == x;
                lemma_root_is_earliest(before, i);
            }
        }
        let last: Event = match heap.pop() {
            Some(e) => e,
            None => {
                return None;
            },
        };
        let ghost shorter = heap@;
        proof {
            assert(before =~= shorter.push(last));
            assert(before.contains(before[0]));
            assert(before.to_multiset() == shorter.to_multiset().insert(last));
        }
        if heap.len() == 0 {
            self.heap = heap;
            proof {
                assert(self@ =~= before.to_multiset().remove(last));
            }
            return Some(last);
        }
        let first: Event = heap[0];
        heap.set(0, last);
        proof {
            lemma_update_multiset(shorter, 0, last);
            assert(shorter.contains(shorter[0]));
            assert(heap@.to_multiset() =~= before.to_multiset().remove(first));
            assert forall|j: int| 0 < j < heap@.len() && parent(j) != 0 implies #[trigger] in_place(
                heap@,
                j,
            ) by {
                assert(in_place(before, j));
            }
        }
        sift_down(&mut heap);
        self.heap = heap;
        Some(first)
    }
}

} // verus!
