//! Lexicographic keys and the selection of the least or the greatest one.

use vstd::prelude::*;

verus! {

/// A lexicographic sort key. Components that an order does not use are zero.
#[derive(Debug, Clone, Copy, PartialEq, Eq, Structural)]
pub struct Key {
    pub k0: i128,
    pub k1: i128,
    pub k2: i128,
    pub k3: i128,
    pub k4: i128,
    pub k5: i128,
}

impl Key {
    /// The lexicographic order.
    pub open spec fn less(self, other: Key) -> bool {
        if self.k0 != other.k0 {
            self.k0 < other.k0
        } else if self.k1 != other.k1 {
            self.k1 < other.k1
        } else if self.k2 != other.k2 {
            self.k2 < other.k2
        } else if self.k3 != other.k3 {
            self.k3 < other.k3
        } else if self.k4 != other.k4 {
            self.k4 < other.k4
        } else {
            self.k5 < other.k5
        }
    }

    /// Compares two keys lexicographically.
    pub fn is_less(&self, other: &Key) -> (yes: bool)
        ensures
            yes == self.less(*other),
    {
        if self.k0 != other.k0 {
            self.k0 < other.k0
        } else if self.k1 != other.k1 {
            self.k1 < other.k1
        } else if self.k2 != other.k2 {
            self.k2 < other.k2
        } else if self.k3 != other.k3 {
            self.k3 < other.k3
        } else if self.k4 != other.k4 {
            self.k4 < other.k4
        } else {
            self.k5 < other.k5
        }
    }
}

/// The place of the least key, the first one where several are least.
pub open spec fn least(keys: Seq<Key>) -> Option<int>
    decreases keys.len(),
{
    if keys.len() == 0 {
        None
    } else {
        match least(keys.drop_last()) {
            None => Some(0),
            Some(i) => if keys.last().less(keys[i]) {
                Some(keys.len() - 1)
            } else {
                Some(i)
            },
        }
    }
}

/// The place of the greatest key, the last one where several are greatest.
pub open spec fn greatest(keys: Seq<Key>) -> Option<int>
    decreases keys.len(),
{
    if keys.len() == 0 {
        None
    } else {
        match greatest(keys.drop_last()) {
            None => Some(0),
            Some(i) => if keys.last().less(keys[i]) {
                Some(i)
            } else {
                Some(keys.len() - 1)
            },
        }
    }
}

/// The item at a place that was selected, if one was.
pub open spec fn item_at<T>(items: Seq<T>, place: Option<int>) -> Option<T> {
    match place {
        Some(i) => Some(items[i]),
        None => None,
    }
}

/// A least key is found exactly where there is one; nothing is less than it,
/// and it comes before everything that is not greater.
pub proof fn law_least_is_first_minimum(keys: Seq<Key>)
    ensures
        least(keys) is None <==> keys.len() == 0,
        least(keys) matches Some(i) ==> {
            &&& 0 <= i < keys.len()
            &&& forall|j: int| 0 <= j < keys.len() ==> !(#[trigger] keys[j]).less(keys[i])
            &&& forall|j: int| 0 <= j < i ==> keys[i].less(#[trigger] keys[j])
        },
    decreases keys.len(),
{
    if keys.len() > 0 {
        let rest = keys.drop_last();
        law_least_is_first_minimum(rest);
        if let Some(i) = least(rest) {
            assert(rest[i] == keys[i]);
            assert forall|j: int| 0 <= j < keys.len() implies !(#[trigger] keys[j]).less(
                keys[least(keys)->0],
            ) by {
                if j < rest.len() {
                    assert(rest[j] == keys[j]);
                }
            }
            assert forall|j: int| 0 <= j < least(keys)->0 implies keys[least(keys)->0].less(
                #[trigger] keys[j],
            ) by {
                assert(rest[j] == keys[j]);
            }
        }
    }
}

/// A greatest key is found exactly where there is one; nothing is greater than
/// it, and it comes after everything that is not less.
pub proof fn law_greatest_is_last_maximum(keys: Seq<Key>)
    ensures
        greatest(keys) is None <==> keys.len() == 0,
        greatest(keys) matches Some(i) ==> {
            &&& 0 <= i < keys.len()
            &&& forall|j: int| 0 <= j < keys.len() ==> !keys[i].less(#[trigger] keys[j])
            &&& forall|j: int| i < j < keys.len() ==> (#[trigger] keys[j]).less(keys[i])
        },
    decreases keys.len(),
{
    if keys.len() > 0 {
        let rest = keys.drop_last();
        law_greatest_is_last_maximum(rest);
        if let Some(i) = greatest(rest) {
            assert(rest[i] == keys[i]);
            assert forall|j: int| 0 <= j < keys.len() implies !keys[greatest(keys)->0].less(
                #[trigger] keys[j],
            ) by {
                if j < rest.len() {
                    assert(rest[j] == keys[j]);
                }
            }
            assert forall|j: int| greatest(keys)->0 < j < keys.len() implies (
                #[trigger] keys[j]).less(keys[greatest(keys)->0]) by {
                if j < rest.len() {
                    assert(rest[j] == keys[j]);
                }
            }
        }
    }
}

/// Finds the place of the least key.
pub fn find_least(keys: &Vec<Key>) -> (place: Option<usize>)
    ensures
        match place {
            Some(i) => i < keys@.len() && least(keys@) == Some(i as int),
            None => keys@.len() == 0 && least(keys@) is None,
        },
{
    if keys.len() == 0 {
        return None;
    }
    let mut at: usize = 0;
    let mut i: usize = 1;
    proof {
        assert(keys@.take(1).drop_last() =~= Seq::<Key>::empty());
        assert(least(keys@.take(1).drop_last()) is None);
    }
    while i < keys.len()
        invariant
            1 <= i <= keys@.len(),
            at < i,
            least(keys@.take(i as int)) == Some(at as int),
        decreases keys@.len() - i,
    {
        proof {
            assert(keys@.take(i as int + 1).drop_last() =~= keys@.take(i as int));
        }
        if keys[i].is_less(&keys[at]) {
            at = i;
        }
        i = i + 1;
    }
    proof {
        assert(keys@.take(i as int) =~= keys@);
    }
    Some(at)
}

/// Finds the place of the greatest key.
pub fn find_greatest(keys: &Vec<Key>) -> (place: Option<usize>)
    ensures
        match place {
            Some(i) => i < keys@.len() && greatest(keys@) == Some(i as int),
            None => keys@.len() == 0 && greatest(keys@) is None,
        },
{
    if keys.len() == 0 {
        return None;
    }
    let mut at: usize = 0;
    let mut i: usize = 1;
    proof {
        assert(keys@.take(1).drop_last() =~= Seq::<Key>::empty());
        assert(greatest(keys@.take(1).drop_last()) is None);
    }
    while i < keys.len()
        invariant
            1 <= i <= keys@.len(),
            at < i,
            greatest(keys@.take(i as int)) == Some(at as int),
        decreases keys@.len() - i,
    {
        proof {
            assert(keys@.take(i as int + 1).drop_last() =~= keys@.take(i as int));
        }
        if !keys[i].is_less(&keys[at]) {
            at = i;
        }
        i = i + 1;
    }
    proof {
        assert(keys@.take(i as int) =~= keys@);
    }
    Some(at)
}

} // verus!
