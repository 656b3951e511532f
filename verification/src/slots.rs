//! Slot tables: a vector of optional entries in which a released index is
//! handed out again, so that long-running registries do not grow with the
//! number of registrations ever made.

use vstd::prelude::*;

verus! {

/// `k` is the least index of `s` that holds no entry, or the length of `s`
/// when every index is taken.
pub open spec fn is_first_free<T>(s: Seq<Option<T>>, k: int) -> bool {
    &&& 0 <= k <= s.len()
    &&& k < s.len() ==> s[k] is None
    &&& forall|j: int| 0 <= j < k ==> (#[trigger] s[j]) is Some
}

/// The index that the next claimed entry gets.
pub open spec fn first_free<T>(s: Seq<Option<T>>) -> int {
    choose|k: int| is_first_free(s, k)
}

/// `s` with `value` stored at index `k`, growing by one when `k` is the length.
pub open spec fn put<T>(s: Seq<Option<T>>, k: int, value: T) -> Seq<Option<T>> {
    if 0 <= k < s.len() {
        s.update(k, Some(value))
    } else {
        s.push(Some(value))
    }
}

/// Whether index `k` of `s` holds an entry.
pub open spec fn taken<T>(s: Seq<Option<T>>, k: int) -> bool {
    0 <= k < s.len() && s[k] is Some
}

/// The first free index is unique: any index that qualifies is it.
pub proof fn lemma_first_free_is<T>(s: Seq<Option<T>>, k: int)
    requires
        is_first_free(s, k),
    ensures
        first_free(s) == k,
{
    let c = first_free(s);
    assert(is_first_free(s, c));
    if c < k {
        assert(s[c] is Some);
    } else if k < c {
        assert(s[k] is Some);
    }
}

/// Every table has a first free index, within its bounds or just past them.
pub proof fn lemma_first_free_exists<T>(s: Seq<Option<T>>)
    ensures
        is_first_free(s, first_free(s)),
    decreases s.len(),
{
    if s.len() == 0 {
        assert(is_first_free(s, 0));
    } else {
        let front = s.drop_last();
        lemma_first_free_exists(front);
        let c = first_free(front);
        if c < front.len() {
            assert(s[c] == front[c]);
            assert forall|j: int| 0 <= j < c implies (#[trigger] s[j]) is Some by {
                assert(s[j] == front[j]);
            }
            assert(is_first_free(s, c));
        } else if s.last() is None {
            assert forall|j: int| 0 <= j < s.len() - 1 implies (#[trigger] s[j]) is Some by {
                assert(s[j] == front[j]);
            }
            assert(is_first_free(s, s.len() - 1));
        } else {
            assert forall|j: int| 0 <= j < s.len() implies (#[trigger] s[j]) is Some by {
                if j < s.len() - 1 {
                    assert(s[j] == front[j]);
                }
            }
            assert(is_first_free(s, s.len() as int));
        }
    }
}

/// Stores `value` at the first free index of `slots` and returns that index.
pub fn claim<T>(slots: &mut Vec<Option<T>>, value: T) -> (k: usize)
    ensures
        k == first_free(old(slots)@),
        final(slots)@ == put(old(slots)@, k as int, value),
{
    let n = slots.len();
    let mut i: usize = 0;
    while i < n && slots[i].is_some()
        invariant
            i <= n,
            n == slots.len(),
            slots@ == old(slots)@,
            forall|j: int| 0 <= j < i ==> (#[trigger] slots@[j]) is Some,
        decreases n - i,
    {
        i += 1;
    }
    proof {
        lemma_first_free_is(slots@, i as int);
    }
    if i < n {
        slots[i] = Some(value);
    } else {
        slots.push(Some(value));
    }
    i
}

} // verus!
