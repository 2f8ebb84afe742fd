//! What a successor query means: the first element of the sorted sequence
//! that is at least the query key.  `find_gte_spec` is the straightforward
//! linear-scan definition that the tree search is proved equal to.

use vstd::prelude::*;

verus! {

/// The sequence is in non-decreasing order.
pub open spec fn sorted_seq(s: Seq<u64>) -> bool {
    forall|a: int, b: int| 0 <= a <= b < s.len() ==> s[a] <= s[b]
}

/// Index of the first element that is `>= x`, scanning left to right;
/// `s.len()` when every element is smaller.
pub open spec fn first_at_least(s: Seq<u64>, x: u64) -> int
    decreases s.len(),
{
    if s.len() == 0 {
        0
    } else if s[0] >= x {
        0
    } else {
        1 + first_at_least(s.subrange(1, s.len() as int), x)
    }
}

/// The value a successor query must return: the element at the first
/// position that is `>= x`, or nothing when no element qualifies.
pub open spec fn find_gte_spec(s: Seq<u64>, x: u64) -> Option<u64> {
    if first_at_least(s, x) < s.len() {
        Some(s[first_at_least(s, x)])
    } else {
        None
    }
}

/// `first_at_least` is in range, everything before it is below `x`, and
/// the element at it (when it exists) is at least `x`.
pub proof fn lemma_first_at_least(s: Seq<u64>, x: u64)
    ensures
        0 <= first_at_least(s, x) <= s.len(),
        forall|j: int| 0 <= j < first_at_least(s, x) ==> s[j] < x,
        first_at_least(s, x) < s.len() ==> s[first_at_least(s, x)] >= x,
    decreases s.len(),
{
    if s.len() == 0 {
    } else if s[0] >= x {
    } else {
        let t = s.subrange(1, s.len() as int);
        lemma_first_at_least(t, x);
        assert forall|j: int| 0 <= j < first_at_least(s, x) implies s[j] < x by {
            if j > 0 {
                assert(t[j - 1] == s[j]);
            }
        }
        if first_at_least(s, x) < s.len() {
            assert(t[first_at_least(t, x)] == s[first_at_least(s, x)]);
        }
    }
}

/// A position with everything before it below `x` and itself (if present)
/// at least `x` is exactly `first_at_least`.
pub proof fn lemma_first_at_least_is(s: Seq<u64>, x: u64, k: int)
    requires
        0 <= k <= s.len(),
        forall|j: int| 0 <= j < k ==> s[j] < x,
        k < s.len() ==> s[k] >= x,
    ensures
        first_at_least(s, x) == k,
{
    lemma_first_at_least(s, x);
    let f = first_at_least(s, x);
    if f < k {
        assert(s[f] < x);
    }
    if f > k {
        assert(s[k] < x);
    }
}

} // verus!
