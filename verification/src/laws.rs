//! Properties of the successor query, stated over the sorted view that
//! `find_gte`'s contract speaks of and proved once and for all.

use crate::successor::find_gte_spec;
use crate::successor::first_at_least;
use crate::successor::lemma_first_at_least;
use crate::successor::sorted_seq;
use crate::tree::probe_next;
use crate::tree::probe_steps;
use vstd::arithmetic::power2::lemma2_to64;
use vstd::arithmetic::power2::lemma_pow2_unfold;
use vstd::arithmetic::power2::pow2;
use vstd::prelude::*;

verus! {

/// The query answers exactly what a straightforward scan of the sorted
/// sequence answers: the first element at least `x` when one exists
/// (and then no qualifying element is smaller), nothing otherwise.
pub proof fn lemma_query_is_linear_scan(s: Seq<u64>, x: u64)
    requires
        sorted_seq(s),
    ensures
        (match find_gte_spec(s, x) {
            Some(v) => s.contains(v) && v >= x && (forall|j: int|
                0 <= j < s.len() && s[j] >= x ==> v <= s[j]),
            None => forall|j: int| 0 <= j < s.len() ==> s[j] < x,
        }),
{
    lemma_first_at_least(s, x);
    let f = first_at_least(s, x);
    if f < s.len() {
        assert(s.contains(s[f])) by {
            assert(s[f] == s[f]);
        }
        assert forall|j: int| 0 <= j < s.len() && s[j] >= x implies s[f] <= s[j] by {
            if j < f {
                assert(s[j] < x);
            }
        }
    }
}

/// Repeated queries with the same key against an unmutated collection
/// return the same answer: the result is a function of the collection's
/// contents and the key alone.
pub proof fn lemma_query_repeatable(s: Seq<u64>, x: u64, r1: Option<u64>, r2: Option<u64>)
    requires
        r1 == find_gte_spec(s, x),
        r2 == find_gte_spec(s, x),
    ensures
        r1 == r2,
{
}

/// Every query against the empty collection returns nothing.
pub proof fn lemma_query_empty(s: Seq<u64>, x: u64)
    requires
        s.len() == 0,
    ensures
        find_gte_spec(s, x) is None,
{
}

/// Exact hits: querying for a stored value returns a stored value equal
/// to it (some occurrence of it, when duplicates exist).
pub proof fn lemma_query_exact_hit(s: Seq<u64>, v: u64)
    requires
        sorted_seq(s),
        s.contains(v),
    ensures
        find_gte_spec(s, v) == Some(v),
{
    lemma_first_at_least(s, v);
    let w = choose|w: int| 0 <= w < s.len() && s[w] == v;
    let f = first_at_least(s, v);
    if f > w {
        assert(s[w] < v);
    }
    assert(s[f] <= s[w]);
}

/// Monotonicity: raising the query key never lowers the answer.  When the
/// larger key still has a successor, so does the smaller one, and its
/// value is no greater.
pub proof fn lemma_query_monotone(s: Seq<u64>, x: u64)
    requires
        sorted_seq(s),
        x < u64::MAX,
    ensures
        (match (find_gte_spec(s, x), find_gte_spec(s, (x + 1) as u64)) {
            (Some(a), Some(b)) => a <= b,
            (None, Some(_)) => false,
            _ => true,
        }),
{
    lemma_first_at_least(s, x);
    lemma_first_at_least(s, (x + 1) as u64);
    let f1 = first_at_least(s, x);
    let f2 = first_at_least(s, (x + 1) as u64);
    if f2 < f1 {
        assert(s[f2] < x);
    }
    if f2 < s.len() {
        assert(s[f1] <= s[f2]);
    }
}

/// One step of the depth argument: from any index on tree level `t`, the
/// search loop runs for exactly `k - t` further comparisons when the
/// buffer length is `2^k`.
proof fn lemma_probe_depth_from(items: Seq<u64>, x: u64, i: int, t: nat, k: nat)
    requires
        items.len() == pow2(k),
        t < k,
        pow2(t) <= i < pow2(t + 1),
    ensures
        probe_steps(items, x, i) == k - t,
    decreases k - t,
{
    lemma_pow2_unfold(t + 1);
    assert(pow2(t) >= 1) by {
        vstd::arithmetic::power2::lemma_pow2_pos(t);
    }
    let nx = probe_next(items, x, i);
    assert(pow2(t + 1) <= nx < pow2(t + 2)) by {
        lemma_pow2_unfold(t + 2);
    }
    if t + 1 < k {
        assert(pow2(t + 2) <= pow2(k)) by {
            if t + 2 < k {
                vstd::arithmetic::power2::lemma_pow2_strictly_increases(t + 2, k);
            }
        }
        lemma_probe_depth_from(items, x, nx, t + 1, k);
    } else {
        assert(nx >= pow2(k));
    }
}

/// Fixed traversal depth: when the buffer length `n + 1` is `2^k` (the
/// implicit tree is complete), the search loop of `find_gte` compares the
/// key against exactly `k`, that is `log2(n + 1)`, stored values —
/// whatever the key is and wherever the answer lies.  For lengths that
/// are not a power of two the paths differ in length by one and no such
/// uniform count exists.
pub proof fn lemma_fixed_traversal_depth(items: Seq<u64>, x: u64, k: nat)
    requires
        1 <= k,
        items.len() == pow2(k),
    ensures
        probe_steps(items, x, 1) == k,
{
    assert(pow2(0) == 1 && pow2(1) == 2) by {
        lemma2_to64();
    }
    lemma_probe_depth_from(items, x, 1, 0, k);
}

} // verus!
