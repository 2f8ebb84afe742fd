//! The collection itself: one contiguous buffer holding the sorted input
//! permuted into implicit-tree order, a builder that lays the buffer out,
//! and the branch-light successor search over it.

use crate::decode::dec_spec;
use crate::decode::lemma_dec_le;
use crate::decode::lemma_dec_shift;
use crate::prefetch::do_prefetch;
use crate::prefetch::prefetch_mask;
use crate::successor::find_gte_spec;
use crate::successor::first_at_least;
use crate::successor::lemma_first_at_least;
use crate::successor::lemma_first_at_least_is;
use crate::successor::sorted_seq;
use crate::tree::is_anc;
use crate::tree::lemma_anc_children;
use crate::tree::lemma_anc_disjoint;
use crate::tree::lemma_anc_ge;
use crate::tree::lemma_anc_root;
use crate::tree::lemma_children_intervals;
use crate::tree::lemma_rank_bounds;
use crate::tree::lemma_tsize_node;
use crate::tree::lemma_tsize_root;
use crate::tree::node_rank;
use crate::tree::probe_exit;
use crate::tree::probe_next;
use crate::tree::probe_steps;
use crate::tree::tend;
use crate::tree::tsize;
use crate::tree::tstart;
use vstd::prelude::*;

verus! {

/// Bytes per cache line assumed by the prefetch distance computation.
const CACHE_LINE_BYTES: usize = 64;

/// Bytes per stored value.
const VALUE_BYTES: usize = 8;

/// Levels-ahead factor: at this many descendants per node, one cache line
/// holds a whole tree level, so the hinted index is `MULTIPLIER * i`.
const MULTIPLIER: usize = CACHE_LINE_BYTES / VALUE_BYTES;

/// Bias half-way into the hinted level, so that however the level is
/// split across cache lines, at least half of it lands in the hinted one.
const OFFSET: usize = MULTIPLIER + MULTIPLIER / 2;

/// Relies on `<[u64]>::sort_unstable` (std): sorts the vector's contents
/// in non-decreasing order; the result is a permutation of the input.
#[verifier::external_body]
fn sort_in_place(v: &mut Vec<u64>)
    ensures
        final(v)@.len() == old(v)@.len(),
        sorted_seq(final(v)@),
        final(v)@.to_multiset() == old(v)@.to_multiset(),
{
    v.sort_unstable();
}

/// Writes the elements `src[pos ..]` into the subtree of `v` rooted at
/// index `i`, in order: left subtree, node, right subtree.  Because `src`
/// is consumed front to back, node `j` receives `src[node_rank(len, j)]`.
fn eytzinger_walk(v: &mut Vec<u64>, src: &Vec<u64>, i: usize, pos: usize) -> (new_pos: usize)
    requires
        1 <= i,
        pos == tstart(old(v)@.len() as int, i as int),
        pos + tsize(old(v)@.len() as int, i as int) <= src@.len(),
    ensures
        final(v)@.len() == old(v)@.len(),
        new_pos == pos + tsize(old(v)@.len() as int, i as int),
        forall|k: int|
            0 <= k < old(v)@.len() && !is_anc(i as int, k) ==> final(v)@[k] == old(v)@[k],
        forall|k: int|
            1 <= k < old(v)@.len() && is_anc(i as int, k) ==> final(v)@[k] == src@[node_rank(old(v)@.len() as int, k)],
    decreases v@.len() - i,
{
    let len = v.len();
    let ghost leni = len as int;
    let ghost ii = i as int;
    if i >= len {
        proof {
            assert(tsize(leni, ii) == 0);
            assert forall|k: int| 1 <= k < leni && is_anc(ii, k) implies final(v)@[k] == src@[node_rank(leni, k)] by {
                lemma_anc_ge(ii, k);
            }
        }
        return pos;
    }
    proof {
        lemma_tsize_node(leni, ii);
    }
    let pos1 = if i <= (len - 1) / 2 {
        eytzinger_walk(v, src, 2 * i, pos)
    } else {
        proof {
            assert(tsize(leni, 2 * ii) == 0);
        }
        pos
    };
    let ghost v1 = v@;
    let src_len = src.len();
    proof {
        assert(pos1 == pos + tsize(leni, 2 * ii));
        assert((pos1 as int) + 1 <= src_len);
    }
    let value = src[pos1];
    v[i] = value;
    let ghost v2 = v@;
    let pos2 = if i <= (len - 2) / 2 {
        eytzinger_walk(v, src, 2 * i + 1, pos1 + 1)
    } else {
        proof {
            assert(tsize(leni, 2 * ii + 1) == 0);
        }
        pos1 + 1
    };
    proof {
        assert forall|k: int| 0 <= k < leni && !is_anc(ii, k) implies final(v)@[k] == old(v)@[k] by {
            lemma_anc_children(ii, k);
            if k >= 1 {
                if is_anc(2 * ii, k) {
                    lemma_anc_ge(2 * ii, k);
                }
                if is_anc(2 * ii + 1, k) {
                    lemma_anc_ge(2 * ii + 1, k);
                }
            }
        }
        assert forall|k: int| 1 <= k < leni && is_anc(ii, k) implies final(v)@[k] == src@[node_rank(leni, k)] by {
            lemma_anc_children(ii, k);
            lemma_anc_disjoint(ii, k);
            if k == ii {
                if is_anc(2 * ii + 1, ii) {
                    lemma_anc_ge(2 * ii + 1, ii);
                }
                assert(v2[k] == src@[pos1 as int]);
            } else if is_anc(2 * ii, k) {
                lemma_anc_ge(2 * ii, k);
                assert(v1[k] == src@[node_rank(leni, k)]);
            } else {
                lemma_anc_ge(2 * ii + 1, k);
            }
        }
    }
    pos2
}

/// A fixed set of values, queryable for the smallest element at least a
/// given key.
///
/// The buffer `items` holds the sorted input rearranged so that an
/// in-order walk of the implicit tree over indices `1 .. items.len()`
/// (children of `i` at `2i` and `2i + 1`; index `0` is an unused sentinel)
/// visits the values in non-decreasing order.  The view of the collection
/// is the sorted sequence itself.
pub struct OrderedCollection {
    items: Vec<u64>,
    sorted: Ghost<Seq<u64>>,
}

impl View for OrderedCollection {
    type V = Seq<u64>;

    closed spec fn view(&self) -> Seq<u64> {
        self.sorted@
    }
}

impl OrderedCollection {
    /// The layout invariant: the value at buffer index `j` is the element
    /// of the sorted sequence at the in-order position of node `j`.
    #[verifier::type_invariant]
    spec fn well_formed(self) -> bool {
        &&& self.items@.len() == self.sorted@.len() + 1
        &&& self.items@.len() <= usize::MAX as int / 2
        &&& sorted_seq(self.sorted@)
        &&& forall|j: int|
            1 <= j < self.items@.len() ==> 0 <= #[trigger] node_rank(self.items@.len() as int, j)
                < self.sorted@.len()
        &&& forall|j: int|
            1 <= j < self.items@.len() ==> #[trigger] self.items@[j] == self.sorted@[node_rank(self.items@.len() as int, j)]
    }

    /// Builds the buffer from an already sorted vector.
    fn build_sorted(src: &Vec<u64>) -> (r: OrderedCollection)
        requires
            sorted_seq(src@),
            src@.len() < usize::MAX / 2,
        ensures
            r@ == src@,
    {
        let n = src.len();
        let mut items: Vec<u64> = Vec::new();
        while items.len() < n + 1
            invariant
                items@.len() <= n + 1,
                n < usize::MAX / 2,
            decreases n + 1 - items@.len(),
        {
            items.push(0);
        }
        let ghost leni = items@.len() as int;
        proof {
            lemma_tsize_root(leni);
        }
        let _ = eytzinger_walk(&mut items, src, 1, 0);
        proof {
            assert forall|j: int| 1 <= j < leni implies #[trigger] items@[j] == src@[node_rank(leni, j)] by {
                lemma_anc_root(j);
            }
            assert forall|j: int| 1 <= j < leni implies 0 <= #[trigger] node_rank(leni, j)
                < src@.len() by {
                lemma_rank_bounds(leni, j);
            }
        }
        OrderedCollection { items, sorted: Ghost(src@) }
    }

    /// Builds a collection from a vector in any order by sorting it first.
    ///
    /// The resulting collection holds exactly the given values, in sorted
    /// order.
    pub fn from(v: Vec<u64>) -> (r: OrderedCollection)
        requires
            v@.len() < usize::MAX / 2,
        ensures
            r@.len() == v@.len(),
            r@.to_multiset() == v@.to_multiset(),
            sorted_seq(r@),
    {
        let mut v = v;
        sort_in_place(&mut v);
        Self::build_sorted(&v)
    }

    /// Builds a collection from a sorted, length-known sequence of values.
    ///
    /// Sortedness is a precondition, not something this constructor
    /// checks or establishes.
    pub fn from_sorted_iter(sorted: Vec<u64>) -> (r: OrderedCollection)
        requires
            sorted_seq(sorted@),
            sorted@.len() < usize::MAX / 2,
        ensures
            r@ == sorted@,
    {
        Self::build_sorted(&sorted)
    }

    /// Builds a collection in place over a mutable vector: the vector is
    /// sorted, and the collection is built from the sorted contents.
    pub fn from_slice(v: &mut Vec<u64>) -> (r: OrderedCollection)
        requires
            old(v)@.len() < usize::MAX / 2,
        ensures
            final(v)@.len() == old(v)@.len(),
            final(v)@.to_multiset() == old(v)@.to_multiset(),
            sorted_seq(final(v)@),
            r@ == final(v)@,
    {
        sort_in_place(v);
        Self::build_sorted(&*v)
    }

    /// Finds the smallest stored value `v` such that `v >= x`, or `None`
    /// when every stored value is below `x` or the collection is empty.
    pub fn find_gte(&self, x: u64) -> (r: Option<u64>)
        ensures
            r == find_gte_spec(self@, x),
    {
        self.find_gte_with(x, false)
    }

    /// The successor query, with its traversal mode as an explicit choice:
    /// with `early_exit` false the walk always runs root to leaf in
    /// `probe_steps` comparisons, independent of where the answer lies;
    /// with `early_exit` true it stops as soon as it reads a value equal
    /// to `x`.  Both modes return the same answer.
    pub fn find_gte_with(&self, x: u64, early_exit: bool) -> (r: Option<u64>)
        ensures
            r == find_gte_spec(self@, x),
    {
        proof {
            use_type_invariant(&*self);
        }
        let ghost s = self.sorted@;
        let ghost items = self.items@;
        let ghost leni = self.items@.len() as int;
        let ghost n = s.len() as int;
        let len = self.items.len();
        let mask = prefetch_mask(len);
        let mut i: usize = 1;
        let ghost mut steps: nat = 0;
        proof {
            lemma_tsize_root(leni);
            assert(dec_spec(0) == 0);
            assert(dec_spec(1) == 0);
        }
        while i < len
            invariant
                self.well_formed(),
                s == self.sorted@,
                items == self.items@,
                leni == items.len(),
                n == s.len(),
                len == leni,
                1 <= i as int,
                (i as int) < 2 * leni,
                forall|r: int| 0 <= r < tstart(leni, i as int) ==> s[r] < x,
                0 <= tstart(leni, i as int),
                tend(leni, i as int) <= n,
                tend(leni, i as int) == n || s[tend(leni, i as int)] >= x,
                dec_spec(i as int) == 0 ==> tend(leni, i as int) == n,
                1 <= dec_spec(i as int) ==> 1 <= dec_spec(i as int) < leni && node_rank(
                    leni,
                    dec_spec(i as int),
                ) == tend(leni, i as int) && tend(leni, i as int) < n,
                probe_exit(items, x, 1) == probe_exit(items, x, i as int),
                probe_steps(items, x, 1) == steps + probe_steps(items, x, i as int),
            decreases 2 * leni - i as int,
        {
            let ghost j = i as int;
            let offset = i.wrapping_mul(MULTIPLIER).wrapping_add(OFFSET) & mask;
            do_prefetch(&self.items, offset);
            let value = self.items[i];
            proof {
                lemma_children_intervals(leni, j);
                lemma_tsize_node(leni, j);
                lemma_rank_bounds(leni, j);
                assert(items[j] == s[node_rank(leni, j)]);
            }
            if early_exit && value == x {
                proof {
                    lemma_first_at_least(s, x);
                    let f = first_at_least(s, x);
                    let rk = node_rank(leni, j);
                    if f > rk {
                        assert(s[rk] < x);
                        assert(false);
                    }
                    assert(s[f] <= s[rk]);
                }
                return Some(value);
            }
            // Branch-free index update: the conditional below is a pure
            // data selection the compiler can lower without a jump.
            i = 2 * i + (if x > value {
                1
            } else {
                0
            });
            proof {
                steps = steps + 1;
                let rk = node_rank(leni, j);
                if x > items[j] {
                    assert(i as int == 2 * j + 1);
                    assert forall|r: int| 0 <= r < tstart(leni, i as int) implies s[r] < x by {
                        if r >= tstart(leni, j) {
                            assert(s[r] <= s[rk]);
                        }
                    }
                    assert(dec_spec(2 * j + 1) == dec_spec(j));
                } else {
                    assert(i as int == 2 * j);
                    assert(s[rk] >= x);
                    assert(dec_spec(2 * j) == j);
                }
                assert(probe_next(items, x, j) == i as int);
                assert(probe_exit(items, x, j) == probe_exit(items, x, i as int));
                assert(probe_steps(items, x, j) == 1 + probe_steps(items, x, i as int));
            }
        }
        proof {
            assert(tsize(leni, i as int) == 0);
            assert(steps == probe_steps(items, x, 1));
        }
        let x64: u64 = i as u64;
        let t: u32 = x64.trailing_ones();
        proof {
            lemma_dec_shift(x64);
            lemma_dec_le(x64 as int);
        }
        let d: usize = if t <= 62 {
            let sh: u64 = (t + 1) as u64;
            (x64 >> sh) as usize
        } else {
            0
        };
        proof {
            assert(d as int == dec_spec(i as int));
        }
        if d > 0 {
            proof {
                lemma_first_at_least_is(s, x, tstart(leni, i as int));
            }
            let r = self.items[d];
            proof {
                assert(items[d as int] == s[node_rank(leni, d as int)]);
            }
            Some(r)
        } else {
            proof {
                lemma_first_at_least_is(s, x, n);
            }
            None
        }
    }
}

} // verus!
