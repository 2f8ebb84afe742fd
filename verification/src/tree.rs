//! The implicit binary tree over buffer indices `1 .. len`: node `i` has
//! children `2i` and `2i + 1`, and index `0` holds an unused sentinel.
//!
//! `tsize`, `tstart` and `node_rank` describe the in-order structure of that
//! tree: `node_rank(len, i)` is the position node `i` takes when the tree is
//! walked left subtree, node, right subtree.  The layout invariant of the
//! collection says that the value stored at index `i` is the element of the
//! sorted sequence at position `node_rank(len, i)`.

use vstd::prelude::*;

verus! {

/// Number of nodes in the subtree rooted at `i`, counting only indices
/// below `len`.  The tree need not be full: indices at or beyond `len`
/// simply do not exist.
pub open spec fn tsize(len: int, i: int) -> nat
    decreases len - i,
{
    if 1 <= i && i < len {
        (1 + (if 2 * i < len {
            tsize(len, 2 * i)
        } else {
            0
        }) + (if 2 * i + 1 < len {
            tsize(len, 2 * i + 1)
        } else {
            0
        })) as nat
    } else {
        0
    }
}

/// Number of nodes that an in-order walk of the whole tree visits before
/// it enters the subtree rooted at `i`.
pub open spec fn tstart(len: int, i: int) -> int
    decreases i,
{
    if i <= 1 {
        0
    } else if i % 2 == 0 {
        tstart(len, i / 2)
    } else {
        tstart(len, i / 2) + tsize(len, i - 1) + 1
    }
}

/// One past the last in-order position of the subtree rooted at `i`.
pub open spec fn tend(len: int, i: int) -> int {
    tstart(len, i) + tsize(len, i)
}

/// In-order position of node `i` itself: its whole left subtree comes first.
pub open spec fn node_rank(len: int, i: int) -> int {
    tstart(len, i) + tsize(len, 2 * i)
}

/// Whether `i` is `j` or a proper ancestor of `j` in the implicit tree,
/// i.e. whether repeated halving of `j` reaches `i`.
pub open spec fn is_anc(i: int, j: int) -> bool
    decreases j,
{
    if j < 1 || j < i {
        false
    } else if j == i {
        true
    } else {
        is_anc(i, j / 2)
    }
}

/// An ancestor index is at most its descendant, and at least the root.
pub proof fn lemma_anc_ge(i: int, j: int)
    requires
        is_anc(i, j),
    ensures
        1 <= i <= j,
    decreases j,
{
    if j != i {
        lemma_anc_ge(i, j / 2);
    }
}

/// The root is an ancestor of every node.
pub proof fn lemma_anc_root(j: int)
    requires
        1 <= j,
    ensures
        is_anc(1, j),
    decreases j,
{
    if j > 1 {
        lemma_anc_root(j / 2);
    }
}

/// The subtree of `i` consists of `i` and the subtrees of its two children.
pub proof fn lemma_anc_children(i: int, j: int)
    requires
        1 <= i,
    ensures
        is_anc(i, j) <==> (j == i || is_anc(2 * i, j) || is_anc(2 * i + 1, j)),
    decreases j,
{
    if j < 1 || j < i {
        if is_anc(2 * i, j) {
            lemma_anc_ge(2 * i, j);
        }
        if is_anc(2 * i + 1, j) {
            lemma_anc_ge(2 * i + 1, j);
        }
    } else if j == i {
        if is_anc(2 * i, j) {
            lemma_anc_ge(2 * i, j);
        }
        if is_anc(2 * i + 1, j) {
            lemma_anc_ge(2 * i + 1, j);
        }
    } else {
        lemma_anc_children(i, j / 2);
    }
}

/// The subtrees of the two children of `i` are disjoint.
pub proof fn lemma_anc_disjoint(i: int, j: int)
    requires
        1 <= i,
    ensures
        !(is_anc(2 * i, j) && is_anc(2 * i + 1, j)),
    decreases j,
{
    if is_anc(2 * i, j) && is_anc(2 * i + 1, j) {
        lemma_anc_ge(2 * i + 1, j);
        if j == 2 * i + 1 {
            assert(is_anc(2 * i, j) == is_anc(2 * i, i));
            assert(!is_anc(2 * i, i));
        } else {
            lemma_anc_disjoint(i, j / 2);
        }
    }
}

/// Unfolding of `tsize` at an existing node, with both child terms present.
pub proof fn lemma_tsize_node(len: int, i: int)
    requires
        1 <= i < len,
    ensures
        tsize(len, i) == 1 + tsize(len, 2 * i) + tsize(len, 2 * i + 1),
{
    if 2 * i >= len {
        assert(tsize(len, 2 * i) == 0);
    }
    if 2 * i + 1 >= len {
        assert(tsize(len, 2 * i + 1) == 0);
    }
}

/// Growing the tree by one index adds one node to exactly the subtrees
/// rooted at the ancestors of the new index.
pub proof fn lemma_tsize_step(len: int, i: int)
    requires
        1 <= i,
        1 <= len,
    ensures
        tsize(len + 1, i) == tsize(len, i) + (if is_anc(i, len) {
            1int
        } else {
            0int
        }),
    decreases len - i,
{
    if i > len {
        assert(tsize(len + 1, i) == 0);
        assert(tsize(len, i) == 0);
    } else if i == len {
        assert(tsize(len + 1, len) == 1) by {
            lemma_tsize_node(len + 1, len);
        }
        assert(tsize(len, i) == 0);
    } else {
        lemma_tsize_node(len + 1, i);
        lemma_tsize_node(len, i);
        lemma_anc_children(i, len);
        lemma_anc_disjoint(i, len);
        if 2 * i <= len {
            lemma_tsize_step(len, 2 * i);
        } else {
            assert(tsize(len + 1, 2 * i) == 0);
            assert(tsize(len, 2 * i) == 0);
            assert(!is_anc(2 * i, len));
        }
        if 2 * i + 1 <= len {
            lemma_tsize_step(len, 2 * i + 1);
        } else {
            assert(tsize(len + 1, 2 * i + 1) == 0);
            assert(tsize(len, 2 * i + 1) == 0);
            assert(!is_anc(2 * i + 1, len));
        }
    }
}

/// The whole tree holds every index in `1 .. len`, once each.
pub proof fn lemma_tsize_root(len: int)
    requires
        1 <= len,
    ensures
        tsize(len, 1) == len - 1,
    decreases len,
{
    if len > 1 {
        lemma_tsize_root(len - 1);
        lemma_tsize_step(len - 1, 1);
        lemma_anc_root(len - 1);
    }
}

/// The in-order interval of any existing node lies within `0 .. len - 1`.
pub proof fn lemma_node_bounds(len: int, j: int)
    requires
        1 <= j < len,
    ensures
        0 <= tstart(len, j),
        tend(len, j) <= len - 1,
    decreases j,
{
    if j == 1 {
        lemma_tsize_root(len);
    } else {
        let p = j / 2;
        lemma_node_bounds(len, p);
        lemma_tsize_node(len, p);
    }
}

/// The in-order position of any existing node lies within `0 .. len - 1`,
/// strictly inside the node's own interval.
pub proof fn lemma_rank_bounds(len: int, j: int)
    requires
        1 <= j < len,
    ensures
        tstart(len, j) <= node_rank(len, j),
        node_rank(len, j) < tend(len, j),
        0 <= node_rank(len, j) < len - 1,
{
    lemma_node_bounds(len, j);
    lemma_tsize_node(len, j);
}

/// How the in-order intervals of the children of node `i` split the
/// interval of `i`: left subtree, then `i` itself, then right subtree.
pub proof fn lemma_children_intervals(len: int, i: int)
    requires
        1 <= i < len,
    ensures
        tstart(len, 2 * i) == tstart(len, i),
        tend(len, 2 * i) == node_rank(len, i),
        tstart(len, 2 * i + 1) == node_rank(len, i) + 1,
        tend(len, 2 * i + 1) == tend(len, i),
{
    lemma_tsize_node(len, i);
    assert(tstart(len, 2 * i) == tstart(len, i));
    assert(tstart(len, 2 * i + 1) == tstart(len, i) + tsize(len, 2 * i) + 1);
}

/// Index the search loop moves to from node `i`: twice `i`, plus one when
/// the query is larger than the stored value.
pub open spec fn probe_next(items: Seq<u64>, x: u64, i: int) -> int {
    2 * i + (if x > items[i] {
        1int
    } else {
        0int
    })
}

/// First out-of-range index the search loop reaches from `i`.
pub open spec fn probe_exit(items: Seq<u64>, x: u64, i: int) -> int
    decreases items.len() - i,
{
    if 1 <= i && i < items.len() {
        if probe_next(items, x, i) < items.len() {
            probe_exit(items, x, probe_next(items, x, i))
        } else {
            probe_next(items, x, i)
        }
    } else {
        i
    }
}

/// Number of stored values the search loop compares against, starting
/// from node `i`.
pub open spec fn probe_steps(items: Seq<u64>, x: u64, i: int) -> nat
    decreases items.len() - i,
{
    if 1 <= i && i < items.len() {
        if probe_next(items, x, i) < items.len() {
            1 + probe_steps(items, x, probe_next(items, x, i))
        } else {
            1
        }
    } else {
        0
    }
}

} // verus!
