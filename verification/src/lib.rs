//! Successor search (`find_gte`) over a fixed set of values stored in
//! Eytzinger (implicit binary tree) order in one contiguous buffer.
//!
//! Build once with [`OrderedCollection::from`], [`OrderedCollection::from_sorted_iter`]
//! or [`OrderedCollection::from_slice`], then query many times with
//! [`OrderedCollection::find_gte`].

mod collection;
mod decode;
mod laws;
mod prefetch;
mod successor;
mod tree;

pub use collection::OrderedCollection;
pub use laws::lemma_fixed_traversal_depth;
pub use laws::lemma_query_empty;
pub use laws::lemma_query_exact_hit;
pub use laws::lemma_query_is_linear_scan;
pub use laws::lemma_query_monotone;
pub use laws::lemma_query_repeatable;
pub use prefetch::do_prefetch;
pub use prefetch::mask_for;
pub use prefetch::prefetch_mask;
pub use successor::find_gte_spec;
pub use successor::first_at_least;
pub use successor::sorted_seq;
pub use tree::probe_exit;
pub use tree::probe_next;
pub use tree::probe_steps;
