//! Recovering the answer from the out-of-range index where the search
//! loop stops.
//!
//! The loop doubles the index and adds the branch bit at every step, so the
//! final index spells out the whole root-to-leaf path in binary.  The last
//! node where the search went left (stored value `>= x`) is recovered by
//! shifting the final index right by its number of trailing one bits plus
//! one: the trailing ones are the right turns taken after that node, and the
//! single zero above them is the left turn itself.  `dec_spec` is the
//! arithmetic form of that shift, and `lemma_dec_shift` proves that the
//! trailing-ones bit trick computes it.

use vstd::prelude::*;
use vstd::std_specs::bits::axiom_u64_trailing_ones;
use vstd::std_specs::bits::u64_trailing_ones;

verus! {

/// Drop binary ones off the low end of `i` until a zero appears, then drop
/// that zero as well: the ancestor of `i` reached by the last left turn,
/// or `0` when the path from the root never turned left.
pub open spec fn dec_spec(i: int) -> int
    decreases i,
{
    if i < 1 {
        0
    } else if i % 2 == 1 {
        dec_spec(i / 2)
    } else {
        i / 2
    }
}

/// The decoded index is an ancestor, so at most half the final index.
pub proof fn lemma_dec_le(i: int)
    requires
        0 <= i,
    ensures
        0 <= dec_spec(i) <= i / 2,
    decreases i,
{
    if i >= 1 && i % 2 == 1 {
        lemma_dec_le(i / 2);
    }
}

proof fn lemma_bv_even_bit(x: u64)
    by (bit_vector)
    ensures
        ((x >> 0u64) & 1u64) == x % 2,
{
}

proof fn lemma_bv_half_shift(x: u64)
    by (bit_vector)
    ensures
        x >> 1u64 == x / 2,
{
}

proof fn lemma_bv_shift_chain(x: u64, a: u64)
    by (bit_vector)
    requires
        a <= 62,
    ensures
        (x >> 1u64) >> a == x >> ((a + 1) as u64),
{
}

proof fn lemma_bv_shr63(y: u64)
    by (bit_vector)
    requires
        y < 0x8000_0000_0000_0000u64,
    ensures
        y >> 63u64 == 0u64,
{
}

/// Shifting the final index right by its trailing ones plus one computes
/// `dec_spec`; when 63 or more low bits are ones the result is zero.
pub proof fn lemma_dec_shift(x: u64)
    ensures
        u64_trailing_ones(x) <= 62 ==> (x >> ((u64_trailing_ones(x) + 1) as u64)) == dec_spec(
            x as int,
        ),
        u64_trailing_ones(x) > 62 ==> dec_spec(x as int) == 0,
    decreases x,
{
    let t = u64_trailing_ones(x);
    axiom_u64_trailing_ones(x);
    if x % 2 == 0 {
        lemma_bv_even_bit(x);
        if t >= 1 {
            assert((x >> 0u64) & 1u64 == 1u64);
            assert(false);
        }
        lemma_bv_half_shift(x);
        assert(dec_spec(x as int) == x as int / 2);
    } else {
        if t == 0 {
            lemma_bv_even_bit(x);
            assert((x >> (t as u64)) & 1u64 == 0u64);
            assert(false);
        }
        let y = x / 2;
        lemma_dec_shift(y);
        let t2 = u64_trailing_ones(y);
        axiom_u64_trailing_ones(y);
        assert(y < 0xffff_ffff_ffff_ffffu64);
        assert(t2 < 64);
        lemma_bv_half_shift(x);
        assert forall|k: u64| k <= 62 implies (y >> k) & 1u64 == (x >> ((k + 1) as u64))
            & 1u64 by {
            lemma_bv_shift_chain(x, k);
        }
        if t <= t2 {
            assert((y >> ((t - 1) as u64)) & 1u64 == 1u64);
            assert((x >> (t as u64)) & 1u64 == 1u64) by {
                assert((y >> ((t - 1) as u64)) & 1u64 == (x >> (((t - 1) + 1) as u64)) & 1u64);
            }
            assert((x >> (t as u64)) & 1u64 == 0u64);
            assert(false);
        }
        if t > t2 + 1 {
            assert((x >> ((t2 + 1) as u64)) & 1u64 == 1u64);
            assert((y >> (t2 as u64)) & 1u64 == 1u64) by {
                assert((y >> (t2 as u64)) & 1u64 == (x >> ((t2 + 1) as u64)) & 1u64);
            }
            assert((y >> (t2 as u64)) & 1u64 == 0u64);
            assert(false);
        }
        assert(t == t2 + 1);
        assert(dec_spec(x as int) == dec_spec(y as int));
        if t2 <= 61 {
            lemma_bv_shift_chain(x, (t2 + 1) as u64);
            assert((x >> 1u64) >> ((t2 + 1) as u64) == x >> ((t2 + 2) as u64));
            assert(x >> ((t + 1) as u64) == y >> ((t2 + 1) as u64));
        } else if t2 == 62 {
            assert(y < 0x8000_0000_0000_0000u64);
            lemma_bv_shr63(y);
            assert(dec_spec(y as int) == y >> 63u64);
        }
    }
}

} // verus!
