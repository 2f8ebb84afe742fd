//! Prefetch support for the search loop.
//!
//! While the loop is still comparing at node `i`, the cache line that will
//! hold the descendants of `i` a few levels down can already be requested.
//! The hinted index is `MULTIPLIER * i + OFFSET`, masked by the smallest
//! all-ones binary value covering the buffer length so that the hint stays
//! near the buffer.  The hint is advisory only: no code reads through it,
//! and on builds without a prefetch instruction it is a no-op, so it plays
//! no part in the correctness argument.

use vstd::arithmetic::power2::lemma2_to64;
use vstd::arithmetic::power2::lemma_pow2_strictly_increases;
use vstd::arithmetic::power2::lemma_pow2_unfold;
use vstd::arithmetic::power2::pow2;
use vstd::prelude::*;
use vstd::std_specs::bits::u64_leading_zeros;

verus! {

/// The smallest value of the form `2^k - 1` that is at least `n`
/// (`0` when `n` is `0`).
pub open spec fn mask_for(n: int) -> int
    decreases n,
{
    if n <= 0 {
        0
    } else {
        2 * mask_for(n / 2) + 1
    }
}

/// The mask never outgrows an all-ones bound that covers `n`.
pub proof fn lemma_mask_bound(n: int, k: nat)
    requires
        0 <= n <= pow2(k) - 1,
    ensures
        0 <= mask_for(n) <= pow2(k) - 1,
    decreases n,
{
    if n > 0 {
        assert(pow2(k) >= 2);
        if k == 0 {
            assert(pow2(0) == 1) by {
                lemma2_to64();
            }
            assert(false);
        }
        lemma_pow2_unfold(k);
        lemma_mask_bound(n / 2, (k - 1) as nat);
    }
}

/// Shifting all-ones right by the leading zeros of `x` yields `mask_for(x)`.
pub proof fn lemma_mask_shift(x: u64)
    requires
        1 <= x,
    ensures
        0 <= u64_leading_zeros(x) <= 63,
        pow2((63 - u64_leading_zeros(x)) as nat) <= x,
        (u64::MAX >> (u64_leading_zeros(x) as u64)) == mask_for(x as int),
    decreases x,
{
    reveal_with_fuel(u64_leading_zeros, 2);
    let lz = u64_leading_zeros(x);
    if x == 1 {
        assert(u64_leading_zeros(0) == 64);
        assert(lz == 63);
        assert(pow2(0) == 1) by {
            lemma2_to64();
        }
        assert(u64::MAX >> 63u64 == 1u64) by (bit_vector);
        assert(mask_for(0) == 0);
        assert(mask_for(1) == 1);
    } else {
        lemma_mask_shift(x / 2);
        let s = u64_leading_zeros(x / 2);
        assert(lz == s - 1);
        if s == 0 {
            assert(pow2(63) <= x / 2);
            assert(pow2(63) == 0x8000_0000_0000_0000) by {
                lemma2_to64();
            }
            assert(false);
        }
        assert(pow2((63 - lz) as nat) == 2 * pow2((63 - s) as nat)) by {
            lemma_pow2_unfold((64 - s) as nat);
        }
        assert(u64::MAX >> ((s - 1) as u64) == 2 * (u64::MAX >> (s as u64)) + 1) by {
            let sv = s as u64;
            assert(1u64 <= sv <= 63 ==> u64::MAX >> ((sv - 1) as u64) == 2 * (u64::MAX >> sv)
                + 1) by (bit_vector);
        }
    }
}

/// The buffer length fits under an all-ones bound of the platform width,
/// so the mask fits in `usize`.
pub proof fn lemma_mask_fits(n: usize)
    ensures
        0 <= mask_for(n as int) <= usize::MAX,
{
    if usize::BITS == 32 {
        assert(pow2(32) - 1 == u32::MAX) by {
            lemma2_to64();
        }
        lemma_mask_bound(n as int, 32);
    } else {
        assert(usize::BITS == 64);
        assert(pow2(64) - 1 == u64::MAX) by {
            lemma2_to64();
        }
        lemma_mask_bound(n as int, 64);
    }
    if usize::MAX < mask_for(n as int) {
        lemma_pow2_strictly_increases(32, 64);
        assert(false);
    }
}

/// Mask that keeps a prefetch index near the buffer: the smallest binary
/// all-ones value covering the collection size `n`.
pub fn prefetch_mask(n: usize) -> (r: usize)
    ensures
        r == mask_for(n as int),
{
    proof {
        lemma_mask_fits(n);
    }
    if n > 0 {
        let x: u64 = n as u64;
        proof {
            lemma_mask_shift(x);
        }
        let lz: u32 = x.leading_zeros();
        (u64::MAX >> (lz as u64)) as usize
    } else {
        0
    }
}

/// Requests an early fetch of the cache line holding `items[offset]`.
///
/// Portable builds have no non-faulting prefetch instruction to issue, so
/// the hint does nothing; the search never reads through it, so behaviour
/// is identical either way.
pub fn do_prefetch(_items: &Vec<u64>, _offset: usize) {
}

} // verus!
