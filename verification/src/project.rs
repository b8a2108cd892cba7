//! The integer rules of a project file: which sample rates and block sizes a
//! project may declare.
use vstd::prelude::*;
use vstd::arithmetic::power2::pow2;

verus! {

/// The lowest and highest sample rates a project may declare.
pub const MIN_SAMPLE_RATE: u32 = 8000;
pub const MAX_SAMPLE_RATE: u32 = 192000;

/// The smallest and largest block sizes a project may declare.
pub const MIN_BUFFER_SIZE: usize = 64;
pub const MAX_BUFFER_SIZE: usize = 16384;

/// `n` is 2 raised to some power.
pub open spec fn is_power_of_two(n: nat) -> bool {
    exists|k: nat| #[trigger] pow2(k) == n
}

/// Whether `sample_rate` lies in [8000, 192000].
pub fn sample_rate_is_valid(sample_rate: u32) -> (ok: bool)
    ensures
        ok == (MIN_SAMPLE_RATE <= sample_rate <= MAX_SAMPLE_RATE),
{
    MIN_SAMPLE_RATE <= sample_rate && sample_rate <= MAX_SAMPLE_RATE
}

/// Whether `buffer_size` is a power of two in [64, 16384].
pub fn buffer_size_is_valid(buffer_size: usize) -> (ok: bool)
    ensures
        ok == (is_power_of_two(buffer_size as nat) && MIN_BUFFER_SIZE <= buffer_size
            <= MAX_BUFFER_SIZE),
{
    if buffer_size < MIN_BUFFER_SIZE || buffer_size > MAX_BUFFER_SIZE {
        return false;
    }
    let mut p: usize = MIN_BUFFER_SIZE;
    let ghost mut k: nat = 6;
    proof {
        vstd::arithmetic::power2::lemma2_to64();
    }
    while p < buffer_size
        invariant
            MIN_BUFFER_SIZE <= buffer_size <= MAX_BUFFER_SIZE,
            p == pow2(k),
            6 <= k,
            p <= MAX_BUFFER_SIZE,
            forall|j: nat| j < k ==> #[trigger] pow2(j) < buffer_size,
        decreases MAX_BUFFER_SIZE - p,
    {
        proof {
            vstd::arithmetic::power2::lemma2_to64();
            if k > 14 {
                vstd::arithmetic::power2::lemma_pow2_strictly_increases(14, k);
            }
            if k + 1 < 14 {
                vstd::arithmetic::power2::lemma_pow2_strictly_increases(k + 1, 14);
            }
            vstd::arithmetic::power2::lemma_pow2_unfold(k + 1);
            assert forall|j: nat| j < k + 1 implies #[trigger] pow2(j) < buffer_size by {
                if j < k {
                } else {
                    assert(j == k);
                }
            }
            k = k + 1;
        }
        p = p * 2;
    }
    proof {
        if p != buffer_size {
            assert forall|j: nat| #[trigger] pow2(j) != buffer_size by {
                if j > k {
                    vstd::arithmetic::power2::lemma_pow2_strictly_increases(k, j);
                }
            }
        }
    }
    p == buffer_size
}

} // verus!
