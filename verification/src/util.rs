use vstd::prelude::*;

verus! {

/// `floor(log2(n))`, with the value 0 taken for both 0 and 1.
pub open spec fn log2_floor(n: nat) -> nat
    decreases n,
{
    if n <= 1 {
        0
    } else {
        1 + log2_floor(n / 2)
    }
}

/// Below `2^k` (for `k >= 1`) the floor of the logarithm is below `k`.
pub proof fn lemma_log2_floor_bound(n: nat, k: nat)
    requires
        k >= 1,
        n < vstd::arithmetic::power2::pow2(k),
    ensures
        log2_floor(n) < k,
    decreases k,
{
    if n > 1 {
        vstd::arithmetic::power2::lemma_pow2_unfold(k);
        if k > 1 {
            lemma_log2_floor_bound(n / 2, (k - 1) as nat);
        } else {
            vstd::arithmetic::power2::lemma2_to64();
        }
    }
}

/// The position of the highest set bit of `n` (0 for `n == 0`).
pub fn Log2FloorNonZero(n: u64) -> (r: u32)
    ensures
        r == log2_floor(n as nat),
        r < 64,
{
    let mut v: u64 = n;
    let mut result: u32 = 0;
    proof {
        vstd::arithmetic::power2::lemma2_to64();
        lemma_log2_floor_bound(n as nat, 64);
    }
    while v > 1
        invariant
            result + log2_floor(v as nat) == log2_floor(n as nat),
            log2_floor(n as nat) < 64,
        decreases v,
    {
        v = v / 2;
        result = result + 1;
    }
    result
}

pub fn brotli_max_size_t(a: usize, b: usize) -> (r: usize)
    ensures
        r == if a > b { a } else { b },
{
    if a > b {
        a
    } else {
        b
    }
}

} // verus!
