//! Base-2 logarithms of sizes.

use vstd::arithmetic::power2::{lemma2_to64, lemma2_to64_rest, lemma_pow2_strictly_increases, lemma_pow2_unfold, pow2};
use vstd::prelude::*;

verus! {

/// `k` is the base-2 logarithm of `n`, rounded down.
pub open spec fn is_floor_log2(n: int, k: int) -> bool {
    &&& 0 <= k
    &&& pow2(k as nat) <= n < pow2((k + 1) as nat)
}

/// `k` is the base-2 logarithm of `n`, rounded up: the least exponent whose
/// power of two is at least `n`.
pub open spec fn is_ceil_log2(n: int, k: int) -> bool {
    &&& 0 <= k
    &&& n <= pow2(k as nat)
    &&& k > 0 ==> pow2((k - 1) as nat) < n
}

/// A size has one logarithm rounded down.
pub proof fn lemma_floor_log2_unique(n: int, j: int, k: int)
    requires
        is_floor_log2(n, j),
        is_floor_log2(n, k),
    ensures
        j == k,
{
    if j < k {
        if j + 1 < k {
            lemma_pow2_strictly_increases((j + 1) as nat, k as nat);
        }
    } else if k < j {
        if k + 1 < j {
            lemma_pow2_strictly_increases((k + 1) as nat, j as nat);
        }
    }
}

/// A size has one logarithm rounded up.
pub proof fn lemma_ceil_log2_unique(n: int, j: int, k: int)
    requires
        is_ceil_log2(n, j),
        is_ceil_log2(n, k),
    ensures
        j == k,
{
    if j < k {
        if j < k - 1 {
            lemma_pow2_strictly_increases(j as nat, (k - 1) as nat);
        }
    } else if k < j {
        if k < j - 1 {
            lemma_pow2_strictly_increases(k as nat, (j - 1) as nat);
        }
    }
}

/// The base-2 logarithm of a positive size, rounded down.
pub fn floor_log2(n: usize) -> (k: u32)
    requires
        n > 0,
    ensures
        is_floor_log2(n as int, k as int),
        k < usize::BITS,
{
    let mut m: usize = n;
    let mut k: u32 = 0;
    proof {
        lemma2_to64();
    }
    while m > 1
        invariant
            m >= 1,
            k < usize::BITS,
            usize::BITS == 32 || usize::BITS == 64,
            m * pow2(k as nat) <= n < (m + 1) * pow2(k as nat),
        decreases m,
    {
        let half: usize = m / 2;
        proof {
            let w = pow2(k as nat) as int;
            lemma_pow2_unfold((k + 1) as nat);
            assert(pow2((k + 1) as nat) == 2 * w);
            assert(half * (2 * w) <= m * w) by (nonlinear_arith)
                requires
                    2 * half <= m,
                    w >= 0,
            ;
            assert((m + 1) * w <= (half + 1) * (2 * w)) by (nonlinear_arith)
                requires
                    m + 1 <= 2 * (half + 1),
                    w >= 0,
            ;
            if k + 1 >= usize::BITS {
                lemma2_to64();
                lemma2_to64_rest();
                if k + 1 > usize::BITS {
                    lemma_pow2_strictly_increases(usize::BITS as nat, (k + 1) as nat);
                }
                assert(half * (2 * w) >= 2 * w) by (nonlinear_arith)
                    requires
                        half >= 1,
                        w >= 0,
                ;
            }
        }
        m = half;
        k = k + 1;
    }
    proof {
        lemma_pow2_unfold((k + 1) as nat);
        assert(1 * pow2(k as nat) == pow2(k as nat)) by (nonlinear_arith);
        assert(2 * pow2(k as nat) == (1 + 1) * pow2(k as nat)) by (nonlinear_arith);
    }
    k
}

/// The base-2 logarithm of a size, rounded up.
pub fn ceil_log2(n: usize) -> (k: u32)
    ensures
        is_ceil_log2(n as int, k as int),
        k <= usize::BITS,
{
    proof {
        lemma2_to64();
    }
    if n <= 1 {
        0
    } else {
        let below: u32 = floor_log2(n - 1);
        below + 1
    }
}

} // verus!
