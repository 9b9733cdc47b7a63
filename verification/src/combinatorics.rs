//! Binomial coefficients, used for combinatorial ranking of hands.

use vstd::prelude::*;
use vstd::arithmetic::power2::{pow2, lemma_pow2_strictly_increases, lemma2_to64};

verus! {

/// The binomial coefficient, by Pascal's rule.
pub open spec fn spec_binom(n: nat, k: nat) -> nat
    decreases n, k,
{
    if k == 0 {
        1
    } else if n == 0 {
        0
    } else {
        spec_binom((n - 1) as nat, (k - 1) as nat) + spec_binom((n - 1) as nat, k)
    }
}

/// Every binomial coefficient is bounded by the corresponding power of two.
pub proof fn lemma_binom_le_pow2(n: nat, k: nat)
    ensures
        spec_binom(n, k) <= pow2(n),
    decreases n, k,
{
    if k == 0 {
        vstd::arithmetic::power2::lemma_pow2_pos(n);
    } else if n == 0 {
    } else {
        lemma_binom_le_pow2((n - 1) as nat, (k - 1) as nat);
        lemma_binom_le_pow2((n - 1) as nat, k);
        assert(pow2(n) == 2 * pow2((n - 1) as nat)) by {
            vstd::arithmetic::power2::lemma_pow2_unfold(n);
        }
    }
}

/// Binomial coefficients grow with their upper argument.
pub proof fn lemma_binom_monotone(n1: nat, n2: nat, k: nat)
    requires
        n1 <= n2,
    ensures
        spec_binom(n1, k) <= spec_binom(n2, k),
    decreases n2 - n1,
{
    if n1 < n2 {
        lemma_binom_monotone(n1, (n2 - 1) as nat, k);
        if k > 0 {
            assert(spec_binom(n2, k)
                == spec_binom((n2 - 1) as nat, (k - 1) as nat) + spec_binom((n2 - 1) as nat, k));
        }
    }
}

/// The concrete binomial values that bound the sub-rank formulas.
pub proof fn lemma_binom_values()
    ensures
        spec_binom(0, 0) == 1,
        spec_binom(1, 0) == 1,
        spec_binom(2, 0) == 1,
        spec_binom(3, 0) == 1,
        spec_binom(4, 0) == 1,
        spec_binom(5, 0) == 1,
        spec_binom(6, 0) == 1,
        spec_binom(7, 0) == 1,
        spec_binom(8, 0) == 1,
        spec_binom(9, 0) == 1,
        spec_binom(10, 0) == 1,
        spec_binom(11, 0) == 1,
        spec_binom(12, 0) == 1,
        spec_binom(13, 0) == 1,
        spec_binom(0, 1) == 0,
        spec_binom(1, 1) == 1,
        spec_binom(2, 1) == 2,
        spec_binom(3, 1) == 3,
        spec_binom(4, 1) == 4,
        spec_binom(5, 1) == 5,
        spec_binom(6, 1) == 6,
        spec_binom(7, 1) == 7,
        spec_binom(8, 1) == 8,
        spec_binom(9, 1) == 9,
        spec_binom(10, 1) == 10,
        spec_binom(11, 1) == 11,
        spec_binom(12, 1) == 12,
        spec_binom(13, 1) == 13,
        spec_binom(0, 2) == 0,
        spec_binom(1, 2) == 0,
        spec_binom(2, 2) == 1,
        spec_binom(3, 2) == 3,
        spec_binom(4, 2) == 6,
        spec_binom(5, 2) == 10,
        spec_binom(6, 2) == 15,
        spec_binom(7, 2) == 21,
        spec_binom(8, 2) == 28,
        spec_binom(9, 2) == 36,
        spec_binom(10, 2) == 45,
        spec_binom(11, 2) == 55,
        spec_binom(12, 2) == 66,
        spec_binom(13, 2) == 78,
        spec_binom(0, 3) == 0,
        spec_binom(1, 3) == 0,
        spec_binom(2, 3) == 0,
        spec_binom(3, 3) == 1,
        spec_binom(4, 3) == 4,
        spec_binom(5, 3) == 10,
        spec_binom(6, 3) == 20,
        spec_binom(7, 3) == 35,
        spec_binom(8, 3) == 56,
        spec_binom(9, 3) == 84,
        spec_binom(10, 3) == 120,
        spec_binom(11, 3) == 165,
        spec_binom(12, 3) == 220,
        spec_binom(13, 3) == 286,
        spec_binom(0, 4) == 0,
        spec_binom(1, 4) == 0,
        spec_binom(2, 4) == 0,
        spec_binom(3, 4) == 0,
        spec_binom(4, 4) == 1,
        spec_binom(5, 4) == 5,
        spec_binom(6, 4) == 15,
        spec_binom(7, 4) == 35,
        spec_binom(8, 4) == 70,
        spec_binom(9, 4) == 126,
        spec_binom(10, 4) == 210,
        spec_binom(11, 4) == 330,
        spec_binom(12, 4) == 495,
        spec_binom(13, 4) == 715,
        spec_binom(0, 5) == 0,
        spec_binom(1, 5) == 0,
        spec_binom(2, 5) == 0,
        spec_binom(3, 5) == 0,
        spec_binom(4, 5) == 0,
        spec_binom(5, 5) == 1,
        spec_binom(6, 5) == 6,
        spec_binom(7, 5) == 21,
        spec_binom(8, 5) == 56,
        spec_binom(9, 5) == 126,
        spec_binom(10, 5) == 252,
        spec_binom(11, 5) == 462,
        spec_binom(12, 5) == 792,
        spec_binom(13, 5) == 1287,
{
    assert(spec_binom(13, 1) == spec_binom(12, 0) + spec_binom(12, 1));
    assert(spec_binom(0, 0) == 1);
    assert(spec_binom(1, 0) == 1);
    assert(spec_binom(2, 0) == 1);
    assert(spec_binom(3, 0) == 1);
    assert(spec_binom(4, 0) == 1);
    assert(spec_binom(5, 0) == 1);
    assert(spec_binom(6, 0) == 1);
    assert(spec_binom(7, 0) == 1);
    assert(spec_binom(8, 0) == 1);
    assert(spec_binom(9, 0) == 1);
    assert(spec_binom(10, 0) == 1);
    assert(spec_binom(11, 0) == 1);
    assert(spec_binom(12, 0) == 1);
    assert(spec_binom(0, 1) == 0);
    assert(spec_binom(1, 1) == 1);
    assert(spec_binom(2, 1) == 2);
    assert(spec_binom(3, 1) == 3);
    assert(spec_binom(4, 1) == 4);
    assert(spec_binom(5, 1) == 5);
    assert(spec_binom(6, 1) == 6);
    assert(spec_binom(7, 1) == 7);
    assert(spec_binom(8, 1) == 8);
    assert(spec_binom(9, 1) == 9);
    assert(spec_binom(10, 1) == 10);
    assert(spec_binom(11, 1) == 11);
    assert(spec_binom(12, 1) == 12);
    assert(spec_binom(0, 2) == 0);
    assert(spec_binom(1, 2) == 0);
    assert(spec_binom(2, 2) == 1);
    assert(spec_binom(3, 2) == 3);
    assert(spec_binom(4, 2) == 6);
    assert(spec_binom(5, 2) == 10);
    assert(spec_binom(6, 2) == 15);
    assert(spec_binom(7, 2) == 21);
    assert(spec_binom(8, 2) == 28);
    assert(spec_binom(9, 2) == 36);
    assert(spec_binom(10, 2) == 45);
    assert(spec_binom(11, 2) == 55);
    assert(spec_binom(12, 2) == 66);
    assert(spec_binom(13, 2) == 78);
    assert(spec_binom(0, 3) == 0);
    assert(spec_binom(1, 3) == 0);
    assert(spec_binom(2, 3) == 0);
    assert(spec_binom(3, 3) == 1);
    assert(spec_binom(4, 3) == 4);
    assert(spec_binom(5, 3) == 10);
    assert(spec_binom(6, 3) == 20);
    assert(spec_binom(7, 3) == 35);
    assert(spec_binom(8, 3) == 56);
    assert(spec_binom(9, 3) == 84);
    assert(spec_binom(10, 3) == 120);
    assert(spec_binom(11, 3) == 165);
    assert(spec_binom(12, 3) == 220);
    assert(spec_binom(13, 3) == 286);
    assert(spec_binom(0, 4) == 0);
    assert(spec_binom(1, 4) == 0);
    assert(spec_binom(2, 4) == 0);
    assert(spec_binom(3, 4) == 0);
    assert(spec_binom(4, 4) == 1);
    assert(spec_binom(5, 4) == 5);
    assert(spec_binom(6, 4) == 15);
    assert(spec_binom(7, 4) == 35);
    assert(spec_binom(8, 4) == 70);
    assert(spec_binom(9, 4) == 126);
    assert(spec_binom(10, 4) == 210);
    assert(spec_binom(11, 4) == 330);
    assert(spec_binom(0, 5) == 0);
    assert(spec_binom(1, 5) == 0);
    assert(spec_binom(2, 5) == 0);
    assert(spec_binom(3, 5) == 0);
    assert(spec_binom(4, 5) == 0);
    assert(spec_binom(5, 5) == 1);
    assert(spec_binom(6, 5) == 6);
    assert(spec_binom(7, 5) == 21);
    assert(spec_binom(8, 5) == 56);
    assert(spec_binom(9, 5) == 126);
    assert(spec_binom(10, 5) == 252);
    assert(spec_binom(11, 5) == 462);
    assert(spec_binom(12, 5) == 792);
}

/// Computes the binomial coefficient.  The bound on `n` keeps every
/// coefficient of the row within the result type: a row sums to `pow2(n)`,
/// so each entry stays below `pow2(30)`.
pub fn binom(n: u32, k: u32) -> (r: u32)
    requires
        n <= 30,
    ensures
        r as nat == spec_binom(n as nat, k as nat),
        r <= 0x4000_0000,
    decreases n, k,
{
    proof {
        lemma_binom_le_pow2(n as nat, k as nat);
        lemma2_to64();
        if n < 30 {
            lemma_pow2_strictly_increases(n as nat, 30);
        }
    }
    if k == 0 {
        1
    } else if n == 0 {
        0
    } else {
        let a = binom(n - 1, k - 1);
        let b = binom(n - 1, k);
        a + b
    }
}

} // verus!
