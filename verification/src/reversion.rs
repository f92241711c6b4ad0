use vstd::prelude::*;

use crate::blade::{lemma_pop_bound, pop, popcount};

verus! {

/// Reversal negates a grade-k blade exactly when (-1)^(k(k-1)/2) is -1.
pub open spec fn reversal_negates_grade(k: int) -> bool {
    (k * (k - 1) / 2) % 2 != 0
}

/// Grade involution negates exactly the odd grades.
pub open spec fn involution_negates_grade(k: int) -> bool {
    k % 2 != 0
}

/// Whether reversal negates the basis blade `blade`: a grade-k blade picks up
/// (-1)^(k(k-1)/2).
pub fn reverse_negates(blade: u32) -> (r: bool)
    ensures
        r == reversal_negates_grade(pop(blade as nat) as int),
{
    proof {
        vstd::arithmetic::power2::lemma2_to64();
        lemma_pop_bound(blade as nat, 32);
    }
    let k = popcount(blade) as i32;
    assert(0 <= k * (k - 1) <= 32 * 31) by (nonlinear_arith)
        requires
            0 <= k <= 32,
    ;
    (k * (k - 1) / 2) % 2 != 0
}

/// Whether grade involution negates the basis blade `blade`: exactly when
/// its grade is odd.
pub fn involution_negates(blade: u32) -> (r: bool)
    ensures
        r == involution_negates_grade(pop(blade as nat) as int),
{
    popcount(blade) % 2 != 0
}

/// Reversal negates a grade-k blade exactly when k is 2 or 3 modulo 4.
pub proof fn lemma_reversal_period(k: nat)
    ensures
        reversal_negates_grade(k as int) == (k % 4 == 2 || k % 4 == 3),
{
    let q = k / 4;
    let r = k % 4;
    assert(k == 4 * q + r);
    assert((k * (k - 1)) as int == 2 * (8 * q * q + 4 * q * r - 2 * q) + r * (r - 1)) by (
    nonlinear_arith)
        requires
            k == 4 * q + r,
    ;
    let h = 8 * q * q + 4 * q * r - 2 * q;
    assert(h == 2 * (4 * q * q + 2 * q * r - q)) by (nonlinear_arith)
        requires
            h == 8 * q * q + 4 * q * r - 2 * q,
    ;
    if r == 0 {
        assert((k * (k - 1)) / 2 == h);
    } else if r == 1 {
        assert((k * (k - 1)) / 2 == h);
    } else if r == 2 {
        assert((k * (k - 1)) / 2 == h + 1);
    } else {
        assert((k * (k - 1)) / 2 == h + 3);
    }
}

/// The Clifford conjugate, reversal followed by grade involution, negates a
/// grade-k blade exactly when k is 1 or 2 modulo 4.
pub proof fn lemma_conjugation_negates(k: nat)
    ensures
        (reversal_negates_grade(k as int) != involution_negates_grade(k as int)) == (k % 4 == 1 || k
            % 4 == 2),
{
    lemma_reversal_period(k);
}

} // verus!
