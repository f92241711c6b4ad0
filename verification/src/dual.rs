use vstd::prelude::*;

use crate::blade::{lemma_pop_table, pop, popcount};
use crate::product::{
    lemma_blade_sign_sorts_generators, lemma_sort_swaps_bits, outer_coefficient, sort_swaps_bits,
};

verus! {

/// Hodge complement slot of each blade: e1 <-> e032, e123 <-> e0, 1 <-> I.
const DUAL_DST: [usize; 16] = [15, 14, 13, 12, 11, 10, 9, 8, 7, 6, 5, 4, 3, 2, 1, 0];

/// Sign of each blade's complement in this basis order.
const DUAL_SIGN: [i8; 16] = [1, 1, 1, 1, 1, -1, 1, -1, 1, 1, -1, -1, 1, -1, -1, 1];

/// The slot of the Hodge complement of blade `blade`: the blade made of the
/// generators that `blade` lacks.
pub open spec fn dual_dst(blade: int) -> int {
    15 - blade
}

/// The sign the Hodge dual gives blade `blade` (PGA4CS Table 4, in the basis
/// order e1, e2, e3, e0 by bit).
pub open spec fn dual_sign(blade: int) -> int {
    if blade == 5 || blade == 7 || blade == 10 || blade == 11 || blade == 13 || blade == 14 {
        -1
    } else {
        1
    }
}

/// The sign the inverse dual gives blade `blade`: the dual's sign, negated
/// when the complement has odd grade.
pub open spec fn undual_sign(blade: int) -> int {
    if pop(dual_dst(blade) as nat) % 2 == 1 {
        -dual_sign(blade)
    } else {
        dual_sign(blade)
    }
}

/// The Hodge dual of the basis blade `blade`: the slot of its complement and
/// the sign it takes there.
pub fn dual_slot(blade: usize) -> (r: (usize, i8))
    requires
        blade < 16,
    ensures
        r.0 == dual_dst(blade as int),
        r.1 == dual_sign(blade as int),
{
    (DUAL_DST[blade], DUAL_SIGN[blade])
}

/// The inverse dual of the basis blade `blade`: the same slot as the dual,
/// with the sign negated when that slot has odd grade.
pub fn undual_slot(blade: usize) -> (r: (usize, i8))
    requires
        blade < 16,
    ensures
        r.0 == dual_dst(blade as int),
        r.1 == undual_sign(blade as int),
{
    let dst = DUAL_DST[blade];
    let sgn = DUAL_SIGN[blade];
    if popcount(dst as u32) % 2 != 0 {
        (dst, -sgn)
    } else {
        (dst, sgn)
    }
}

/// The dual sends a grade-k blade to a grade-(4 - k) blade.
pub proof fn lemma_dual_complements_grade(blade: int)
    requires
        0 <= blade < 16,
    ensures
        pop(dual_dst(blade) as nat) == 4 - pop(blade as nat),
{
    lemma_pop_table();
}

/// The product of two signs is 1 when they agree and -1 otherwise.
proof fn lemma_sign_times_sign(x: int, y: int)
    requires
        x == 1 || x == -1,
        y == 1 || y == -1,
    ensures
        x * y == (if x == y { 1int } else { -1int }),
{
    if x == 1 {
        if y == 1 {
            assert(x * y == 1);
        } else {
            assert(x * y == -1);
        }
    } else {
        if y == 1 {
            assert(x * y == -1);
        } else {
            assert(x * y == 1);
        }
    }
}

/// Dualizing twice gives (-1)^grade times the blade.
pub proof fn lemma_dual_twice(blade: int)
    requires
        0 <= blade < 16,
    ensures
        dual_dst(dual_dst(blade)) == blade,
        dual_sign(blade) * dual_sign(dual_dst(blade)) == (if pop(blade as nat) % 2 == 0 {
            1int
        } else {
            -1int
        }),
{
    lemma_pop_table();
    lemma_sign_times_sign(dual_sign(blade), dual_sign(dual_dst(blade)));
}

/// The inverse dual undoes the dual, and the dual undoes the inverse dual.
pub proof fn lemma_undual_inverts_dual(blade: int)
    requires
        0 <= blade < 16,
    ensures
        dual_sign(blade) * undual_sign(dual_dst(blade)) == 1,
        undual_sign(blade) * dual_sign(dual_dst(blade)) == 1,
{
    lemma_pop_table();
    lemma_sign_times_sign(dual_sign(blade), undual_sign(dual_dst(blade)));
    lemma_sign_times_sign(undual_sign(blade), dual_sign(dual_dst(blade)));
}


/// The dual slot is the complement: it shares no generator with the blade,
/// and together they hold all four, so their product lands on I.
pub proof fn lemma_dual_slot_is_complement(blade: u32)
    requires
        blade < 16,
    ensures
        0 <= dual_dst(blade as int) < 16,
        blade & (dual_dst(blade as int) as u32) == 0,
        blade ^ (dual_dst(blade as int) as u32) == 15,
        blade ^ 15u32 == dual_dst(blade as int),
{
    let d = blade ^ 15u32;
    assert(blade & d == 0 && blade ^ d == 15 && d + blade == 15) by (bit_vector)
        requires
            blade < 16,
            d == blade ^ 15u32,
    ;
}

/// For a blade of even grade (the scalar, the six bivectors and I), the
/// outer product of the blade with its dual is +I: the orientation the join
/// (regressive product) relies on, e.g. e12 ^ e3e0 = e23 ^ e1e0 = I.
pub proof fn lemma_even_blade_meets_dual_in_pseudoscalar(blade: u32)
    requires
        blade < 16,
        pop(blade as nat) % 2 == 0,
    ensures
        outer_coefficient(blade, dual_dst(blade as int) as u32) * dual_sign(blade as int) == 1,
{
    let d = blade ^ 15u32;
    lemma_dual_slot_is_complement(blade);
    lemma_pop_table();
    assert(blade == 0 || blade == 1 || blade == 2 || blade == 3 || blade == 4 || blade == 5 || blade
        == 6 || blade == 7 || blade == 8 || blade == 9 || blade == 10 || blade == 11 || blade == 12
        || blade == 13 || blade == 14 || blade == 15);
    lemma_blade_sign_sorts_generators(blade, d);
    lemma_sort_swaps_bits(blade, d);
    assert(((blade & d) >> 3u32) & 1 == 0) by (bit_vector)
        requires
            d == blade ^ 15u32,
            blade < 16,
    ;
    assert(sort_swaps_bits(blade, d) % 2 == (if blade == 5u32 || blade == 10u32 {
        1int
    } else {
        0int
    })) by (bit_vector)
        requires
            blade < 16,
            d == blade ^ 15u32,
            blade == 0u32 || blade == 3u32 || blade == 5u32 || blade == 6u32 || blade == 9u32
                || blade == 10u32 || blade == 12u32 || blade == 15u32,
    ;
    let c = outer_coefficient(blade, d);
    let sg = dual_sign(blade as int);
    assert((c == 1 && sg == 1) || (c == -1 && sg == -1));
    lemma_sign_times_sign(c, sg);
}


/// The dual of the scalar is +I, and the dual of each generator is the outer
/// product of the other three in ascending order (e1* = e2 e3 e0,
/// e0* = e1 e2 e3): sign +1 on the sorted complement. The dual of a trivector
/// is the negated sorted complement (e123* = -e0).
pub proof fn lemma_dual_of_odd_and_scalar_blades(blade: int)
    requires
        0 <= blade < 16,
    ensures
        pop(blade as nat) <= 1 ==> dual_sign(blade) == 1,
        pop(blade as nat) == 3 ==> dual_sign(blade) == -1,
        pop(blade as nat) == 4 ==> dual_sign(blade) == 1,
{
    lemma_pop_table();
}

} // verus!
