use vstd::prelude::*;

use crate::blade::{bit_value, lemma_pop_bound, lemma_pop_of_blade, pop, popcount};
use crate::reversion::{involution_negates_grade, lemma_reversal_period, reversal_negates_grade};

verus! {

/// Square of each generator, in bit order (e1, e2, e3, e0).
pub const GENERATOR_METRIC: [i8; 4] = [1, 1, 1, 0];

/// Whether generator `k` is a factor of the blade `x`.
pub open spec fn has_generator(x: u32, k: u32) -> bool {
    (x >> k) & 1 == 1
}

/// How many factors of `x` stand after generator `k` in the order e1, e2, e3,
/// e0 (positions above `k`).
pub open spec fn factors_after(x: u32, k: u32) -> nat {
    pop((x >> (k + 1)) as nat)
}

/// Pairs (j, k) with generator j of `ma` after generator k of `mb`: the
/// transpositions that bring `ma mb` into sorted generator order, counted
/// over the four generators of `mb`.
pub open spec fn inversions(ma: u32, mb: u32) -> nat {
    (if has_generator(mb, 0) { factors_after(ma, 0) } else { 0 })
    + (if has_generator(mb, 1) { factors_after(ma, 1) } else { 0 })
    + (if has_generator(mb, 2) { factors_after(ma, 2) } else { 0 })
    + (if has_generator(mb, 3) { factors_after(ma, 3) } else { 0 })
}

/// Product of the squares of the generators shared by `ma` and `mb`: e1, e2
/// and e3 square to 1 and e0 to 0, so it is 0 exactly when e0 is shared.
pub open spec fn metric_factor(ma: u32, mb: u32) -> int {
    if has_generator(ma & mb, 3) {
        0
    } else {
        1
    }
}

/// The slot of the product of two basis blades: their symmetric difference,
/// a shared generator squaring away.
pub open spec fn product_slot(ma: u32, mb: u32) -> u32 {
    ma ^ mb
}

/// The coefficient of the product of two basis blades: the metric factor of
/// the shared generators, negated for an odd number of transpositions.
pub open spec fn blade_coefficient(ma: u32, mb: u32) -> int {
    if inversions(ma, mb) % 2 == 0 {
        metric_factor(ma, mb)
    } else {
        -metric_factor(ma, mb)
    }
}

/// The geometric product of the basis blades `ma` and `mb`: the slot of the
/// result (the symmetric difference of the masks) and its coefficient.
pub fn gp_blade(ma: u32, mb: u32) -> (r: (usize, i8))
    ensures
        r.0 == product_slot(ma, mb) as usize,
        r.1 == blade_coefficient(ma, mb),
{
    let mut swaps: u32 = 0;
    let mut i: u32 = 0;
    while i < 4
        invariant
            i <= 4,
            swaps <= 32 * i,
            swaps == (if i > 0 && has_generator(mb, 0) { factors_after(ma, 0) } else { 0 })
                + (if i > 1 && has_generator(mb, 1) { factors_after(ma, 1) } else { 0 })
                + (if i > 2 && has_generator(mb, 2) { factors_after(ma, 2) } else { 0 })
                + (if i > 3 && has_generator(mb, 3) { factors_after(ma, 3) } else { 0 }),
        decreases 4 - i,
    {
        assert((mb & (1u32 << i) != 0) == ((mb >> i) & 1 == 1)) by (bit_vector)
            requires
                i < 4,
        ;
        if mb & (1u32 << i) != 0 {
            let above = popcount(ma >> (i + 1));
            proof {
                vstd::arithmetic::power2::lemma2_to64();
                lemma_pop_bound((ma >> (i + 1)) as nat, 32);
            }
            swaps = swaps + above;
        }
        i = i + 1;
    }
    let mut coeff: i8 = 1;
    let shared = ma & mb;
    let mut k: usize = 0;
    while k < 4
        invariant
            k <= 4,
            shared == ma & mb,
            coeff == (if k == 4 && has_generator(shared, 3) { 0int } else { 1int }),
        decreases 4 - k,
    {
        let kk = k as u32;
        assert((shared & (1u32 << kk) != 0) == ((shared >> kk) & 1 == 1)) by (bit_vector)
            requires
                kk < 4,
        ;
        if shared & (1u32 << kk) != 0 {
            coeff = coeff * GENERATOR_METRIC[k];
        }
        k = k + 1;
    }
    let sign: i8 = if swaps % 2 != 0 {
        -1
    } else {
        1
    };
    ((ma ^ mb) as usize, sign * coeff)
}


/// 1 when generator `j` of `ma` and generator `k` of `mb` are both present.
pub open spec fn pair_present(ma: u32, mb: u32, j: u32, k: u32) -> nat {
    if has_generator(ma, j) && has_generator(mb, k) {
        1
    } else {
        0
    }
}

/// The swaps a bubble sort makes on the generator list of `ma` followed by
/// that of `mb` (each list already sorted): one per pair of a generator of
/// `ma` standing after a generator of `mb`.
pub open spec fn generator_sort_swaps(ma: u32, mb: u32) -> nat {
    pair_present(ma, mb, 1, 0) + pair_present(ma, mb, 2, 0) + pair_present(ma, mb, 3, 0)
        + pair_present(ma, mb, 2, 1) + pair_present(ma, mb, 3, 1) + pair_present(ma, mb, 3, 2)
}

/// For a blade, the factors after generator k are the generator bits above k.
pub proof fn lemma_factors_after_blade(x: u32)
    requires
        x < 16,
    ensures
        factors_after(x, 0) == bit_value(x, 1) + bit_value(x, 2) + bit_value(x, 3),
        factors_after(x, 1) == bit_value(x, 2) + bit_value(x, 3),
        factors_after(x, 2) == bit_value(x, 3),
        factors_after(x, 3) == 0,
{
    let y1 = x >> 1u32;
    let y2 = x >> 2u32;
    let y3 = x >> 3u32;
    let y4 = x >> 4u32;
    assert(y1 < 16 && y2 < 16 && y3 < 16 && y4 == 0
        && (y1 >> 0) & 1 == (x >> 1) & 1 && (y1 >> 1) & 1 == (x >> 2) & 1
        && (y1 >> 2) & 1 == (x >> 3) & 1 && (y1 >> 3) & 1 == 0
        && (y2 >> 0) & 1 == (x >> 2) & 1 && (y2 >> 1) & 1 == (x >> 3) & 1
        && (y2 >> 2) & 1 == 0 && (y2 >> 3) & 1 == 0
        && (y3 >> 0) & 1 == (x >> 3) & 1 && (y3 >> 1) & 1 == 0
        && (y3 >> 2) & 1 == 0 && (y3 >> 3) & 1 == 0) by (bit_vector)
        requires
            x < 16,
            y1 == x >> 1u32,
            y2 == x >> 2u32,
            y3 == x >> 3u32,
            y4 == x >> 4u32,
    ;
    lemma_pop_of_blade(y1);
    lemma_pop_of_blade(y2);
    lemma_pop_of_blade(y3);
    assert(pop(0) == 0);
}

/// The sign of a blade product is the parity of the swaps that sort its
/// generators: the shift-and-count in `gp_blade` agrees with the generator
/// bubble sort on every pair of blades.
pub proof fn lemma_blade_sign_sorts_generators(ma: u32, mb: u32)
    requires
        ma < 16,
        mb < 16,
    ensures
        inversions(ma, mb) == generator_sort_swaps(ma, mb),
{
    lemma_factors_after_blade(ma);
}


/// `generator_sort_swaps` as an expression in the generator bits.
pub open spec fn sort_swaps_bits(x: u32, y: u32) -> int {
    ((x >> 1u32) & y & 1) + ((x >> 2u32) & y & 1) + ((x >> 3u32) & y & 1)
        + ((x >> 2u32) & (y >> 1u32) & 1) + ((x >> 3u32) & (y >> 1u32) & 1)
        + ((x >> 3u32) & (y >> 2u32) & 1)
}

pub proof fn lemma_sort_swaps_bits(x: u32, y: u32)
    ensures
        generator_sort_swaps(x, y) == sort_swaps_bits(x, y),
{
    assert(
        ((x >> 1u32) & y & 1) == (if (x >> 1u32) & 1 == 1 && (y >> 0u32) & 1 == 1 { 1u32 } else { 0u32 })
        && ((x >> 2u32) & y & 1) == (if (x >> 2u32) & 1 == 1 && (y >> 0u32) & 1 == 1 { 1u32 } else { 0u32 })
        && ((x >> 3u32) & y & 1) == (if (x >> 3u32) & 1 == 1 && (y >> 0u32) & 1 == 1 { 1u32 } else { 0u32 })
        && ((x >> 2u32) & (y >> 1u32) & 1) == (if (x >> 2u32) & 1 == 1 && (y >> 1u32) & 1 == 1 { 1u32 } else { 0u32 })
        && ((x >> 3u32) & (y >> 1u32) & 1) == (if (x >> 3u32) & 1 == 1 && (y >> 1u32) & 1 == 1 { 1u32 } else { 0u32 })
        && ((x >> 3u32) & (y >> 2u32) & 1) == (if (x >> 3u32) & 1 == 1 && (y >> 2u32) & 1 == 1 { 1u32 } else { 0u32 })
    ) by (bit_vector);
}

/// The geometric product is associative on basis blades: (a b) c and a (b c)
/// land in the same slot with the same coefficient, the metric factor included.
pub proof fn lemma_blade_product_associative(ma: u32, mb: u32, mc: u32)
    requires
        ma < 16,
        mb < 16,
        mc < 16,
    ensures
        product_slot(product_slot(ma, mb), mc) == product_slot(ma, product_slot(mb, mc)),
        blade_coefficient(ma, mb) * blade_coefficient(product_slot(ma, mb), mc) == blade_coefficient(
            mb,
            mc,
        ) * blade_coefficient(ma, product_slot(mb, mc)),
{
    let ab = ma ^ mb;
    let bc = mb ^ mc;
    assert(ab < 16 && bc < 16 && ab ^ mc == ma ^ bc) by (bit_vector)
        requires
            ma < 16,
            mb < 16,
            mc < 16,
            ab == ma ^ mb,
            bc == mb ^ mc,
    ;
    lemma_blade_sign_sorts_generators(ma, mb);
    lemma_blade_sign_sorts_generators(ab, mc);
    lemma_blade_sign_sorts_generators(mb, mc);
    lemma_blade_sign_sorts_generators(ma, bc);
    lemma_sort_swaps_bits(ma, mb);
    lemma_sort_swaps_bits(ab, mc);
    lemma_sort_swaps_bits(mb, mc);
    lemma_sort_swaps_bits(ma, bc);
    assert((sort_swaps_bits(ma, mb) + sort_swaps_bits(ab, mc)) % 2 == (sort_swaps_bits(mb, mc)
        + sort_swaps_bits(ma, bc)) % 2) by (bit_vector)
        requires
            ma < 16,
            mb < 16,
            mc < 16,
            ab == ma ^ mb,
            bc == mb ^ mc,
    ;
    assert((((ma & mb) >> 3u32) & 1 == 1 || ((ab & mc) >> 3u32) & 1 == 1) == (((mb & mc) >> 3u32)
        & 1 == 1 || ((ma & bc) >> 3u32) & 1 == 1)) by (bit_vector)
        requires
            ab == ma ^ mb,
            bc == mb ^ mc,
    ;
    let c1 = blade_coefficient(ma, mb);
    let c2 = blade_coefficient(ab, mc);
    let c3 = blade_coefficient(mb, mc);
    let c4 = blade_coefficient(ma, bc);
    if metric_factor(ma, mb) == 0 || metric_factor(ab, mc) == 0 {
        assert(c1 == 0 || c2 == 0);
        assert(c3 == 0 || c4 == 0);
        assert(c1 * c2 == 0 && c3 * c4 == 0) by (nonlinear_arith)
            requires
                c1 == 0 || c2 == 0,
                c3 == 0 || c4 == 0,
        ;
    } else {
        lemma_sign_product(inversions(ma, mb), inversions(ab, mc));
        lemma_sign_product(inversions(mb, mc), inversions(ma, bc));
    }
}

/// The coefficient of the outer product of two basis blades: zero when they
/// share a generator, otherwise that of their geometric product.
pub open spec fn outer_coefficient(ma: u32, mb: u32) -> int {
    if ma & mb != 0 {
        0
    } else {
        blade_coefficient(ma, mb)
    }
}

/// The outer product (the meet) of the basis blades `ma` and `mb`: a shared
/// basis factor annihilates the term.
pub fn op_blade(ma: u32, mb: u32) -> (r: (usize, i8))
    ensures
        r.0 == product_slot(ma, mb) as usize,
        r.1 == outer_coefficient(ma, mb),
{
    if ma & mb != 0 {
        ((ma ^ mb) as usize, 0)
    } else {
        gp_blade(ma, mb)
    }
}

/// The product slot holds exactly the generators that one factor has and
/// the other lacks: shared generators square away.
pub proof fn lemma_product_slot_cancels_shared(ma: u32, mb: u32, k: u32)
    requires
        k < 32,
    ensures
        has_generator(product_slot(ma, mb), k) == (has_generator(ma, k) != has_generator(mb, k)),
{
    assert((((ma ^ mb) >> k) & 1 == 1) == (((ma >> k) & 1 == 1) != ((mb >> k) & 1 == 1)))
        by (bit_vector);
}

/// Blades that share no generator have an outer product equal to their
/// geometric product.
pub proof fn lemma_outer_is_product_of_disjoint(ma: u32, mb: u32)
    requires
        ma & mb == 0,
    ensures
        outer_coefficient(ma, mb) == blade_coefficient(ma, mb),
        blade_coefficient(ma, mb) == 1 || blade_coefficient(ma, mb) == -1,
{
    assert(((ma & mb) >> 3u32) & 1 == 0) by (bit_vector)
        requires
            ma & mb == 0,
    ;
}

/// The outer product of blades with every generator of the first before
/// every generator of the second (e1 ^ e2 = e12, e12 ^ e3 = e123,
/// e123 ^ e0 = I) is the sorted blade with coefficient +1.
pub proof fn lemma_outer_of_ordered_blades(ma: u32, mb: u32)
    requires
        ma < 16,
        mb < 16,
        forall|j: u32, k: u32|
            j < 4 && k < 4 && has_generator(ma, j) && has_generator(mb, k) ==> j < k,
    ensures
        outer_coefficient(ma, mb) == 1,
{
    lemma_blade_sign_sorts_generators(ma, mb);
    assert(ma & mb == 0 || (has_generator(ma, 0) && has_generator(mb, 0)) || (has_generator(ma, 1)
        && has_generator(mb, 1)) || (has_generator(ma, 2) && has_generator(mb, 2)) || (
    has_generator(ma, 3) && has_generator(mb, 3))) by (bit_vector)
        requires
            ma < 16,
            mb < 16,
    ;
    assert(!(has_generator(ma, 0) && has_generator(mb, 0)));
    assert(!(has_generator(ma, 1) && has_generator(mb, 1)));
    assert(!(has_generator(ma, 2) && has_generator(mb, 2)));
    assert(!(has_generator(ma, 3) && has_generator(mb, 3)));
    assert(!(has_generator(ma, 1) && has_generator(mb, 0)));
    assert(!(has_generator(ma, 2) && has_generator(mb, 0)));
    assert(!(has_generator(ma, 3) && has_generator(mb, 0)));
    assert(!(has_generator(ma, 2) && has_generator(mb, 1)));
    assert(!(has_generator(ma, 3) && has_generator(mb, 1)));
    assert(!(has_generator(ma, 3) && has_generator(mb, 2)));
    lemma_outer_is_product_of_disjoint(ma, mb);
}

/// The outer product of blades with no common generator is a blade whose
/// grade is the sum of theirs (plane ^ plane = line, plane ^ line = point),
/// with coefficient 1 or -1.
pub proof fn lemma_outer_grades_add(ma: u32, mb: u32)
    requires
        ma < 16,
        mb < 16,
        ma & mb == 0,
    ensures
        pop(product_slot(ma, mb) as nat) == pop(ma as nat) + pop(mb as nat),
        outer_coefficient(ma, mb) == 1 || outer_coefficient(ma, mb) == -1,
{
    let ab = ma ^ mb;
    assert(ab < 16 && (((ma & mb) >> 3u32) & 1) == 0
        && ((ab >> 0u32) & 1 == 1) == ((ma >> 0u32) & 1 == 1 || (mb >> 0u32) & 1 == 1)
        && !((ma >> 0u32) & 1 == 1 && (mb >> 0u32) & 1 == 1)
        && ((ab >> 1u32) & 1 == 1) == ((ma >> 1u32) & 1 == 1 || (mb >> 1u32) & 1 == 1)
        && !((ma >> 1u32) & 1 == 1 && (mb >> 1u32) & 1 == 1)
        && ((ab >> 2u32) & 1 == 1) == ((ma >> 2u32) & 1 == 1 || (mb >> 2u32) & 1 == 1)
        && !((ma >> 2u32) & 1 == 1 && (mb >> 2u32) & 1 == 1)
        && ((ab >> 3u32) & 1 == 1) == ((ma >> 3u32) & 1 == 1 || (mb >> 3u32) & 1 == 1)
        && !((ma >> 3u32) & 1 == 1 && (mb >> 3u32) & 1 == 1)) by (bit_vector)
        requires
            ma < 16,
            mb < 16,
            ma & mb == 0,
            ab == ma ^ mb,
    ;
    lemma_pop_of_blade(ab);
    lemma_pop_of_blade(ma);
    lemma_pop_of_blade(mb);
}

/// The outer product is associative on basis blades.
pub proof fn lemma_outer_product_associative(ma: u32, mb: u32, mc: u32)
    requires
        ma < 16,
        mb < 16,
        mc < 16,
    ensures
        outer_coefficient(ma, mb) * outer_coefficient(product_slot(ma, mb), mc) == outer_coefficient(
            mb,
            mc,
        ) * outer_coefficient(ma, product_slot(mb, mc)),
{
    let ab = ma ^ mb;
    let bc = mb ^ mc;
    assert((ma & mb != 0 || ab & mc != 0) == (mb & mc != 0 || ma & bc != 0)) by (bit_vector)
        requires
            ab == ma ^ mb,
            bc == mb ^ mc,
    ;
    let c1 = outer_coefficient(ma, mb);
    let c2 = outer_coefficient(ab, mc);
    let c3 = outer_coefficient(mb, mc);
    let c4 = outer_coefficient(ma, bc);
    if ma & mb != 0 || ab & mc != 0 {
        assert(c1 * c2 == 0 && c3 * c4 == 0) by (nonlinear_arith)
            requires
                c1 == 0 || c2 == 0,
                c3 == 0 || c4 == 0,
        ;
    } else {
        lemma_blade_product_associative(ma, mb, mc);
    }
}

/// A basis blade times itself is a scalar: 0 when it holds the null generator
/// e0, otherwise the reversal sign of its grade, so that a blade times its
/// reverse is 1 (e1^2 = 1, e12^2 = -1, e123^2 = -1, e0^2 = 0, I^2 = 0).
pub proof fn lemma_blade_square(m: u32)
    requires
        m < 16,
    ensures
        product_slot(m, m) == 0,
        blade_coefficient(m, m) == (if has_generator(m, 3) {
            0
        } else if reversal_negates_grade(pop(m as nat) as int) {
            -1
        } else {
            1
        }),
{
    assert(m ^ m == 0 && m & m == m) by (bit_vector);
    lemma_self_swaps(m);
}

/// Sorting a blade against itself takes an odd number of swaps exactly when
/// reversal negates the blade.
proof fn lemma_self_swaps(m: u32)
    requires
        m < 16,
    ensures
        (inversions(m, m) % 2 == 1) == reversal_negates_grade(pop(m as nat) as int),
{
    lemma_blade_sign_sorts_generators(m, m);
    lemma_pop_of_blade(m);
    lemma_reversal_period(pop(m as nat));
}

/// The sign reversal gives a basis blade.
pub open spec fn reversal_sign(m: u32) -> int {
    if reversal_negates_grade(pop(m as nat) as int) {
        -1
    } else {
        1
    }
}

/// Reversal reverses products of basis blades: the reverse of a b is the
/// reverse of b times the reverse of a.
pub proof fn lemma_reversal_reverses_products(ma: u32, mb: u32)
    requires
        ma < 16,
        mb < 16,
    ensures
        product_slot(mb, ma) == product_slot(ma, mb),
        blade_coefficient(ma, mb) * reversal_sign(product_slot(ma, mb)) == reversal_sign(mb) * reversal_sign(ma)
            * blade_coefficient(mb, ma),
{
    let ab = ma ^ mb;
    assert(ab < 16 && mb ^ ma == ab && mb & ma == ma & mb) by (bit_vector)
        requires
            ma < 16,
            mb < 16,
            ab == ma ^ mb,
    ;
    lemma_self_swaps(ma);
    lemma_self_swaps(mb);
    lemma_self_swaps(ab);
    lemma_blade_sign_sorts_generators(ma, mb);
    lemma_blade_sign_sorts_generators(mb, ma);
    lemma_blade_sign_sorts_generators(ma, ma);
    lemma_blade_sign_sorts_generators(mb, mb);
    lemma_blade_sign_sorts_generators(ab, ab);
    lemma_sort_swaps_bits(ma, mb);
    lemma_sort_swaps_bits(mb, ma);
    lemma_sort_swaps_bits(ma, ma);
    lemma_sort_swaps_bits(mb, mb);
    lemma_sort_swaps_bits(ab, ab);
    assert((sort_swaps_bits(ma, mb) + sort_swaps_bits(ab, ab)) % 2 == (sort_swaps_bits(ma, ma)
        + sort_swaps_bits(mb, mb) + sort_swaps_bits(mb, ma)) % 2) by (bit_vector)
        requires
            ma < 16,
            mb < 16,
            ab == ma ^ mb,
    ;
    let m = metric_factor(ma, mb);
    assert(m == metric_factor(mb, ma));
    let ra = reversal_sign(ma);
    let rb = reversal_sign(mb);
    let rab = reversal_sign(ab);
    let c1 = blade_coefficient(ma, mb);
    let c2 = blade_coefficient(mb, ma);
    if m == 0 {
        assert(c1 == 0 && c2 == 0);
        assert(c1 * rab == 0 && rb * ra * c2 == 0) by (nonlinear_arith)
            requires
                c1 == 0,
                c2 == 0,
        ;
    } else {
        let i1 = inversions(ma, mb);
        let i2 = inversions(ab, ab);
        let i3 = inversions(ma, ma);
        let i4 = inversions(mb, mb);
        let i5 = inversions(mb, ma);
        lemma_sign_product(i1, i2);
        lemma_sign_product(i3, i4);
        lemma_sign_product(i3 + i4, i5);
    }
}

/// Grade involution respects products of basis blades: it negates a b
/// exactly when it negates one of a and b.
pub proof fn lemma_involution_respects_products(ma: u32, mb: u32)
    requires
        ma < 16,
        mb < 16,
    ensures
        involution_negates_grade(pop(product_slot(ma, mb) as nat) as int) == (involution_negates_grade(
            pop(ma as nat) as int,
        ) != involution_negates_grade(pop(mb as nat) as int)),
{
    let ab = ma ^ mb;
    assert(ab < 16 && ((ab >> 0u32) & 1 == 1) == ((ma >> 0u32) & 1 == 1 != ((mb >> 0u32) & 1 == 1))
        && ((ab >> 1u32) & 1 == 1) == ((ma >> 1u32) & 1 == 1 != ((mb >> 1u32) & 1 == 1)) && ((ab
        >> 2u32) & 1 == 1) == ((ma >> 2u32) & 1 == 1 != ((mb >> 2u32) & 1 == 1)) && ((ab >> 3u32)
        & 1 == 1) == ((ma >> 3u32) & 1 == 1 != ((mb >> 3u32) & 1 == 1))) by (bit_vector)
        requires
            ma < 16,
            mb < 16,
            ab == ma ^ mb,
    ;
    lemma_pop_of_blade(ab);
    lemma_pop_of_blade(ma);
    lemma_pop_of_blade(mb);
}

/// The product of the signs of two swap counts is the sign of their sum.
proof fn lemma_sign_product(i: nat, j: nat)
    ensures
        (if i % 2 == 0 { 1int } else { -1int }) * (if j % 2 == 0 { 1int } else { -1int }) == (if (i
            + j) % 2 == 0 { 1int } else { -1int }),
{
    let s: int = if i % 2 == 0 { 1 } else { -1 };
    let t: int = if j % 2 == 0 { 1 } else { -1 };
    if i % 2 == 0 {
        if j % 2 == 0 {
            assert((i + j) % 2 == 0 && s * t == 1);
        } else {
            assert((i + j) % 2 == 1 && s * t == -1);
        }
    } else {
        if j % 2 == 0 {
            assert((i + j) % 2 == 1 && s * t == -1);
        } else {
            assert((i + j) % 2 == 0 && s * t == 1);
        }
    }
}

} // verus!
