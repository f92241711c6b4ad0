// The blade product is cross-checked against an independent reference
// (ref_blade_gp) that folds blades back into generators and bubble-sorts them with
// the generator metric [1, 1, 1, 0] (e0 squares to 0).

use pga::{
    blade_grade, blade_name, blades_by_grade, dual_slot, gp_blade, involution_negates, op_blade,
    popcount, reverse_negates, undual_slot, GENERATOR_METRIC, NUM_COMPONENTS, NUM_GRADES,
};

fn almost(a: f64, b: f64) -> bool {
    (a - b).abs() < 1e-9
}

/// Both blades expand into generator index lists, are bubble-sorted (each inversion
/// flips the sign), and each duplicated generator folds into its metric coefficient.
fn ref_blade_gp(ma: u32, mb: u32) -> (usize, f64) {
    let mut gens: Vec<u32> = Vec::new();
    for i in 0..4 {
        if ma & (1 << i) != 0 {
            gens.push(i);
        }
    }
    for i in 0..4 {
        if mb & (1 << i) != 0 {
            gens.push(i);
        }
    }
    let mut sign = 1.0;
    let n = gens.len();
    for i in 0..n.saturating_sub(1) {
        for j in 0..n - 1 - i {
            if gens[j] > gens[j + 1] {
                gens.swap(j, j + 1);
                sign = -sign;
            }
        }
    }
    let mut coeff = 1.0;
    let mut mask = 0u32;
    for g in gens {
        if mask & (1 << g) != 0 {
            coeff *= GENERATOR_METRIC[g as usize] as f64;
            mask &= !(1 << g);
        } else {
            mask |= 1 << g;
        }
    }
    (mask as usize, sign * coeff)
}

#[test]
fn gp_reference_crosscheck() {
    for ma in 0..16u32 {
        for mb in 0..16u32 {
            let (dst, coeff) = gp_blade(ma, mb);
            let (rdst, rcoeff) = ref_blade_gp(ma, mb);
            assert_eq!(dst, rdst, "blade product mask for {ma}x{mb}");
            assert!(
                almost(coeff as f64, rcoeff),
                "blade product coefficient for {ma}x{mb}: {coeff} vs {rcoeff}"
            );
        }
    }
}

#[test]
fn sizes() {
    assert_eq!(NUM_COMPONENTS, 16);
    assert_eq!(NUM_GRADES, 5);
    assert_eq!(GENERATOR_METRIC, [1, 1, 1, 0]);
}

#[test]
fn popcount_values() {
    assert_eq!(popcount(0), 0);
    assert_eq!(popcount(1), 1);
    assert_eq!(popcount(7), 3);
    assert_eq!(popcount(15), 4);
    assert_eq!(popcount(0b1010_0000), 2);
    assert_eq!(popcount(u32::MAX), 32);
    assert_eq!(popcount(1 << 31), 1);
}

#[test]
fn blade_squares_follow_the_metric() {
    // generators square to their metric
    assert_eq!(gp_blade(1, 1), (0, 1));
    assert_eq!(gp_blade(2, 2), (0, 1));
    assert_eq!(gp_blade(4, 4), (0, 1));
    assert_eq!(gp_blade(8, 8), (0, 0));
    // euclidean bivectors square to -1, ideal lines are null
    assert_eq!(gp_blade(3, 3), (0, -1));
    assert_eq!(gp_blade(9, 9), (0, 0));
    // I3 squares to -1, the pseudoscalar I squares to 0
    assert_eq!(gp_blade(7, 7), (0, -1));
    assert_eq!(gp_blade(15, 15), (0, 0));
}

#[test]
fn blade_products_anticommute() {
    assert_eq!(gp_blade(1, 2), (3, 1));
    assert_eq!(gp_blade(2, 1), (3, -1));
    assert_eq!(gp_blade(3, 4), (7, 1));
    assert_eq!(gp_blade(7, 8), (15, 1));
    assert_eq!(gp_blade(8, 7), (15, -1));
    // a mask above the four generators keeps its bits in the slot
    assert_eq!(gp_blade(16, 1).0, 17);
}

#[test]
fn blade_products_associate() {
    for a in 0..16u32 {
        for b in 0..16u32 {
            for c in 0..16u32 {
                let (ab, s1) = gp_blade(a, b);
                let (abc, s2) = gp_blade(ab as u32, c);
                let (bc, t1) = gp_blade(b, c);
                let (abc2, t2) = gp_blade(a, bc as u32);
                assert_eq!(abc, abc2);
                assert_eq!(s1 * s2, t1 * t2, "({a} {b}) {c}");
            }
        }
    }
}

#[test]
fn outer_products() {
    // a shared factor annihilates
    assert_eq!(op_blade(1, 1), (0, 0));
    assert_eq!(op_blade(1, 3), (2, 0));
    // e1 ^ e2 ^ e3 = e123, and ^ e0 = I
    let (e12, s12) = op_blade(1, 2);
    let (e123, s123) = op_blade(e12 as u32, 4);
    assert_eq!((e123, s12 * s123), (7, 1));
    assert_eq!(op_blade(7, 8), (15, 1));
    // where nothing is shared the outer product is the geometric product
    for a in 0..16u32 {
        for b in 0..16u32 {
            if a & b == 0 {
                assert_eq!(op_blade(a, b), gp_blade(a, b));
                assert_eq!(popcount(a ^ b), popcount(a) + popcount(b));
            }
        }
    }
}

#[test]
fn reversal_and_involution_signs() {
    // grades 0..4: reversal flips grades 2 and 3, involution the odd grades
    assert!(!reverse_negates(0));
    assert!(!reverse_negates(1));
    assert!(!reverse_negates(8));
    assert!(reverse_negates(3));
    assert!(reverse_negates(7));
    assert!(!reverse_negates(15));
    assert!(involution_negates(1));
    assert!(!involution_negates(3));
    assert!(involution_negates(7));
    assert!(!involution_negates(15));
    // conjugation (both) flips grades 1 and 2
    for i in 0..16u32 {
        let k = popcount(i) % 4;
        assert_eq!(reverse_negates(i) != involution_negates(i), k == 1 || k == 2);
    }
}

#[test]
fn blade_times_reverse_is_one() {
    for m in 0..16u32 {
        let (dst, c) = gp_blade(m, m);
        assert_eq!(dst, 0);
        let expected = if m & 8 != 0 {
            0
        } else if reverse_negates(m) {
            -1
        } else {
            1
        };
        assert_eq!(c, expected, "blade {m}");
    }
}

#[test]
fn dual_spot_values() {
    // e1 -> e2 ^ e3 ^ e0
    let (s23, c23) = op_blade(2, 4);
    let (s230, c230) = op_blade(s23 as u32, 8);
    assert_eq!(dual_slot(1), (s230, c23 * c230));
    // e2 -> e1 ^ e3 ^ e0
    assert_eq!(dual_slot(2), (13, 1));
    // e3 -> e1 ^ e2 ^ e0
    assert_eq!(dual_slot(4), (11, 1));
    // e0 -> e123, e123 -> -e0
    assert_eq!(dual_slot(8), (7, 1));
    assert_eq!(dual_slot(7), (8, -1));
    // e12 -> e3 ^ e0
    assert_eq!(dual_slot(3), op_blade(4, 8));
    // I <-> 1
    assert_eq!(dual_slot(15), (0, 1));
    assert_eq!(dual_slot(0), (15, 1));
}

#[test]
fn dual_twice_and_undual() {
    for i in 0..16usize {
        let (d, s) = dual_slot(i);
        let (dd, ss) = dual_slot(d);
        assert_eq!(dd, i);
        assert_eq!(d, 15 - i);
        assert_eq!(popcount(d as u32), 4 - popcount(i as u32));
        let expected = if popcount(i as u32) % 2 == 0 { 1 } else { -1 };
        assert_eq!(s * ss, expected, "dual^2 for blade {i}");
        // undual then dual, and dual then undual, give the blade back
        let (u, us) = undual_slot(i);
        let (back, bs) = dual_slot(u);
        assert_eq!((back, us * bs), (i, 1), "undual inverts dual for {i}");
        let (u2, us2) = undual_slot(d);
        assert_eq!((u2, s * us2), (i, 1));
    }
}

#[test]
fn names() {
    let expected = [
        "1", "e1", "e2", "e12", "e3", "e13", "e23", "e123", "e0", "e1e0", "e2e0", "e12e0", "e3e0",
        "e13e0", "e23e0", "I",
    ];
    for (i, name) in expected.iter().enumerate() {
        assert_eq!(blade_name(i), *name);
    }
    assert_eq!(blade_name(16), "?");
}

#[test]
fn display_order() {
    assert_eq!(
        blades_by_grade(),
        vec![0, 1, 2, 4, 8, 3, 5, 6, 9, 10, 12, 7, 11, 13, 14, 15]
    );
}

#[test]
fn common_grade_of_support() {
    let mut support = [false; 16];
    assert_eq!(blade_grade(&support), -1);
    support[3] = true;
    support[12] = true;
    assert_eq!(blade_grade(&support), 2);
    support[1] = true;
    assert_eq!(blade_grade(&support), -1);
    let mut scalar = [false; 16];
    scalar[0] = true;
    assert_eq!(blade_grade(&scalar), 0);
    let mut pseudo = [false; 16];
    pseudo[15] = true;
    assert_eq!(blade_grade(&pseudo), 4);
}

#[test]
fn reversal_reverses_blade_products() {
    let rev = |m: u32| if reverse_negates(m) { -1 } else { 1 };
    let inv = |m: u32| if involution_negates(m) { -1 } else { 1 };
    for a in 0..16u32 {
        for b in 0..16u32 {
            let (ab, c1) = gp_blade(a, b);
            let (ba, c2) = gp_blade(b, a);
            assert_eq!(ab, ba);
            assert_eq!(c1 * rev(ab as u32), rev(b) * rev(a) * c2, "({a} {b})~");
            assert_eq!(inv(ab as u32), inv(a) * inv(b));
        }
    }
    // e12 e3 = e123, and (e12 e3)~ = e3~ e12~ = -e3 e12 = -e123
    assert_eq!(gp_blade(3, 4), (7, 1));
    assert_eq!(gp_blade(4, 3), (7, 1));
    assert!(reverse_negates(7));
}
