use vstd::prelude::*;

verus! {

/// Number of basis blades (and so of components of a multivector).
pub const NUM_COMPONENTS: usize = 16;

/// Number of grades, 0 through 4.
pub const NUM_GRADES: usize = 5;

/// Number of set bits of `n`.
pub open spec fn pop(n: nat) -> nat
    decreases n,
{
    if n == 0 {
        0
    } else {
        (n % 2) + pop(n / 2)
    }
}

/// A number below `2^k` has at most `k` set bits.
pub proof fn lemma_pop_bound(n: nat, k: nat)
    requires
        n < vstd::arithmetic::power2::pow2(k),
    ensures
        pop(n) <= k,
    decreases k,
{
    if k > 0 {
        vstd::arithmetic::power2::lemma_pow2_unfold(k);
        lemma_pop_bound(n / 2, (k - 1) as nat);
    } else {
        vstd::arithmetic::power2::lemma2_to64();
    }
}

/// The number of set bits of `x`; for a blade mask, its grade.
pub fn popcount(x: u32) -> (n: u32)
    ensures
        n == pop(x as nat),
{
    proof {
        vstd::arithmetic::power2::lemma2_to64();
        lemma_pop_bound(x as nat, 32);
    }
    let mut n: u32 = 0;
    let mut v: u32 = x;
    while v > 0
        invariant
            n + pop(v as nat) == pop(x as nat),
            pop(x as nat) <= 32,
        decreases v,
    {
        assert(v & 1 == v % 2 && v >> 1 == v / 2) by (bit_vector);
        n += v & 1;
        v >>= 1;
    }
    n
}



/// 1 when generator `k` is a factor of `x`, else 0.
pub open spec fn bit_value(x: u32, k: u32) -> nat {
    if (x >> k) & 1 == 1 {
        1
    } else {
        0
    }
}

/// Below 16 the set bits are the four generator bits.
pub proof fn lemma_pop_of_blade(y: u32)
    requires
        y < 16,
    ensures
        pop(y as nat) == bit_value(y, 0) + bit_value(y, 1) + bit_value(y, 2) + bit_value(y, 3),
{
    reveal_with_fuel(pop, 5);
    let b0 = y & 1;
    let b1 = (y >> 1) & 1;
    let b2 = (y >> 2) & 1;
    let b3 = (y >> 3) & 1;
    assert(y == b0 + 2 * b1 + 4 * b2 + 8 * b3 && b0 <= 1 && b1 <= 1 && b2 <= 1 && b3 <= 1)
        by (bit_vector)
        requires
            y < 16,
            b0 == y & 1,
            b1 == (y >> 1) & 1,
            b2 == (y >> 2) & 1,
            b3 == (y >> 3) & 1,
    ;
    assert((y >> 0) == y) by (bit_vector);
    let n = y as nat;
    assert(n % 2 == b0);
    assert(n / 2 == b1 + 2 * b2 + 4 * b3);
    assert((n / 2) % 2 == b1);
    assert(n / 2 / 2 == b2 + 2 * b3);
    assert((n / 2 / 2) % 2 == b2);
    assert(n / 2 / 2 / 2 == b3);
    assert((n / 2 / 2 / 2) % 2 == b3);
    assert(n / 2 / 2 / 2 / 2 == 0);
}


/// The grades of the sixteen blades.
pub proof fn lemma_pop_table()
    ensures
        pop(0) == 0,
        pop(1) == 1,
        pop(2) == 1,
        pop(3) == 2,
        pop(4) == 1,
        pop(5) == 2,
        pop(6) == 2,
        pop(7) == 3,
        pop(8) == 1,
        pop(9) == 2,
        pop(10) == 2,
        pop(11) == 3,
        pop(12) == 2,
        pop(13) == 3,
        pop(14) == 3,
        pop(15) == 4,
{
    reveal_with_fuel(pop, 5);
}


/// The symbol of a basis blade, its generators sorted (e1, e2, e3, e0); "?"
/// for an index that is no blade.
pub open spec fn blade_symbol(i: int) -> Seq<char> {
    if i == 0 {
        seq!['1']
    } else if i == 1 {
        seq!['e', '1']
    } else if i == 2 {
        seq!['e', '2']
    } else if i == 3 {
        seq!['e', '1', '2']
    } else if i == 4 {
        seq!['e', '3']
    } else if i == 5 {
        seq!['e', '1', '3']
    } else if i == 6 {
        seq!['e', '2', '3']
    } else if i == 7 {
        seq!['e', '1', '2', '3']
    } else if i == 8 {
        seq!['e', '0']
    } else if i == 9 {
        seq!['e', '1', 'e', '0']
    } else if i == 10 {
        seq!['e', '2', 'e', '0']
    } else if i == 11 {
        seq!['e', '1', '2', 'e', '0']
    } else if i == 12 {
        seq!['e', '3', 'e', '0']
    } else if i == 13 {
        seq!['e', '1', '3', 'e', '0']
    } else if i == 14 {
        seq!['e', '2', '3', 'e', '0']
    } else if i == 15 {
        seq!['I']
    } else {
        seq!['?']
    }
}

/// The Euclidean part of a blade's symbol: "e" followed by the digits of its
/// Euclidean generators in ascending order, or nothing when it has none.
pub open spec fn euclidean_symbol(i: int) -> Seq<char> {
    let digits = (if i % 2 == 1 { seq!['1'] } else { Seq::empty() }) + (if (i / 2) % 2 == 1 {
        seq!['2']
    } else {
        Seq::empty()
    }) + (if (i / 4) % 2 == 1 { seq!['3'] } else { Seq::empty() });
    if digits.len() == 0 {
        Seq::empty()
    } else {
        seq!['e'] + digits
    }
}

/// Blade names list their generators: the Euclidean digits after one "e",
/// then "e0" for the null generator; the scalar is "1" and e123e0 is "I".
pub proof fn lemma_blade_names_list_generators(i: int)
    requires
        0 <= i < 16,
    ensures
        i == 0 ==> blade_symbol(i) == seq!['1'],
        i == 15 ==> blade_symbol(i) == seq!['I'],
        0 < i < 15 ==> blade_symbol(i) == euclidean_symbol(i % 8) + (if i >= 8 {
            seq!['e', '0']
        } else {
            Seq::empty()
        }),
{
    if i == 1 {
        assert(blade_symbol(i) =~= euclidean_symbol(i % 8) + (if i >= 8 {
            seq!['e', '0']
        } else {
            Seq::empty()
        }));
    }
    if i == 2 {
        assert(blade_symbol(i) =~= euclidean_symbol(i % 8) + (if i >= 8 {
            seq!['e', '0']
        } else {
            Seq::empty()
        }));
    }
    if i == 3 {
        assert(blade_symbol(i) =~= euclidean_symbol(i % 8) + (if i >= 8 {
            seq!['e', '0']
        } else {
            Seq::empty()
        }));
    }
    if i == 4 {
        assert(blade_symbol(i) =~= euclidean_symbol(i % 8) + (if i >= 8 {
            seq!['e', '0']
        } else {
            Seq::empty()
        }));
    }
    if i == 5 {
        assert(blade_symbol(i) =~= euclidean_symbol(i % 8) + (if i >= 8 {
            seq!['e', '0']
        } else {
            Seq::empty()
        }));
    }
    if i == 6 {
        assert(blade_symbol(i) =~= euclidean_symbol(i % 8) + (if i >= 8 {
            seq!['e', '0']
        } else {
            Seq::empty()
        }));
    }
    if i == 7 {
        assert(blade_symbol(i) =~= euclidean_symbol(i % 8) + (if i >= 8 {
            seq!['e', '0']
        } else {
            Seq::empty()
        }));
    }
    if i == 8 {
        assert(blade_symbol(i) =~= euclidean_symbol(i % 8) + (if i >= 8 {
            seq!['e', '0']
        } else {
            Seq::empty()
        }));
    }
    if i == 9 {
        assert(blade_symbol(i) =~= euclidean_symbol(i % 8) + (if i >= 8 {
            seq!['e', '0']
        } else {
            Seq::empty()
        }));
    }
    if i == 10 {
        assert(blade_symbol(i) =~= euclidean_symbol(i % 8) + (if i >= 8 {
            seq!['e', '0']
        } else {
            Seq::empty()
        }));
    }
    if i == 11 {
        assert(blade_symbol(i) =~= euclidean_symbol(i % 8) + (if i >= 8 {
            seq!['e', '0']
        } else {
            Seq::empty()
        }));
    }
    if i == 12 {
        assert(blade_symbol(i) =~= euclidean_symbol(i % 8) + (if i >= 8 {
            seq!['e', '0']
        } else {
            Seq::empty()
        }));
    }
    if i == 13 {
        assert(blade_symbol(i) =~= euclidean_symbol(i % 8) + (if i >= 8 {
            seq!['e', '0']
        } else {
            Seq::empty()
        }));
    }
    if i == 14 {
        assert(blade_symbol(i) =~= euclidean_symbol(i % 8) + (if i >= 8 {
            seq!['e', '0']
        } else {
            Seq::empty()
        }));
    }
}

/// The symbol of a basis blade, generators sorted (e1, e2, e3, e0).
pub fn blade_name(i: usize) -> (name: &'static str)
    ensures
        name@ == blade_symbol(i as int),
{
    match i {
        0 => {
            proof {
                reveal_strlit("1");
            }
            "1"
        },
        1 => {
            proof {
                reveal_strlit("e1");
            }
            "e1"
        },
        2 => {
            proof {
                reveal_strlit("e2");
            }
            "e2"
        },
        4 => {
            proof {
                reveal_strlit("e3");
            }
            "e3"
        },
        8 => {
            proof {
                reveal_strlit("e0");
            }
            "e0"
        },
        3 => {
            proof {
                reveal_strlit("e12");
            }
            "e12"
        },
        5 => {
            proof {
                reveal_strlit("e13");
            }
            "e13"
        },
        6 => {
            proof {
                reveal_strlit("e23");
            }
            "e23"
        },
        9 => {
            proof {
                reveal_strlit("e1e0");
            }
            "e1e0"
        },
        10 => {
            proof {
                reveal_strlit("e2e0");
            }
            "e2e0"
        },
        12 => {
            proof {
                reveal_strlit("e3e0");
            }
            "e3e0"
        },
        7 => {
            proof {
                reveal_strlit("e123");
            }
            "e123"
        },
        11 => {
            proof {
                reveal_strlit("e12e0");
            }
            "e12e0"
        },
        13 => {
            proof {
                reveal_strlit("e13e0");
            }
            "e13e0"
        },
        14 => {
            proof {
                reveal_strlit("e23e0");
            }
            "e23e0"
        },
        15 => {
            proof {
                reveal_strlit("I");
            }
            "I"
        },
        _ => {
            proof {
                reveal_strlit("?");
            }
            "?"
        },
    }
}


/// The common grade of the blades marked in `nonzero`, or -1 when none is
/// marked or two marked blades differ in grade.
pub fn blade_grade(nonzero: &[bool; 16]) -> (g: i32)
    ensures
        g == -1 <==> ((forall|i: int| 0 <= i < 16 ==> !nonzero[i]) || exists|i: int, j: int|
            0 <= i < 16 && 0 <= j < 16 && nonzero[i] && nonzero[j] && pop(i as nat) != pop(
                j as nat,
            )),
        g != -1 ==> forall|i: int| 0 <= i < 16 && nonzero[i] ==> pop(i as nat) == g,
{
    proof {
        lemma_pop_table();
    }
    let mut g: i32 = -1;
    let mut i: usize = 0;
    while i < 16
        invariant
            0 <= i <= 16,
            g == -1 ==> forall|j: int| 0 <= j < i ==> !nonzero[j],
            g != -1 ==> (0 <= g <= 4 && exists|j: int| 0 <= j < i && nonzero[j]),
            g != -1 ==> forall|j: int| 0 <= j < i && nonzero[j] ==> pop(j as nat) == g,
            forall|j: nat| j < 16 ==> #[trigger] pop(j) <= 4,
        decreases 16 - i,
    {
        if nonzero[i] {
            let gu = popcount(i as u32);
            assert(gu == pop(i as nat) && pop(i as nat) <= 4);
            let gi = gu as i32;
            if g != -1 && gi != g {
                let ghost w = choose|j: int| 0 <= j < i && nonzero[j];
                assert(nonzero[w] && nonzero[i as int] && pop(w as nat) != pop(i as nat));
                return -1;
            }
            g = gi;
        }
        i = i + 1;
    }
    g
}

/// Whether blade `a` comes before blade `b` when blades are listed by grade
/// and, within a grade, by index.
pub open spec fn listed_before(a: int, b: int) -> bool {
    pop(a as nat) < pop(b as nat) || (pop(a as nat) == pop(b as nat) && a < b)
}

/// The sixteen blades listed by grade and, within a grade, by index.
pub fn blades_by_grade() -> (order: Vec<usize>)
    ensures
        forall|k: int| 0 <= k < order.len() ==> order[k] < 16,
        forall|j: int, k: int|
            0 <= j < k < order.len() ==> listed_before(order[j] as int, order[k] as int),
        forall|b: usize| b < 16 ==> order@.contains(b),
{
    proof {
        lemma_pop_table();
    }
    let mut order: Vec<usize> = Vec::new();
    let mut g: usize = 0;
    while g < NUM_GRADES
        invariant
            g <= NUM_GRADES,
            forall|b: nat| b < 16 ==> #[trigger] pop(b) <= 4,
            forall|k: int| 0 <= k < order.len() ==> order[k] < 16,
            forall|j: int, k: int|
                0 <= j < k < order.len() ==> listed_before(order[j] as int, order[k] as int),
            forall|k: int| 0 <= k < order.len() ==> pop(order[k] as nat) < g,
            forall|b: usize| b < 16 && pop(b as nat) < g ==> order@.contains(b),
        decreases NUM_GRADES - g,
    {
        let mut i: usize = 0;
        while i < NUM_COMPONENTS
            invariant
                g < NUM_GRADES,
                i <= NUM_COMPONENTS,
                forall|b: nat| b < 16 ==> #[trigger] pop(b) <= 4,
                forall|k: int| 0 <= k < order.len() ==> order[k] < 16,
                forall|j: int, k: int|
                    0 <= j < k < order.len() ==> listed_before(order[j] as int, order[k] as int),
                forall|k: int|
                    0 <= k < order.len() ==> pop(order[k] as nat) < g || (pop(order[k] as nat)
                        == g && order[k] < i),
                forall|b: usize|
                    b < 16 && (pop(b as nat) < g || (pop(b as nat) == g && b < i))
                        ==> order@.contains(b),
            decreases NUM_COMPONENTS - i,
        {
            if popcount(i as u32) as usize == g {
                let ghost before = order@;
                order.push(i);
                assert forall|b: usize|
                    b < 16 && (pop(b as nat) < g || (pop(b as nat) == g && b < i + 1))
                        implies order@.contains(b) by {
                    if b == i {
                        assert(order@[before.len() as int] == i);
                    } else {
                        let k = choose|k: int| 0 <= k < before.len() && before[k] == b;
                        assert(order@[k] == b);
                    }
                }
            }
            i = i + 1;
        }
        g = g + 1;
    }
    order
}

} // verus!
