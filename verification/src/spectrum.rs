//! The distance spectrum of a sparse cyclic parity-check row: for every
//! pair of set bits, the cyclic distance between them, tallied per
//! distance.

use vstd::prelude::*;
use crate::mutbit::{MutBit, spec_bit};

verus! {

/// The folded cyclic distance between bit positions `i < j` on an `r`-bit
/// cycle: the shorter way round.
pub open spec fn cyclic_dist(i: int, j: int, r: int) -> int {
    if j - i <= r - (j - i) {
        j - i
    } else {
        r - (j - i)
    }
}

/// Pairs `(i, j2)` with `i < j2 < j`, both bits set, folding to distance
/// `d`.
pub open spec fn row_pairs(bits: Seq<u8>, r: int, d: int, i: int, j: int) -> int
    decreases j - i,
{
    if j <= i + 1 {
        0
    } else {
        row_pairs(bits, r, d, i, j - 1) + if spec_bit(bits, i / 8, i % 8) && spec_bit(
            bits,
            (j - 1) / 8,
            (j - 1) % 8,
        ) && cyclic_dist(i, j - 1, r) == d {
            1int
        } else {
            0int
        }
    }
}

/// All set-bit pairs with first coordinate below `i` (second coordinate
/// anywhere below `r`) folding to distance `d`.
pub open spec fn pair_count(bits: Seq<u8>, r: int, d: int, i: int) -> int
    decreases i,
{
    if i <= 0 {
        0
    } else {
        pair_count(bits, r, d, i - 1) + row_pairs(bits, r, d, i - 1, r)
    }
}

/// A row with its first coordinate's bit clear contributes no pairs.
proof fn lemma_row_pairs_clear(bits: Seq<u8>, r: int, d: int, i: int, j: int)
    requires
        !spec_bit(bits, i / 8, i % 8),
    ensures
        row_pairs(bits, r, d, i, j) == 0,
    decreases j - i,
{
    if j > i + 1 {
        lemma_row_pairs_clear(bits, r, d, i, j - 1);
    }
}

/// Row counts never exceed the scanned width.
proof fn lemma_row_pairs_bound(bits: Seq<u8>, r: int, d: int, i: int, j: int)
    ensures
        0 <= row_pairs(bits, r, d, i, j) <= if j - i - 1 >= 0 {
            j - i - 1
        } else {
            0int
        },
    decreases j - i,
{
    if j > i + 1 {
        lemma_row_pairs_bound(bits, r, d, i, j - 1);
    }
}

/// Pair counts never exceed `i * r`.
proof fn lemma_pair_count_bound(bits: Seq<u8>, r: int, d: int, i: int)
    requires
        r >= 1,
    ensures
        0 <= pair_count(bits, r, d, i) <= if i >= 0 {
            i * r
        } else {
            0int
        },
    decreases i,
{
    if i > 0 {
        lemma_pair_count_bound(bits, r, d, i - 1);
        lemma_row_pairs_bound(bits, r, d, i - 1, r);
        assert((i - 1) * r + r == i * r) by (nonlinear_arith);
    }
}

/// Tally the cyclic distances between all pairs of set bits among the
/// first `r` bits of the buffer. Distances are folded into `[0, (r+1)/2]`
/// (a cyclic distance and its complement are the same spectrum line).
/// Entry `d` of the result counts exactly the set-bit pairs at folded
/// distance `d`. Fails when the buffer holds fewer than `r` bits.
#[verifier::rlimit(60)]
pub fn distance_spectrum(bits: &Vec<u8>, r: usize) -> (res: Option<Vec<u64>>)
    requires
        r <= 0x10000,
    ensures
        res is Some <==> 8 * bits@.len() >= r,
        res is Some ==> res->0@.len() == (r + 1) / 2 + 1,
        res is Some ==> forall|d: int|
            0 <= d < res->0@.len() ==> #[trigger] res->0@[d] == pair_count(
                bits@,
                r as int,
                d,
                r as int,
            ),
{
    if r > 0 && (r - 1) / 8 >= bits.len() {
        proof {
            vstd::arithmetic::div_mod::lemma_fundamental_div_mod(r as int - 1, 8);
            vstd::arithmetic::div_mod::lemma_mod_bound(r as int - 1, 8);
        }
        return None;
    }
    proof {
        if r > 0 {
            vstd::arithmetic::div_mod::lemma_fundamental_div_mod(r as int - 1, 8);
            vstd::arithmetic::div_mod::lemma_mod_bound(r as int - 1, 8);
        }
    }
    let max_distance = (r + 1) / 2;
    let mut distances: Vec<u64> = crate::kembuf::zeroed_u64(max_distance + 1);
    let mut i: usize = 0;
    while i < r
        invariant
            8 * bits@.len() >= r,
            r <= 0x10000,
            distances@.len() == (r + 1) / 2 + 1,
            i <= r,
            forall|d: int|
                0 <= d < distances@.len() ==> #[trigger] distances@[d] == pair_count(
                    bits@,
                    r as int,
                    d,
                    i as int,
                ),
        decreases r - i,
    {
        let ib = MutBit { byte: i / 8, local_bit: (i % 8) as u8 };
        proof {
            vstd::arithmetic::div_mod::lemma_mod_bound(i as int, 8);
            crate::codec::lemma_div_lt_pub(i as int, 8, bits@.len() as int);
        }
        if ib.get(bits) {
            let mut j: usize = i + 1;
            while j < r
                invariant
                    8 * bits@.len() >= r,
                    r <= 0x10000,
                    distances@.len() == (r + 1) / 2 + 1,
                    i < j <= r,
                    spec_bit(bits@, i as int / 8, i as int % 8),
                    forall|d: int|
                        0 <= d < distances@.len() ==> #[trigger] distances@[d] == pair_count(
                            bits@,
                            r as int,
                            d,
                            i as int,
                        ) + row_pairs(bits@, r as int, d, i as int, j as int),
                decreases r - j,
            {
                let jb = MutBit { byte: j / 8, local_bit: (j % 8) as u8 };
                proof {
                    vstd::arithmetic::div_mod::lemma_mod_bound(j as int, 8);
                    crate::codec::lemma_div_lt_pub(j as int, 8, bits@.len() as int);
                }
                if jb.get(bits) {
                    let raw = j - i;
                    let dist = if raw <= r - raw {
                        raw
                    } else {
                        r - raw
                    };
                    proof {
                        assert(dist <= (r + 1) / 2) by {
                            vstd::arithmetic::div_mod::lemma_fundamental_div_mod(r as int + 1, 2);
                            vstd::arithmetic::div_mod::lemma_mod_bound(r as int + 1, 2);
                        };
                        lemma_pair_count_bound(bits@, r as int, dist as int, i as int);
                        lemma_row_pairs_bound(bits@, r as int, dist as int, i as int, j as int);
                        assert(i * r <= 0x10000 * 0x10000) by (nonlinear_arith)
                            requires
                                0 <= i <= 0x10000,
                                0 <= r <= 0x10000,
                        ;
                    }
                    let c = distances[dist];
                    distances[dist] = c + 1;
                    proof {
                        assert(cyclic_dist(i as int, j as int, r as int) == dist);
                        assert forall|d: int| 0 <= d < distances@.len()
                            implies #[trigger] distances@[d] == pair_count(
                            bits@,
                            r as int,
                            d,
                            i as int,
                        ) + row_pairs(bits@, r as int, d, i as int, j as int + 1) by {}
                    }
                } else {
                    proof {
                        assert forall|d: int| 0 <= d < distances@.len()
                            implies #[trigger] distances@[d] == pair_count(
                            bits@,
                            r as int,
                            d,
                            i as int,
                        ) + row_pairs(bits@, r as int, d, i as int, j as int + 1) by {}
                    }
                }
                j = j + 1;
            }
        } else {
            proof {
                assert forall|d: int| 0 <= d < distances@.len() implies #[trigger] distances@[d]
                    == pair_count(bits@, r as int, d, i as int) + row_pairs(
                    bits@,
                    r as int,
                    d,
                    i as int,
                    r as int,
                ) by {
                    lemma_row_pairs_clear(bits@, r as int, d, i as int, r as int);
                }
            }
        }
        i = i + 1;
    }
    Some(distances)
}

} // verus!
