//! The curve evaluator: a binary search over the index grid finds the
//! tight lower-bound sample for a query coordinate, and an index
//! mirroring step turns the found index into the curve's value.
//!
//! All coordinates are exact numerators over the denominator `5^(n-1)`
//! of the order-`n` grid; a query coordinate `x` in `[0, 1]` is passed
//! as its numerator `x_num` in `[0, 5^(n-1)]`.

use vstd::prelude::*;
use crate::arith::{
    two_pow,
    five_pow,
    lemma_two_pow_increases,
    lemma_two_pow_27_fits_usize,
    pow2_usize,
    pow5,
};
use crate::encoder::{
    x_seq_val,
    x_seq,
    index_to_x,
    lemma_x_seq_val_le,
    lemma_x_seq_val_strictly_monotonic,
    lemma_index_boundaries,
};

verus! {

/// The number of samples of the order-`n` grid: `1 + 2^(n-1)`.
pub open spec fn curve_total(n: nat) -> nat {
    1 + two_pow((n - 1) as nat)
}

/// The largest index not above `hi` whose encoded coordinate is at most
/// `x`. Index 0 always qualifies, its coordinate being 0.
pub open spec fn search_floor(hi: nat, x: nat) -> nat
    decreases hi,
{
    if hi == 0 {
        0
    } else if x_seq_val(hi) <= x {
        hi
    } else {
        search_floor((hi - 1) as nat, x)
    }
}

/// The evaluator's value at the coordinate with numerator `x` on the
/// order-`n` grid, as a numerator over `5^(n-1)`: the complemented
/// coordinate of the mirrored found index.
pub open spec fn curve_value(n: nat, x: nat) -> nat {
    let found = search_floor(two_pow((n - 1) as nat), x);
    (five_pow((n - 1) as nat) - x_seq_val((two_pow((n - 1) as nat) - found) as nat)) as nat
}

/// `search_floor` is the index it promises: its coordinate is within
/// bounds, and it is picked exactly by the tight-lower-bound rule.
pub proof fn lemma_search_floor_exact(hi: nat, x: nat, found: nat)
    requires
        found <= hi,
        x_seq_val(found) <= x,
        forall|k: nat| found < k <= hi ==> x < #[trigger] x_seq_val(k),
    ensures
        search_floor(hi, x) == found,
    decreases hi,
{
    if hi > found {
        assert(x < x_seq_val(hi));
        lemma_search_floor_exact((hi - 1) as nat, x, found);
    }
}

/// Inversion consistency: at a grid coordinate the binary search finds
/// the grid index itself, so the evaluator's value there is the
/// complemented coordinate of the mirrored index.
pub proof fn lemma_inversion_consistency(n: nat, i: nat)
    requires
        n >= 1,
        i <= two_pow((n - 1) as nat),
    ensures
        curve_value(n, x_seq_val(i)) == five_pow((n - 1) as nat) - x_seq_val(
            (two_pow((n - 1) as nat) - i) as nat,
        ),
{
    let e = (n - 1) as nat;
    assert forall|k: nat| i < k <= two_pow(e) implies x_seq_val(i) < #[trigger] x_seq_val(k) by {
        lemma_x_seq_val_strictly_monotonic(i, k);
    }
    lemma_search_floor_exact(two_pow(e), x_seq_val(i), i);
    lemma_x_seq_val_le((two_pow(e) - i) as nat, e);
}

/// The evaluator is exact at the ends of the interval: the coordinate
/// 0 yields the value 0, and the coordinate 1 (numerator `5^(n-1)`)
/// yields the value 1.
pub proof fn lemma_curve_value_boundaries(n: nat)
    requires
        n >= 1,
    ensures
        curve_value(n, 0) == 0,
        curve_value(n, five_pow((n - 1) as nat)) == five_pow((n - 1) as nat),
{
    let e = (n - 1) as nat;
    lemma_index_boundaries(n);
    lemma_inversion_consistency(n, 0);
    lemma_inversion_consistency(n, two_pow(e));
}

/// Point symmetry about (1/2, 1/2) at the two boundary coordinates:
/// there, complementing the input complements the value. (At interior
/// grid coordinates the sampled staircase is not point symmetric: the
/// complement of a grid coordinate is in general not a grid
/// coordinate.)
pub proof fn lemma_point_symmetry_at_boundaries(n: nat, x: nat)
    requires
        n >= 1,
        x == 0 || x == five_pow((n - 1) as nat),
    ensures
        curve_value(n, x) == five_pow((n - 1) as nat) - curve_value(
            n,
            (five_pow((n - 1) as nat) - x) as nat,
        ),
{
    lemma_curve_value_boundaries(n);
}

/// The number of samples of the order-`n` grid.
pub fn total_points(n: usize) -> (r: usize)
    requires
        1 <= n <= 28,
    ensures
        r as nat == curve_total(n as nat),
{
    proof {
        lemma_two_pow_increases((n - 1) as nat, 27);
        lemma_two_pow_27_fits_usize();
    }
    1 + pow2_usize((n as u32) - 1)
}

/// The evaluator: finds by binary search the largest grid index whose
/// coordinate is at most `x_num` (ties move the lower bound up), then
/// returns the complemented coordinate of the mirrored index, as a
/// numerator over `5^(n-1)`.
#[verifier::loop_isolation(false)]
pub fn analytical_c(n: usize, x_num: u64) -> (r: u64)
    requires
        1 <= n <= 28,
        x_num as nat <= five_pow((n - 1) as nat),
    ensures
        r as nat == curve_value(n as nat, x_num as nat),
        r as nat <= five_pow((n - 1) as nat),
{
    let ghost e = (n - 1) as nat;
    proof {
        lemma_two_pow_increases(e, 27);
        lemma_two_pow_27_fits_usize();
    }
    let last = pow2_usize((n as u32) - 1);  // the last index, total_points - 1
    let mut low: usize = 0;
    let mut high: usize = last;
    let mut found_index: usize = 0;

    while low <= high
        invariant
            high <= last,
            low <= high + 1,
            (low == 0 && found_index == 0) || (low >= 1 && found_index == low - 1),
            found_index <= last,
            x_seq_val(found_index as nat) <= x_num as nat,
            forall|k: nat| high < k <= last ==> (x_num as nat) < #[trigger] x_seq_val(k),
        decreases high + 1 - low,
    {
        let mid = (low + high) / 2;
        let mid_x = x_seq(mid);
        if mid_x <= x_num {
            found_index = mid;
            low = mid + 1;
        } else {
            proof {
                // index 0 encodes to 0 <= x_num, so mid cannot be 0 here
                assert(x_seq_val(0) == 0);
                assert(mid >= 1);
                assert forall|k: nat| mid - 1 < k <= last implies (x_num as nat)
                    < #[trigger] x_seq_val(k) by {
                    if k > mid {
                        lemma_x_seq_val_strictly_monotonic(mid as nat, k);
                    }
                }
            }
            high = mid - 1;
        }
    }
    proof {
        lemma_search_floor_exact(last as nat, x_num as nat, found_index as nat);
        lemma_x_seq_val_le((last - found_index) as nat, e);
    }
    let mirrored_index = last - found_index;  // total_points - found_index - 1
    let den = pow5((n as u32) - 1);
    den - x_seq(mirrored_index)
}

/// All samples of the order-`n` curve in index order: for each grid
/// index, the exact coordinate numerator paired with the evaluator's
/// value numerator, both over the denominator `5^(n-1)`. The value at
/// a grid coordinate is the complemented coordinate of the mirrored
/// index.
#[verifier::loop_isolation(false)]
pub fn sample_points(n: usize) -> (r: Vec<(u64, u64)>)
    requires
        1 <= n <= 28,
    ensures
        r.len() == curve_total(n as nat),
        forall|k: int|
            0 <= k < r.len() ==> #[trigger] r[k].0 as nat == x_seq_val(k as nat),
        forall|k: int|
            0 <= k < r.len() ==> #[trigger] r[k].1 as nat == five_pow((n - 1) as nat) - x_seq_val(
                (two_pow((n - 1) as nat) - k) as nat,
            ),
{
    let ghost e = (n - 1) as nat;
    proof {
        lemma_two_pow_increases(e, 27);
        lemma_two_pow_27_fits_usize();
    }
    let last = pow2_usize((n as u32) - 1);
    let mut points: Vec<(u64, u64)> = Vec::new();
    let mut i: usize = 0;
    while i <= last
        invariant
            i <= last + 1,
            points.len() == i,
            forall|k: int|
                0 <= k < i ==> #[trigger] points[k].0 as nat == x_seq_val(k as nat),
            forall|k: int|
                0 <= k < i ==> #[trigger] points[k].1 as nat == five_pow(e) - x_seq_val(
                    (two_pow(e) - k) as nat,
                ),
        decreases last + 1 - i,
    {
        let (x_num, _den) = index_to_x(i, n);
        let y_num = analytical_c(n, x_num);
        proof {
            lemma_inversion_consistency(n as nat, i as nat);
        }
        points.push((x_num, y_num));
        i = i + 1;
    }
    points
}

} // verus!
