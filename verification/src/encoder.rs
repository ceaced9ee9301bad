//! The index encoder: the binary decomposition of a sample index,
//! largest bit first, re-read on the 4:5 scale of the asymmetric
//! subdivision.
//!
//! A set bit at position `m` with rank `k` (0-based, counted from the
//! highest set bit down) contributes `4^k * 5^m`. The resulting integer
//! is the exact numerator of the sample's coordinate over `5^(n-1)`.

use vstd::prelude::*;
use vstd::arithmetic::mul::{
    lemma_mul_by_zero_is_zero,
    lemma_mul_inequality,
    lemma_mul_is_associative,
    lemma_mul_is_commutative,
    lemma_mul_is_distributive_add,
};
use crate::arith::{
    two_pow,
    four_pow,
    five_pow,
    log2_floor,
    lemma_two_pow_pos,
    lemma_five_pow_pos,
    lemma_two_pow_increases,
    lemma_four_pow_increases,
    lemma_five_pow_increases,
    lemma_four_pow_28_fits_u64,
    lemma_five_pow_27_fits_u64,
    lemma_log2_floor_bounds,
    lemma_log2_floor_of_pow,
    lemma_log2_floor_lt,
    lemma_log2_floor_unique,
    pow5,
};

verus! {

/// The unnormalized coordinate of sample index `i`: each set bit of `i`
/// at position `m` and rank `k` from the top contributes `4^k * 5^m`.
pub open spec fn x_seq_val(i: nat) -> nat
    decreases i,
    via x_seq_val_decreases
{
    if i == 0 {
        0
    } else {
        five_pow(log2_floor(i)) + 4 * x_seq_val((i - two_pow(log2_floor(i))) as nat)
    }
}

#[via_fn]
proof fn x_seq_val_decreases(i: nat) {
    if i != 0 {
        lemma_log2_floor_bounds(i);
        lemma_two_pow_pos(log2_floor(i));
    }
}

/// Indices below `2^k` encode strictly below `5^k`.
pub proof fn lemma_x_seq_val_upper(i: nat, k: nat)
    requires
        i < two_pow(k),
    ensures
        x_seq_val(i) < five_pow(k),
    decreases i,
{
    lemma_five_pow_pos(k);
    if i > 0 {
        let m = log2_floor(i);
        lemma_log2_floor_bounds(i);
        lemma_log2_floor_lt(i, k);
        let rest = (i - two_pow(m)) as nat;
        lemma_x_seq_val_upper(rest, m);
        // x_seq_val(i) = 5^m + 4 * x_seq_val(rest) < 5^m + 4 * 5^m = 5^(m+1) <= 5^k
        assert(five_pow((m + 1) as nat) == 5 * five_pow(m));
        lemma_five_pow_increases((m + 1) as nat, k);
    }
}

/// The index `2^k` encodes exactly to `5^k`.
pub proof fn lemma_x_seq_val_of_pow(k: nat)
    ensures
        x_seq_val(two_pow(k)) == five_pow(k),
{
    lemma_two_pow_pos(k);
    lemma_log2_floor_of_pow(k);
    assert(x_seq_val((two_pow(k) - two_pow(k)) as nat) == 0);
}

/// Indices up to `2^k` encode to at most `5^k`.
pub proof fn lemma_x_seq_val_le(i: nat, k: nat)
    requires
        i <= two_pow(k),
    ensures
        x_seq_val(i) <= five_pow(k),
{
    if i < two_pow(k) {
        lemma_x_seq_val_upper(i, k);
    } else {
        lemma_x_seq_val_of_pow(k);
    }
}

/// The encoding is strictly monotone: a larger index always has a
/// strictly larger coordinate, so distinct indices never collide.
pub proof fn lemma_x_seq_val_strictly_monotonic(i: nat, j: nat)
    requires
        i < j,
    ensures
        x_seq_val(i) < x_seq_val(j),
    decreases j,
{
    let mj = log2_floor(j);
    lemma_log2_floor_bounds(j);
    lemma_five_pow_pos(mj);
    if i < two_pow(mj) {
        // i has fewer levels: its coordinate stays under 5^mj, the
        // leading term of j's coordinate.
        lemma_x_seq_val_upper(i, mj);
    } else {
        // i and j share the same highest bit; recurse on the remainders.
        lemma_log2_floor_unique(i, mj);
        let ri = (i - two_pow(mj)) as nat;
        let rj = (j - two_pow(mj)) as nat;
        lemma_x_seq_val_strictly_monotonic(ri, rj);
    }
}

/// The grid of order `n` starts exactly at 0 and ends exactly at 1:
/// index 0 encodes to numerator 0 and the last index, `2^(n-1)`, to the
/// full denominator `5^(n-1)`.
pub proof fn lemma_index_boundaries(n: nat)
    requires
        n >= 1,
    ensures
        x_seq_val(0) == 0,
        x_seq_val(two_pow((n - 1) as nat)) == five_pow((n - 1) as nat),
{
    lemma_x_seq_val_of_pow((n - 1) as nat);
}

/// The exponent and value of the largest power of 2 not above `i`, and
/// `(0, 0)` for `i == 0`.
pub fn highest_power(i: usize) -> (r: (u32, usize))
    ensures
        i == 0 ==> r == (0u32, 0usize),
        i >= 1 ==> r.0 as nat == log2_floor(i as nat),
        i >= 1 ==> r.1 as nat == two_pow(r.0 as nat),
        i >= 1 ==> r.1 <= i && (i as nat) < 2 * (r.1 as nat),
{
    if i == 0 {
        return (0, 0);
    }
    let mut m: u32 = 0;
    let mut power: usize = 1;
    while power <= i / 2
        invariant
            i >= 1,
            1 <= power <= i,
            power as nat == two_pow(m as nat),
            m < 64,
        decreases i - power,
    {
        proof {
            assert(two_pow((m + 1) as nat) == 2 * two_pow(m as nat));
            // the next power still fits: it is at most i
            assert(2 * (power as nat) <= i as nat);
            lemma_two_pow_bound_64((m + 1) as nat);
        }
        power = power * 2;
        m = m + 1;
    }
    proof {
        assert(2 * (power as nat) > i as nat);
        lemma_log2_floor_unique(i as nat, m as nat);
    }
    (m, power)
}

/// A power of 2 that fits in a `usize` has exponent below 64.
proof fn lemma_two_pow_bound_64(m: nat)
    requires
        two_pow(m) <= usize::MAX,
    ensures
        m < 64,
{
    if m >= 64 {
        lemma_two_pow_increases(64, m);
        assert(two_pow(64) == 18446744073709551616) by {
            reveal_with_fuel(two_pow, 65);
        }
    }
}

/// The unnormalized coordinate of index `i`, computed exactly: the loop
/// consumes the set bits of `i` from the highest down, adding
/// `multiplier * 5^m` for the bit at position `m` and scaling the
/// multiplier by 4 per consumed bit.
#[verifier::loop_isolation(false)]
pub fn x_seq(i: usize) -> (r: u64)
    requires
        i as nat <= two_pow(27),
    ensures
        r as nat == x_seq_val(i as nat),
{
    let mut sum: u64 = 0;
    let mut remaining: usize = i;
    let mut multiplier: u64 = 1;
    let ghost mut consumed: nat = 0;
    proof {
        lemma_x_seq_val_le(i as nat, 27);
        lemma_five_pow_27_fits_u64();
        lemma_four_pow_28_fits_u64();
        if i >= 1 {
            assert(two_pow(28) == 2 * two_pow(27));
            lemma_log2_floor_lt(i as nat, 28);
        }
    }
    while remaining > 0
        invariant
            remaining <= i,
            i as nat <= two_pow(27),
            multiplier as nat == four_pow(consumed),
            remaining > 0 ==> consumed + log2_floor(remaining as nat) + 1 <= 28,
            consumed <= 28,
            sum as nat + multiplier as nat * x_seq_val(remaining as nat) == x_seq_val(i as nat),
            x_seq_val(i as nat) <= five_pow(27),
        decreases remaining,
    {
        let ghost rem0 = remaining as nat;
        let ghost mult0 = multiplier as nat;
        let (m, power) = highest_power(remaining);
        proof {
            // the leading term 5^m is part of what remains to be added,
            // so multiplier * 5^m cannot overflow
            assert(x_seq_val(rem0) == five_pow(m as nat) + 4 * x_seq_val((rem0 - two_pow(
                m as nat,
            )) as nat));
            lemma_mul_inequality(five_pow(m as nat) as int, x_seq_val(rem0) as int, mult0 as int);
            lemma_mul_is_commutative(five_pow(m as nat) as int, mult0 as int);
            lemma_mul_is_commutative(x_seq_val(rem0) as int, mult0 as int);
        }
        let five_pow_m = pow5(m);
        sum = sum + multiplier * five_pow_m;
        remaining = remaining - power;
        proof {
            // the multiplier stays a power of 4 with exponent at most 28
            assert(four_pow((consumed + 1) as nat) == 4 * four_pow(consumed));
            lemma_four_pow_increases(consumed + 1, 28);
            if remaining > 0 {
                lemma_log2_floor_lt(remaining as nat, m as nat);
            }
            // peeling the leading term preserves the accumulated total
            let rest = (rem0 - two_pow(m as nat)) as nat;
            assert(mult0 * (five_pow(m as nat) + 4 * x_seq_val(rest)) == mult0 * five_pow(
                m as nat,
            ) + mult0 * (4 * x_seq_val(rest))) by {
                lemma_mul_is_distributive_add(
                    mult0 as int,
                    five_pow(m as nat) as int,
                    4 * x_seq_val(rest) as int,
                );
            }
            assert(mult0 * (4 * x_seq_val(rest)) == (4 * mult0) * x_seq_val(rest)) by {
                lemma_mul_is_associative(mult0 as int, 4int, x_seq_val(rest) as int);
                lemma_mul_is_commutative(mult0 as int, 4int);
            }
            consumed = consumed + 1;
        }
        multiplier = multiplier * 4;
    }
    proof {
        assert(x_seq_val(remaining as nat) == 0);
        lemma_mul_by_zero_is_zero(multiplier as int);
    }
    sum
}

/// The exact coordinate of sample index `i` at order `n`, as the pair
/// (numerator, denominator): the coordinate is `x_seq(i) / 5^(n-1)`,
/// a value in `[0, 1]`.
pub fn index_to_x(i: usize, n: usize) -> (r: (u64, u64))
    requires
        1 <= n <= 28,
        i as nat <= two_pow((n - 1) as nat),
    ensures
        r.0 as nat == x_seq_val(i as nat),
        r.1 as nat == five_pow((n - 1) as nat),
        r.0 <= r.1,
{
    proof {
        lemma_two_pow_increases((n - 1) as nat, 27);
        lemma_x_seq_val_le(i as nat, (n - 1) as nat);
    }
    let num = x_seq(i);
    let den = pow5((n as u32) - 1);
    (num, den)
}

} // verus!
