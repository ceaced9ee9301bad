//! Exact integer powers of 2, 4 and 5, and the floor of the base-2
//! logarithm, with the small facts about them that the encoder and the
//! evaluator need.

use vstd::prelude::*;

verus! {

/// 2 to the power `e`.
pub open spec fn two_pow(e: nat) -> nat
    decreases e,
{
    if e == 0 {
        1
    } else {
        2 * two_pow((e - 1) as nat)
    }
}

/// 4 to the power `e`.
pub open spec fn four_pow(e: nat) -> nat
    decreases e,
{
    if e == 0 {
        1
    } else {
        4 * four_pow((e - 1) as nat)
    }
}

/// 5 to the power `e`.
pub open spec fn five_pow(e: nat) -> nat
    decreases e,
{
    if e == 0 {
        1
    } else {
        5 * five_pow((e - 1) as nat)
    }
}

pub proof fn lemma_two_pow_pos(e: nat)
    ensures
        two_pow(e) >= 1,
    decreases e,
{
    if e > 0 {
        lemma_two_pow_pos((e - 1) as nat);
    }
}

pub proof fn lemma_five_pow_pos(e: nat)
    ensures
        five_pow(e) >= 1,
    decreases e,
{
    if e > 0 {
        lemma_five_pow_pos((e - 1) as nat);
    }
}

pub proof fn lemma_two_pow_increases(e1: nat, e2: nat)
    requires
        e1 <= e2,
    ensures
        two_pow(e1) <= two_pow(e2),
    decreases e2,
{
    if e1 < e2 {
        lemma_two_pow_increases(e1, (e2 - 1) as nat);
    }
}

pub proof fn lemma_four_pow_increases(e1: nat, e2: nat)
    requires
        e1 <= e2,
    ensures
        four_pow(e1) <= four_pow(e2),
    decreases e2,
{
    if e1 < e2 {
        lemma_four_pow_increases(e1, (e2 - 1) as nat);
    }
}

pub proof fn lemma_five_pow_increases(e1: nat, e2: nat)
    requires
        e1 <= e2,
    ensures
        five_pow(e1) <= five_pow(e2),
    decreases e2,
{
    if e1 < e2 {
        lemma_five_pow_increases(e1, (e2 - 1) as nat);
    }
}

/// The largest power of 5 the library's `u64` arithmetic ever holds.
pub proof fn lemma_five_pow_27_fits_u64()
    ensures
        five_pow(27) == 7450580596923828125,
{
    reveal_with_fuel(five_pow, 28);
}

/// The largest power of 4 the encoder's multiplier ever reaches.
pub proof fn lemma_four_pow_28_fits_u64()
    ensures
        four_pow(28) == 72057594037927936,
{
    reveal_with_fuel(four_pow, 29);
}

/// The largest index grid the library supports fits in a `usize`.
pub proof fn lemma_two_pow_27_fits_usize()
    ensures
        two_pow(27) == 134217728,
{
    reveal_with_fuel(two_pow, 28);
}

/// The floor of the base-2 logarithm of `v`, with `log2_floor(0) == 0`.
pub open spec fn log2_floor(v: nat) -> nat
    decreases v,
{
    if v < 2 {
        0
    } else {
        1 + log2_floor(v / 2)
    }
}

/// For `v >= 1`, `2^log2_floor(v)` is the largest power of 2 not above `v`.
pub proof fn lemma_log2_floor_bounds(v: nat)
    requires
        v >= 1,
    ensures
        two_pow(log2_floor(v)) <= v,
        v < 2 * two_pow(log2_floor(v)),
    decreases v,
{
    if v >= 2 {
        lemma_log2_floor_bounds(v / 2);
    }
}

/// Any exponent whose power of 2 brackets `v` is `log2_floor(v)`.
pub proof fn lemma_log2_floor_unique(v: nat, m: nat)
    requires
        two_pow(m) <= v,
        v < 2 * two_pow(m),
    ensures
        log2_floor(v) == m,
    decreases m,
{
    lemma_two_pow_pos(m);
    if m > 0 {
        lemma_two_pow_pos((m - 1) as nat);
        lemma_log2_floor_unique(v / 2, (m - 1) as nat);
    }
}

/// `log2_floor(two_pow(k)) == k`.
pub proof fn lemma_log2_floor_of_pow(k: nat)
    ensures
        log2_floor(two_pow(k)) == k,
{
    lemma_two_pow_pos(k);
    lemma_log2_floor_unique(two_pow(k), k);
}

/// A value below `two_pow(m)` has a base-2 logarithm below `m`.
pub proof fn lemma_log2_floor_lt(v: nat, m: nat)
    requires
        v >= 1,
        v < two_pow(m),
    ensures
        log2_floor(v) < m,
{
    lemma_log2_floor_bounds(v);
    if log2_floor(v) >= m {
        lemma_two_pow_increases(m, log2_floor(v));
    }
}

/// 5 to the power `e`, computed exactly in a `u64`.
pub fn pow5(e: u32) -> (r: u64)
    requires
        e <= 27,
    ensures
        r as nat == five_pow(e as nat),
{
    let mut r: u64 = 1;
    let mut k: u32 = 0;
    while k < e
        invariant
            k <= e,
            e <= 27,
            r as nat == five_pow(k as nat),
        decreases e - k,
    {
        proof {
            assert(five_pow((k + 1) as nat) == 5 * five_pow(k as nat));
            lemma_five_pow_increases((k + 1) as nat, 27);
            lemma_five_pow_27_fits_u64();
        }
        r = r * 5;
        k = k + 1;
    }
    r
}

/// 2 to the power `e`, computed exactly in a `usize`.
pub fn pow2_usize(e: u32) -> (r: usize)
    requires
        e <= 27,
    ensures
        r as nat == two_pow(e as nat),
{
    let mut r: usize = 1;
    let mut k: u32 = 0;
    while k < e
        invariant
            k <= e,
            e <= 27,
            r as nat == two_pow(k as nat),
        decreases e - k,
    {
        proof {
            assert(two_pow((k + 1) as nat) == 2 * two_pow(k as nat));
            lemma_two_pow_increases((k + 1) as nat, 27);
            lemma_two_pow_27_fits_usize();
        }
        r = r * 2;
        k = k + 1;
    }
    r
}

} // verus!
