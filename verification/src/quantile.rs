//! Nearest-rank percentile over sorted samples.
//!
//! One rank definition serves the whole crate: for `n` sorted samples and a
//! quantile `q` in `[0, 1]`, the rank is `ceil(q * n)` clamped to `[1, n]`,
//! and the result is the rank-th smallest sample. `q = 0` yields the
//! minimum, `q = 1` the maximum.
//!
//! Quantiles are given exactly, as a ratio `num / den`; a caller holding a
//! floating-point `q` computes `ceil(q * n)` itself and uses
//! [`nearest_rank_scaled`].
use vstd::prelude::*;
use crate::sample_bits::key_le;
use crate::sorting::sorted_by_total_order;

verus! {

/// `ceil(a / d)` for `a >= 0` and `d > 0`.
pub open spec fn ceil_div(a: nat, d: nat) -> int {
    a / d + if a % d == 0 {
        0int
    } else {
        1int
    }
}

/// `scaled` clamped to the ranks `1..=n` of `n > 0` samples.
pub open spec fn clamp_rank(scaled: int, n: int) -> int {
    if scaled < 1 {
        1
    } else if scaled > n {
        n
    } else {
        scaled
    }
}

/// `num / den` is a quantile: `den > 0` and `0 <= num / den <= 1`.
pub open spec fn valid_ratio(num: nat, den: nat) -> bool {
    den > 0 && num <= den
}

/// The nearest-rank sample of `sorted` for the already scaled rank
/// `ceil(q * n)`: `None` for no samples, else the sample at rank
/// `clamp_rank(scaled, n)`.
pub open spec fn rank_select(sorted: Seq<u64>, scaled: int) -> Option<u64> {
    if sorted.len() == 0 {
        None
    } else {
        Some(sorted[clamp_rank(scaled, sorted.len() as int) - 1])
    }
}

/// The nearest-rank sample of `sorted` at quantile `num / den`: `None` for
/// an invalid quantile or no samples.
pub open spec fn nearest_rank_spec(sorted: Seq<u64>, num: nat, den: nat) -> Option<u64> {
    if !valid_ratio(num, den) {
        None
    } else {
        rank_select(sorted, ceil_div(num * sorted.len(), den))
    }
}

/// `ceil_div(a, d)` is the least `k` with `a <= k * d`.
pub proof fn lemma_ceil_div_bounds(a: nat, d: nat)
    requires
        d > 0,
    ensures
        ceil_div(a, d) >= 0,
        (ceil_div(a, d) - 1) * d < a <= ceil_div(a, d) * d,
{
    vstd::arithmetic::div_mod::lemma_fundamental_div_mod(a as int, d as int);
    let q: int = (a / d) as int;
    let r: int = (a % d) as int;
    assert(0 <= r < d);
    assert(q >= 0) by (nonlinear_arith)
        requires
            a == d * q + r,
            0 <= r < d,
            a >= 0,
            d > 0,
    ;
    if r == 0 {
        assert((q - 1) * d < a <= q * d) by (nonlinear_arith)
            requires
                a == d * q,
                d > 0,
        ;
    } else {
        assert(q * d < a <= (q + 1) * d) by (nonlinear_arith)
            requires
                a == d * q + r,
                0 < r < d,
        ;
    }
}

/// If `k * d` bounds `a` from above, so does `ceil_div(a, d)`.
pub proof fn lemma_ceil_div_least(a: nat, d: nat, k: int)
    requires
        d > 0,
        a <= k * d,
    ensures
        ceil_div(a, d) <= k,
{
    lemma_ceil_div_bounds(a, d);
    let c: int = ceil_div(a, d);
    assert(c - 1 < k) by (nonlinear_arith)
        requires
            (c - 1) * d < a,
            a <= k * d,
            d > 0,
    ;
}

/// The scaled rank of a valid quantile over `n` samples lies in `0..=n`.
pub proof fn lemma_scaled_rank_range(num: nat, den: nat, n: nat)
    requires
        valid_ratio(num, den),
    ensures
        0 <= ceil_div(num * n, den) <= n,
{
    assert(num * n <= n * den) by (nonlinear_arith)
        requires
            num <= den,
    ;
    lemma_ceil_div_bounds(num * n, den);
    lemma_ceil_div_least(num * n, den, n as int);
}

/// The scaled rank grows with the quantile: `num1 / den1 <= num2 / den2`
/// gives `ceil(num1 * n / den1) <= ceil(num2 * n / den2)`.
pub proof fn lemma_scaled_rank_monotone(num1: nat, den1: nat, num2: nat, den2: nat, n: nat)
    requires
        valid_ratio(num1, den1),
        valid_ratio(num2, den2),
        num1 * den2 <= num2 * den1,
    ensures
        ceil_div(num1 * n, den1) <= ceil_div(num2 * n, den2),
{
    let k2 = ceil_div(num2 * n, den2);
    lemma_ceil_div_bounds(num2 * n, den2);
    assert(num1 * n <= k2 * den1) by (nonlinear_arith)
        requires
            num1 * den2 <= num2 * den1,
            num2 * n <= k2 * den2,
            den1 > 0,
            den2 > 0,
    ;
    lemma_ceil_div_least(num1 * n, den1, k2);
}

/// The nearest-rank sample of a sorted slice for a scaled rank
/// `ceil(q * n)`, as a caller holding a floating-point `q` computes it:
/// `None` for an empty slice, else the sample at rank `scaled` clamped to
/// `1..=n`. The slice is meant to be sorted; the selection itself does not
/// depend on it.
pub fn nearest_rank_scaled(sorted: &[u64], scaled: usize) -> (sample: Option<u64>)
    ensures
        sample == rank_select(sorted@, scaled as int),
        sorted@.len() == 0 ==> sample is None,
        1 <= scaled <= sorted@.len() ==> sample == Some(sorted@[scaled - 1]),
        scaled == 0 && sorted@.len() > 0 ==> sample == Some(sorted@[0]),
        scaled > sorted@.len() > 0 ==> sample == Some(sorted@[sorted@.len() - 1]),
{
    let n: usize = sorted.len();
    if n == 0 {
        return None;
    }
    let rank: usize = if scaled < 1 {
        1
    } else if scaled > n {
        n
    } else {
        scaled
    };
    Some(sorted[rank - 1])
}

/// Nearest-rank percentile of a sorted-ascending slice at the quantile
/// `q = num / den`.
///
/// The rank is `ceil(q * n)` clamped to `[1, n]`; the result is the sample
/// at that rank (the rank-th smallest, when the slice is sorted: passing an
/// unsorted slice is a logic error, which the function does not check).
/// `num = 0` yields the first (smallest) sample, `num = den` the last
/// (largest). Returns `None` for an empty slice or for a `q` outside `0..=1`
/// (`den == 0` or `num > den`).
pub fn nearest_rank(sorted: &[u64], num: u64, den: u64) -> (sample: Option<u64>)
    ensures
        sample == nearest_rank_spec(sorted@, num as nat, den as nat),
        den == 0 || num > den || sorted@.len() == 0 ==> sample is None,
        forall|r: int|
            #![trigger sorted@[r - 1]]
            valid_ratio(num as nat, den as nat) && 1 <= r <= sorted@.len() && num * sorted@.len()
                <= r * den && (r == 1 || (r - 1) * den < num * sorted@.len()) ==> sample == Some(
                sorted@[r - 1],
            ),
{
    if den == 0 || num > den {
        return None;
    }
    let n: usize = sorted.len();
    proof {
        lemma_scaled_rank_range(num as nat, den as nat, n as nat);
    }
    if n == 0 {
        return None;
    }
    let num_wide: u128 = num as u128;
    let n_wide: u128 = n as u128;
    assert(num_wide * n_wide <= u64::MAX * u64::MAX) by (nonlinear_arith)
        requires
            num_wide <= u64::MAX,
            n_wide <= u64::MAX,
    ;
    let product: u128 = num_wide * n_wide;
    assert(product == num * n);
    let quotient: u128 = product / (den as u128);
    let remainder: u128 = product % (den as u128);
    let scaled128: u128 = if remainder == 0 {
        quotient
    } else {
        quotient + 1
    };
    assert(scaled128 == ceil_div(num as nat * n as nat, den as nat));
    let scaled: usize = scaled128 as usize;
    let sample = nearest_rank_scaled(sorted, scaled);
    proof {
        assert forall|r: int|
            #![trigger sorted@[r - 1]]
            valid_ratio(num as nat, den as nat) && 1 <= r <= sorted@.len() && num * sorted@.len()
                <= r * den && (r == 1 || (r - 1) * den < num * sorted@.len()) implies sample
                == Some(sorted@[r - 1]) by {
            law_nearest_rank_is_least_covering_rank(sorted@, num as nat, den as nat, r);
        }
    }
    sample
}

/// At `q = 0` the nearest rank is the smallest sample, at `q = 1` the
/// largest, and for one sample every quantile yields that sample.
pub proof fn law_nearest_rank_extremes(sorted: Seq<u64>, num: nat, den: nat)
    requires
        sorted.len() > 0,
        valid_ratio(num, den),
    ensures
        nearest_rank_spec(sorted, 0, den) == Some(sorted[0]),
        nearest_rank_spec(sorted, den, den) == Some(sorted[sorted.len() - 1]),
        sorted.len() == 1 ==> nearest_rank_spec(sorted, num, den) == Some(sorted[0]),
{
    let n: nat = sorted.len();
    lemma_ceil_div_bounds(0, den);
    lemma_ceil_div_least(0, den, 0);
    assert(den * n == n * den) by (nonlinear_arith);
    lemma_ceil_div_bounds(den * n, den);
    lemma_ceil_div_least(den * n, den, n as int);
    assert(ceil_div(den * n, den) >= n) by (nonlinear_arith)
        requires
            den * n <= ceil_div(den * n, den) * den,
            den > 0,
    ;
    lemma_scaled_rank_range(num, den, n);
}

/// Selecting at an in-range rank `k` (`1 <= k <= n`) gives the `k`-th
/// sample; a rank below 1 gives the first sample and one above `n` the
/// last. No rank is moved.
pub proof fn law_rank_select_picks_the_rank(s: Seq<u64>, k: int)
    requires
        s.len() > 0,
    ensures
        1 <= k <= s.len() ==> rank_select(s, k) == Some(s[k - 1]),
        k < 1 ==> rank_select(s, k) == Some(s[0]),
        k > s.len() ==> rank_select(s, k) == Some(s[s.len() - 1]),
{
}

/// The nearest rank, characterised without computing it: at a valid
/// quantile `num / den` over `n > 0` samples, the result is the sample at
/// the least rank `r >= 1` with `num * n <= r * den` (that is,
/// `r = max(1, ceil(q * n))`).
pub proof fn law_nearest_rank_is_least_covering_rank(s: Seq<u64>, num: nat, den: nat, r: int)
    requires
        s.len() > 0,
        valid_ratio(num, den),
        1 <= r <= s.len(),
        num * s.len() <= r * den,
        r == 1 || (r - 1) * den < num * s.len(),
    ensures
        nearest_rank_spec(s, num, den) == Some(s[r - 1]),
{
    let n: nat = s.len();
    let c = ceil_div(num * n, den);
    lemma_ceil_div_bounds(num * n, den);
    lemma_ceil_div_least(num * n, den, r);
    lemma_scaled_rank_range(num, den, n);
    if r > 1 {
        assert(r - 1 < c) by (nonlinear_arith)
            requires
                (r - 1) * den < num * n,
                num * n <= c * den,
                den > 0,
        ;
    }
}

/// `s` is ascending by `leq`: every sample is `leq` to itself and to every
/// later one. A slice sorted in the total order is ascending by `key_le`; a
/// NaN-free slice sorted by `f64`'s `<=` is ascending by `float_le`.
pub open spec fn ascending_by(s: Seq<u64>, leq: spec_fn(u64, u64) -> bool) -> bool {
    forall|i: int, j: int| 0 <= i <= j < s.len() ==> leq(#[trigger] s[i], #[trigger] s[j])
}

/// Over ascending samples the nearest-rank result grows with the quantile:
/// for `num1 / den1 <= num2 / den2` the first result is `leq` the second,
/// whichever order the samples ascend by.
pub proof fn law_nearest_rank_monotone(
    sorted: Seq<u64>,
    leq: spec_fn(u64, u64) -> bool,
    num1: nat,
    den1: nat,
    num2: nat,
    den2: nat,
)
    requires
        ascending_by(sorted, leq),
        sorted.len() > 0,
        valid_ratio(num1, den1),
        valid_ratio(num2, den2),
        num1 * den2 <= num2 * den1,
    ensures
        leq(
            nearest_rank_spec(sorted, num1, den1).unwrap(),
            nearest_rank_spec(sorted, num2, den2).unwrap(),
        ),
{
    let n: nat = sorted.len();
    lemma_scaled_rank_monotone(num1, den1, num2, den2, n);
    let r1 = clamp_rank(ceil_div(num1 * n, den1), n as int);
    let r2 = clamp_rank(ceil_div(num2 * n, den2), n as int);
    assert(leq(sorted[r1 - 1], sorted[r2 - 1]));
}

/// Over one ascending window the standard percentiles are ordered:
/// `P50 <= P99 <= P99.9 <= max`.
pub proof fn law_percentiles_ordered(sorted: Seq<u64>, leq: spec_fn(u64, u64) -> bool)
    requires
        ascending_by(sorted, leq),
        sorted.len() > 0,
    ensures
        leq(nearest_rank_spec(sorted, 1, 2).unwrap(), nearest_rank_spec(sorted, 99, 100).unwrap()),
        leq(
            nearest_rank_spec(sorted, 99, 100).unwrap(),
            nearest_rank_spec(sorted, 999, 1000).unwrap(),
        ),
        leq(nearest_rank_spec(sorted, 999, 1000).unwrap(), nearest_rank_spec(sorted, 1, 1).unwrap()),
{
    law_nearest_rank_monotone(sorted, leq, 1, 2, 99, 100);
    law_nearest_rank_monotone(sorted, leq, 99, 100, 999, 1000);
    law_nearest_rank_monotone(sorted, leq, 999, 1000, 1, 1);
}

/// A slice sorted in the total order ascends by it.
pub proof fn lemma_total_order_ascending(sorted: Seq<u64>)
    requires
        sorted_by_total_order(sorted),
    ensures
        ascending_by(sorted, |a: u64, b: u64| key_le(a, b)),
{
    assert forall|i: int, j: int| 0 <= i <= j < sorted.len() implies key_le(
        #[trigger] sorted[i],
        #[trigger] sorted[j],
    ) by {
        if i < j {
            assert(key_le(sorted[i], sorted[j]));
        }
    }
}

} // verus!
