//! The meta-allocator: Sharpe-proxy metrics over realised-pnl histories,
//! floored weight factors, and normalised weights over the population.
//!
//! All arithmetic is fixed-point: pnl in micro-USD, the Sharpe proxy in
//! micro-units, weights in parts per million. The published weights of a
//! nonempty population always sum to exactly one, the rounding remainder
//! going to the first (best-ranked) strategy.

use vstd::prelude::*;

use vstd::arithmetic::div_mod::{
    lemma_div_is_ordered, lemma_div_multiples_vanish, lemma_div_pos_is_pos,
};

use crate::models::{StrategyAllocation, StrategySpec};

verus! {

/// One, in parts per million: the weight scale.
pub const WEIGHT_SCALE: u64 = 1_000_000;

/// The exploratory floor of a weight factor: 0.1 in micro-units, so a new
/// or underperforming strategy still receives capital.
pub const WEIGHT_FLOOR: u64 = 100_000;

/// The Sharpe proxy scale: micro-units.
pub const SHARPE_SCALE: i64 = 1_000_000;

/// Largest pnl magnitude the fixed-point metrics accept: one billion USD.
pub const MAX_PNL_ABS: i64 = 1_000_000_000_000_000;

/// Longest history the fixed-point metrics accept.
pub const MAX_HISTORY: usize = 100_000;

/// Sum of a pnl history.
pub open spec fn spec_sum(s: Seq<i64>) -> int
    decreases s.len(),
{
    if s.len() == 0 {
        0
    } else {
        spec_sum(s.drop_last()) + s.last()
    }
}

/// Sum of squared deviations from `mu`.
pub open spec fn spec_sqdev(s: Seq<i64>, mu: int) -> int
    decreases s.len(),
{
    if s.len() == 0 {
        0
    } else {
        spec_sqdev(s.drop_last(), mu) + (s.last() - mu) * (s.last() - mu)
    }
}

/// Division truncated toward zero, for a positive divisor.
pub open spec fn div_trunc(a: int, b: int) -> int {
    if a >= 0 {
        a / b
    } else {
        -((-a) / b)
    }
}

/// `r` is the integer square root of `v`.
pub open spec fn is_isqrt(r: int, v: int) -> bool {
    0 <= r && r * r <= v && v < (r + 1) * (r + 1)
}

/// Clamp into the symmetric i64 band `[-(2^63 - 1), 2^63 - 1]`.
pub open spec fn sat_sym_i64(x: int) -> int {
    if x > i64::MAX as int {
        i64::MAX as int
    } else if x < -(i64::MAX as int) {
        -(i64::MAX as int)
    } else {
        x
    }
}

/// The Sharpe-proxy metrics of a history: with one sample or none, both
/// zero; else the mean is the truncated average, and the Sharpe proxy is
/// `mean / sigma` in micro-units — zero when the sample deviation is zero —
/// where `sigma` is the integer square root of the sample variance.
pub open spec fn metrics_rel(s: Seq<i64>, mean: int, sharpe: int) -> bool {
    if s.len() <= 1 {
        mean == 0 && sharpe == 0
    } else {
        &&& mean == div_trunc(spec_sum(s), s.len() as int)
        &&& exists|sigma: int|
            {
                &&& #[trigger] is_isqrt(sigma, spec_sqdev(s, mean) / (s.len() - 1))
                &&& (sigma > 0 ==> sharpe == sat_sym_i64(
                    div_trunc(mean * (SHARPE_SCALE as int), sigma),
                ))
                &&& (sigma == 0 ==> sharpe == 0)
            }
    }
}

/// Integer square root by binary search on the u64 candidates.
pub fn isqrt_u128(v: u128) -> (r: u64)
    ensures
        is_isqrt(r as int, v as int),
{
    let mut lo: u64 = 0;
    let mut hi: u64 = u64::MAX;
    proof {
        assert((hi as int + 1) * (hi as int + 1) > u128::MAX as int) by (nonlinear_arith)
            requires
                hi as int == 0xffff_ffff_ffff_ffff,
        ;
    }
    while lo < hi
        invariant
            lo <= hi,
            (lo as int) * (lo as int) <= v as int,
            (v as int) < (hi as int + 1) * (hi as int + 1),
        decreases hi - lo,
    {
        let mid: u64 = hi - (hi - lo) / 2;
        proof {
            assert((mid as int) * (mid as int) <= (u64::MAX as int) * (u64::MAX as int)
                < u128::MAX as int) by (nonlinear_arith)
                requires
                    0 <= mid as int <= u64::MAX as int,
            ;
        }
        let m2: u128 = (mid as u128) * (mid as u128);
        if m2 <= v {
            lo = mid;
        } else {
            hi = mid - 1;
        }
    }
    lo
}

/// The Sharpe-proxy metrics of one strategy's realised-pnl history:
/// `(mean, sharpe)`, both in micro-units.
pub fn strategy_metrics(history: &Vec<i64>) -> (r: (i64, i64))
    requires
        history@.len() <= MAX_HISTORY,
        forall|k: int|
            0 <= k < history@.len() ==> -MAX_PNL_ABS <= #[trigger] history@[k] <= MAX_PNL_ABS,
    ensures
        metrics_rel(history@, r.0 as int, r.1 as int),
{
    let n = history.len();
    if n <= 1 {
        return (0, 0);
    }
    // sum of the history
    let mut sum: i128 = 0;
    let mut k: usize = 0;
    while k < n
        invariant
            k <= n,
            n == history@.len(),
            n <= MAX_HISTORY,
            forall|t: int|
                0 <= t < history@.len() ==> -MAX_PNL_ABS <= #[trigger] history@[t] <= MAX_PNL_ABS,
            sum as int == spec_sum(history@.take(k as int)),
            -(k as int) * (MAX_PNL_ABS as int) <= sum as int <= (k as int) * (MAX_PNL_ABS as int),
        decreases n - k,
    {
        proof {
            assert(history@.take(k as int + 1).drop_last() =~= history@.take(k as int));
            assert(history@.take(k as int + 1).last() == history@[k as int]);
        }
        sum = sum + history[k] as i128;
        k += 1;
    }
    proof {
        assert(history@.take(n as int) =~= history@);
    }
    // truncated mean; |mean| <= MAX_PNL_ABS
    let mean128: i128 = if sum >= 0 {
        proof {
            lemma_div_is_ordered(sum as int, (n as int) * (MAX_PNL_ABS as int), n as int);
            lemma_div_multiples_vanish(MAX_PNL_ABS as int, n as int);
            lemma_div_pos_is_pos(sum as int, n as int);
        }
        sum / (n as i128)
    } else {
        proof {
            lemma_div_is_ordered(-sum as int, (n as int) * (MAX_PNL_ABS as int), n as int);
            lemma_div_multiples_vanish(MAX_PNL_ABS as int, n as int);
            lemma_div_pos_is_pos(-sum as int, n as int);
        }
        -((-sum) / (n as i128))
    };
    let mean: i64 = mean128 as i64;
    proof {
        assert(-(MAX_PNL_ABS as int) <= mean as int <= MAX_PNL_ABS as int);
    }
    // sum of squared deviations
    let mut sq: u128 = 0;
    let mut k2: usize = 0;
    while k2 < n
        invariant
            k2 <= n,
            n == history@.len(),
            n <= MAX_HISTORY,
            forall|t: int|
                0 <= t < history@.len() ==> -MAX_PNL_ABS <= #[trigger] history@[t] <= MAX_PNL_ABS,
            -(MAX_PNL_ABS as int) <= mean as int <= MAX_PNL_ABS as int,
            sq as int == spec_sqdev(history@.take(k2 as int), mean as int),
            sq as int <= (k2 as int) * 4_000_000_000_000_000_000_000_000_000_000,
        decreases n - k2,
    {
        proof {
            assert(history@.take(k2 as int + 1).drop_last() =~= history@.take(k2 as int));
            assert(history@.take(k2 as int + 1).last() == history@[k2 as int]);
        }
        let d: i128 = history[k2] as i128 - mean as i128;
        let m: u128 = if d < 0 {
            (-d) as u128
        } else {
            d as u128
        };
        proof {
            assert(0 <= m as int <= 2_000_000_000_000_000);
            assert((m as int) * (m as int) == (d as int) * (d as int)) by (nonlinear_arith)
                requires
                    m as int == (if (d as int) < 0 {
                        -(d as int)
                    } else {
                        d as int
                    }),
            ;
            assert((m as int) * (m as int) <= 4_000_000_000_000_000_000_000_000_000_000)
                by (nonlinear_arith)
                requires
                    0 <= m as int <= 2_000_000_000_000_000,
            ;
        }
        sq = sq + m * m;
        k2 += 1;
    }
    proof {
        assert(history@.take(n as int) =~= history@);
    }
    let var: u128 = sq / ((n - 1) as u128);
    let sigma: u64 = isqrt_u128(var);
    let sharpe: i64 = if sigma == 0 {
        0
    } else {
        let mag: u128 = if mean >= 0 {
            mean as u128
        } else {
            (-(mean as i128)) as u128
        };
        proof {
            assert((mag as int) * (SHARPE_SCALE as int) <= (MAX_PNL_ABS as int) * (
            SHARPE_SCALE as int)) by (nonlinear_arith)
                requires
                    0 <= mag as int <= MAX_PNL_ABS as int,
            ;
        }
        let q: u128 = (mag * (SHARPE_SCALE as u128)) / (sigma as u128);
        proof {
            lemma_div_pos_is_pos((mag * (SHARPE_SCALE as u128)) as int, sigma as int);
        }
        let capped: i64 = if q > i64::MAX as u128 {
            i64::MAX
        } else {
            q as i64
        };
        if mean >= 0 {
            capped
        } else {
            -capped
        }
    };
    proof {
        let s = history@;
        assert(mean as int == div_trunc(spec_sum(s), s.len() as int));
        let sig = sigma as int;
        assert(is_isqrt(sig, spec_sqdev(s, mean as int) / (s.len() - 1)));
        if sigma > 0 {
            let mag = if mean as int >= 0 {
                mean as int
            } else {
                -(mean as int)
            };
            assert(div_trunc(mean as int * (SHARPE_SCALE as int), sig) == if mean as int >= 0 {
                (mag * (SHARPE_SCALE as int)) / sig
            } else {
                -((mag * (SHARPE_SCALE as int)) / sig)
            }) by (nonlinear_arith)
                requires
                    sig > 0,
                    mag == (if mean as int >= 0 {
                        mean as int
                    } else {
                        -(mean as int)
                    }),
            ;
        }
    }
    (mean, sharpe)
}

/// Sum of a weight vector.
pub open spec fn sum_u64(s: Seq<u64>) -> int
    decreases s.len(),
{
    if s.len() == 0 {
        0
    } else {
        sum_u64(s.drop_last()) + s.last()
    }
}

/// Normalise weight factors into parts per million that sum to exactly
/// one: each weight is the floored proportional share, and the rounding
/// remainder goes to the first entry.
pub fn normalise_weights(factors: &Vec<u64>) -> (r: Vec<u64>)
    requires
        1 <= factors@.len(),
        forall|k: int|
            0 <= k < factors@.len() ==> WEIGHT_FLOOR <= #[trigger] factors@[k] <= i64::MAX as u64,
    ensures
        r@.len() == factors@.len(),
        sum_u64(r@) == WEIGHT_SCALE,
        forall|k: int|
            1 <= k < r@.len() ==> #[trigger] r@[k] as int == ((factors@[k] as int) * (
            WEIGHT_SCALE as int)) / sum_u64(factors@),
{
    let n = factors.len();
    // the factor total
    let mut w: u128 = 0;
    let mut k: usize = 0;
    while k < n
        invariant
            k <= n,
            n == factors@.len(),
            forall|t: int|
                0 <= t < factors@.len() ==> WEIGHT_FLOOR <= #[trigger] factors@[t] <= i64::MAX
                    as u64,
            w as int == sum_u64(factors@.take(k as int)),
            w as int <= (k as int) * (i64::MAX as int),
        decreases n - k,
    {
        proof {
            assert(factors@.take(k as int + 1).drop_last() =~= factors@.take(k as int));
            assert(factors@.take(k as int + 1).last() == factors@[k as int]);
        }
        w = w + factors[k] as u128;
        k += 1;
    }
    proof {
        assert(factors@.take(n as int) =~= factors@);
        lemma_sum_factors_bounds(factors@);
    }
    let wtot: u128 = w;
    // floored shares
    let mut out: Vec<u64> = Vec::new();
    let mut total: u64 = 0;
    let mut k2: usize = 0;
    while k2 < n
        invariant
            k2 <= n,
            n == factors@.len(),
            forall|t: int|
                0 <= t < factors@.len() ==> WEIGHT_FLOOR <= #[trigger] factors@[t] <= i64::MAX
                    as u64,
            wtot as int == sum_u64(factors@),
            wtot as int >= WEIGHT_FLOOR as int,
            out@.len() == k2,
            forall|t: int|
                0 <= t < k2 ==> #[trigger] out@[t] as int == ((factors@[t] as int) * (
                WEIGHT_SCALE as int)) / (wtot as int),
            sum_u64(out@) == total as int,
            (total as int) * (wtot as int) <= sum_u64(factors@.take(k2 as int)) * (
            WEIGHT_SCALE as int),
            total <= WEIGHT_SCALE,
        decreases n - k2,
    {
        let ghost out_before = out@;
        proof {
            assert((factors@[k2 as int] as int) * (WEIGHT_SCALE as int) <= 0x7fff_ffff_ffff_ffff
                * 1_000_000) by (nonlinear_arith)
                requires
                    0 <= factors@[k2 as int] as int <= 0x7fff_ffff_ffff_ffff,
            ;
        }
        let share: u128 = ((factors[k2] as u128) * (WEIGHT_SCALE as u128)) / wtot;
        proof {
            let f = factors@[k2 as int] as int;
            let wt = wtot as int;
            // the share is at most the whole scale
            lemma_sum_factor_le_total(factors@, k2 as int);
            assert(f * (WEIGHT_SCALE as int) <= wt * (WEIGHT_SCALE as int)) by (nonlinear_arith)
                requires
                    0 <= f <= wt,
            ;
            lemma_div_is_ordered(f * (WEIGHT_SCALE as int), wt * (WEIGHT_SCALE as int), wt);
            lemma_div_multiples_vanish(WEIGHT_SCALE as int, wt);
            lemma_div_pos_is_pos(f * (WEIGHT_SCALE as int), wt);
            // the floor times the total stays under the numerator
            vstd::arithmetic::div_mod::lemma_fundamental_div_mod(f * (WEIGHT_SCALE as int), wt);
            assert(factors@.take(k2 as int + 1).drop_last() =~= factors@.take(k2 as int));
            assert(factors@.take(k2 as int + 1).last() == factors@[k2 as int]);
            // total + share stays at or under the scale
            lemma_sum_prefix_le(factors@, k2 as int + 1);
            assert((total as int + (f * (WEIGHT_SCALE as int)) / wt) * wt <= sum_u64(
                factors@.take(k2 as int + 1),
            ) * (WEIGHT_SCALE as int)) by (nonlinear_arith)
                requires
                    (total as int) * wt <= sum_u64(factors@.take(k2 as int)) * (
                    WEIGHT_SCALE as int),
                    ((f * (WEIGHT_SCALE as int)) / wt) * wt <= f * (WEIGHT_SCALE as int),
                    sum_u64(factors@.take(k2 as int + 1)) == sum_u64(factors@.take(k2 as int)) + f,
            ;
            assert(total as int + (f * (WEIGHT_SCALE as int)) / wt <= WEIGHT_SCALE as int)
                by (nonlinear_arith)
                requires
                    (total as int + (f * (WEIGHT_SCALE as int)) / wt) * wt <= sum_u64(
                        factors@.take(k2 as int + 1),
                    ) * (WEIGHT_SCALE as int),
                    sum_u64(factors@.take(k2 as int + 1)) <= wt,
                    wt > 0,
                    0 <= (f * (WEIGHT_SCALE as int)) / wt,
                    0 <= total as int,
            ;
        }
        out.push(share as u64);
        total = total + share as u64;
        proof {
            assert(out@.drop_last() =~= out_before);
            assert(out@.last() == share as u64);
        }
        k2 += 1;
    }
    proof {
        assert(factors@.take(n as int) =~= factors@);
    }
    // hand the remainder to the first entry
    let deficit: u64 = WEIGHT_SCALE - total;
    proof {
        lemma_sum_factor_le_total(out@, 0);
    }
    let first = out[0];
    let ghost out_floors = out@;
    out.set(0, first + deficit);
    proof {
        lemma_sum_u64_update_first(out_floors, (first + deficit) as u64);
        assert(out@ =~= out_floors.update(0, (first + deficit) as u64));
    }
    out
}

/// Factor sums stay within bounds and above the floor.
proof fn lemma_sum_factors_bounds(s: Seq<u64>)
    requires
        s.len() >= 1,
        forall|t: int| 0 <= t < s.len() ==> WEIGHT_FLOOR <= #[trigger] s[t],
    ensures
        sum_u64(s) >= WEIGHT_FLOOR,
    decreases s.len(),
{
    if s.len() == 1 {
        assert(s.drop_last().len() == 0);
        assert(sum_u64(s.drop_last()) == 0);
        assert(s[0] >= WEIGHT_FLOOR);
    } else {
        assert(forall|t: int| 0 <= t < s.drop_last().len() ==> WEIGHT_FLOOR <= #[trigger] s.drop_last()[t]);
        lemma_sum_factors_bounds(s.drop_last());
    }
}

/// A nonnegative sequence's element is at most its sum.
proof fn lemma_sum_factor_le_total(s: Seq<u64>, i: int)
    requires
        0 <= i < s.len(),
    ensures
        s[i] as int <= sum_u64(s),
    decreases s.len(),
{
    if i == s.len() - 1 {
        lemma_sum_nonneg(s.drop_last());
    } else {
        lemma_sum_factor_le_total(s.drop_last(), i);
    }
}

/// Sums of u64 values are nonnegative.
proof fn lemma_sum_nonneg(s: Seq<u64>)
    ensures
        sum_u64(s) >= 0,
    decreases s.len(),
{
    if s.len() > 0 {
        lemma_sum_nonneg(s.drop_last());
    }
}

/// A prefix sum is at most the whole sum.
proof fn lemma_sum_prefix_le(s: Seq<u64>, k: int)
    requires
        0 <= k <= s.len(),
    ensures
        sum_u64(s.take(k)) <= sum_u64(s),
    decreases s.len() - k,
{
    if k == s.len() {
        assert(s.take(k) =~= s);
    } else {
        lemma_sum_prefix_le(s, k + 1);
        assert(s.take(k + 1).drop_last() =~= s.take(k));
        assert(s.take(k + 1).last() == s[k]);
    }
}

/// Replacing the first element shifts the sum by the difference.
proof fn lemma_sum_u64_update_first(s: Seq<u64>, v: u64)
    requires
        s.len() >= 1,
    ensures
        sum_u64(s.update(0, v)) == sum_u64(s) - s[0] + v,
    decreases s.len(),
{
    if s.len() == 1 {
        assert(s.update(0, v).drop_last() =~= s.drop_last());
    } else {
        assert(s.update(0, v).drop_last() =~= s.drop_last().update(0, v));
        assert(s.update(0, v).last() == s.last());
        lemma_sum_u64_update_first(s.drop_last(), v);
    }
}


/// Publication order of two `(sharpe, mean, position)` keys: Sharpe proxy
/// descending, then mean descending, then original position.
pub open spec fn key_le(a: (i64, i64, usize), b: (i64, i64, usize)) -> bool {
    if a.0 != b.0 {
        a.0 > b.0
    } else if a.1 != b.1 {
        a.1 > b.1
    } else {
        a.2 <= b.2
    }
}

/// The key order is total.
proof fn lemma_key_le_total(a: (i64, i64, usize), b: (i64, i64, usize))
    ensures
        key_le(a, b) || key_le(b, a),
{
}

/// The key order is transitive.
proof fn lemma_key_le_trans(a: (i64, i64, usize), b: (i64, i64, usize), c: (i64, i64, usize))
    requires
        key_le(a, b),
        key_le(b, c),
    ensures
        key_le(a, c),
{
}

fn key_le_exec(a: (i64, i64, usize), b: (i64, i64, usize)) -> (r: bool)
    ensures
        r == key_le(a, b),
{
    if a.0 != b.0 {
        a.0 > b.0
    } else if a.1 != b.1 {
        a.1 > b.1
    } else {
        a.2 <= b.2
    }
}

/// Does some element carry original position `j`?
pub open spec fn has_pos(s: Seq<(i64, i64, usize)>, j: int) -> bool {
    exists|k: int| 0 <= k < s.len() && (#[trigger] s[k]).2 == j
}

/// Sort metric keys into publication order by insertion: the result is a
/// permutation of the input positions `0..n`, sorted by `key_le`, holding
/// exactly the input's key values at those positions.
fn sort_keys(keys: &Vec<(i64, i64, usize)>) -> (r: Vec<(i64, i64, usize)>)
    requires
        forall|k: int| 0 <= k < keys@.len() ==> (#[trigger] keys@[k]).2 == k,
    ensures
        r@.len() == keys@.len(),
        forall|k: int|
            0 <= k < r@.len() ==> 0 <= (#[trigger] r@[k]).2 < keys@.len() && r@[k] == keys@[(
            r@[k]).2 as int],
        forall|k1: int, k2: int|
            0 <= k1 < k2 < r@.len() ==> (#[trigger] r@[k1]).2 != (#[trigger] r@[k2]).2,
        forall|k1: int, k2: int|
            0 <= k1 < k2 < r@.len() ==> key_le(#[trigger] r@[k1], #[trigger] r@[k2]),
{
    let n = keys.len();
    let mut out: Vec<(i64, i64, usize)> = Vec::new();
    let mut j: usize = 0;
    while j < n
        invariant
            j <= n,
            n == keys@.len(),
            forall|k: int| 0 <= k < keys@.len() ==> (#[trigger] keys@[k]).2 == k,
            out@.len() == j,
            forall|k: int|
                0 <= k < out@.len() ==> 0 <= (#[trigger] out@[k]).2 < j && out@[k] == keys@[(
                out@[k]).2 as int],
            forall|k1: int, k2: int|
                0 <= k1 < k2 < out@.len() ==> (#[trigger] out@[k1]).2 != (#[trigger] out@[k2]).2,
            forall|k1: int, k2: int|
                0 <= k1 < k2 < out@.len() ==> key_le(#[trigger] out@[k1], #[trigger] out@[k2]),
        decreases n - j,
    {
        let v = keys[j];
        // find the first position whose key does not precede the new one
        let mut p: usize = 0;
        while p < out.len() && key_le_exec(out[p], v)
            invariant
                p <= out@.len(),
                forall|k: int| 0 <= k < p ==> key_le(#[trigger] out@[k], v),
            decreases out@.len() - p,
        {
            p += 1;
        }
        proof {
            if p < out@.len() {
                lemma_key_le_total(out@[p as int], v);
            }
            out@.insert_ensures(p as int, v);
        }
        let ghost before = out@;
        out.insert(p, v);
        proof {
            let now = out@;
            assert forall|k1: int, k2: int|
                0 <= k1 < k2 < now.len() implies key_le(#[trigger] now[k1], #[trigger] now[k2]) by {
                if k1 < p && k2 < p {
                    assert(now[k1] == before[k1] && now[k2] == before[k2]);
                } else if k1 < p && k2 == p {
                    assert(now[k1] == before[k1] && now[k2] == v);
                } else if k1 < p && k2 > p {
                    assert(now[k1] == before[k1] && now[k2] == before[k2 - 1]);
                } else if k1 == p && k2 > p {
                    assert(now[k2] == before[k2 - 1]);
                    if p < before.len() {
                        lemma_key_le_trans(v, before[p as int], before[k2 - 1]);
                    }
                } else {
                    assert(now[k1] == before[k1 - 1] && now[k2] == before[k2 - 1]);
                }
            }
            assert forall|k: int|
                0 <= k < now.len() implies 0 <= (#[trigger] now[k]).2 < j + 1 && now[k] == keys@[(
            now[k]).2 as int] by {
                if k < p {
                    assert(now[k] == before[k]);
                } else if k == p {
                    assert(now[k] == v);
                } else {
                    assert(now[k] == before[k - 1]);
                }
            }
            assert forall|k1: int, k2: int|
                0 <= k1 < k2 < now.len() implies (#[trigger] now[k1]).2 != (
            #[trigger] now[k2]).2 by {
                if k1 != p && k2 != p {
                    let b1: int = if k1 < p {
                        k1
                    } else {
                        k1 - 1
                    };
                    let b2: int = if k2 < p {
                        k2
                    } else {
                        k2 - 1
                    };
                    assert(now[k1] == before[b1] && now[k2] == before[b2]);
                } else if k1 == p {
                    assert(now[k1] == v && now[k2] == before[k2 - 1]);
                } else {
                    assert(now[k2] == v && now[k1] == before[k1]);
                }
            }
        }
        j += 1;
    }
    out
}

/// Sum of the published weights.
pub open spec fn sum_weights(s: Seq<StrategyAllocation>) -> int
    decreases s.len(),
{
    if s.len() == 0 {
        0
    } else {
        sum_weights(s.drop_last()) + s.last().weight
    }
}

/// The weight factor of a published Sharpe proxy, floored at
/// `WEIGHT_FLOOR` so every strategy keeps exploratory capital.
pub open spec fn weight_factor(sharpe: int) -> int {
    if sharpe < WEIGHT_FLOOR as int {
        WEIGHT_FLOOR as int
    } else {
        sharpe
    }
}

/// Sum of the weight factors of a published snapshot.
pub open spec fn sum_factors_of(s: Seq<StrategyAllocation>) -> int
    decreases s.len(),
{
    if s.len() == 0 {
        0
    } else {
        sum_factors_of(s.drop_last()) + weight_factor(s.last().sharpe_ratio as int)
    }
}

/// The floored proportional share of one entry: its factor's part of the
/// scale, rounded down.
pub open spec fn spec_share(sharpe: int, w: int) -> int {
    (weight_factor(sharpe) * (WEIGHT_SCALE as int)) / w
}

/// Sum of the floored shares of a snapshot.
pub open spec fn sum_shares(s: Seq<StrategyAllocation>, w: int) -> int
    decreases s.len(),
{
    if s.len() == 0 {
        0
    } else {
        sum_shares(s.drop_last(), w) + spec_share(s.last().sharpe_ratio as int, w)
    }
}

/// Every published weight is its entry's floored proportional share of
/// `max(sharpe, WEIGHT_FLOOR)` over the factor total, except that the
/// first (best-ranked) entry also receives the rounding remainder.
pub open spec fn weights_are_shares(out: Seq<StrategyAllocation>) -> bool {
    let w = sum_factors_of(out);
    &&& forall|k: int|
        1 <= k < out.len() ==> (#[trigger] out[k]).weight as int == spec_share(
            out[k].sharpe_ratio as int,
            w,
        )
    &&& out.len() >= 1 ==> out[0].weight as int == spec_share(out[0].sharpe_ratio as int, w) + (
    WEIGHT_SCALE as int - sum_shares(out, w))
}

/// A factor vector that flooring produced sums like the snapshot's factors.
proof fn lemma_sum_factors_match(f: Seq<u64>, out: Seq<StrategyAllocation>)
    requires
        f.len() == out.len(),
        forall|k: int|
            0 <= k < f.len() ==> #[trigger] f[k] as int == weight_factor(
                (out[k]).sharpe_ratio as int,
            ),
    ensures
        sum_u64(f) == sum_factors_of(out),
    decreases f.len(),
{
    if f.len() > 0 {
        assert forall|k: int|
            0 <= k < f.drop_last().len() implies #[trigger] f.drop_last()[k] as int
            == weight_factor((out.drop_last()[k]).sharpe_ratio as int) by {
            assert(f.drop_last()[k] == f[k]);
            assert(out.drop_last()[k] == out[k]);
        }
        lemma_sum_factors_match(f.drop_last(), out.drop_last());
        assert(f.last() as int == weight_factor(out.last().sharpe_ratio as int));
    }
}

/// When every weight after the first is its share, the tails sum alike.
proof fn lemma_tail_weights_eq_shares(wv: Seq<u64>, out: Seq<StrategyAllocation>, w: int)
    requires
        wv.len() == out.len(),
        wv.len() >= 1,
        forall|k: int|
            1 <= k < wv.len() ==> #[trigger] wv[k] as int == spec_share(
                (out[k]).sharpe_ratio as int,
                w,
            ),
    ensures
        sum_u64(wv) - wv[0] == sum_shares(out, w) - spec_share(out[0].sharpe_ratio as int, w),
    decreases wv.len(),
{
    if wv.len() == 1 {
        assert(sum_u64(wv.drop_last()) == 0);
        assert(sum_shares(out.drop_last(), w) == 0);
        assert(wv.last() == wv[0]);
        assert(out.last() == out[0]);
    } else {
        assert forall|k: int|
            1 <= k < wv.drop_last().len() implies #[trigger] wv.drop_last()[k] as int
            == spec_share((out.drop_last()[k]).sharpe_ratio as int, w) by {
            assert(wv.drop_last()[k] == wv[k]);
            assert(out.drop_last()[k] == out[k]);
        }
        assert(wv.drop_last()[0] == wv[0]);
        assert(out.drop_last()[0] == out[0]);
        lemma_tail_weights_eq_shares(wv.drop_last(), out.drop_last(), w);
        assert(wv.last() as int == spec_share(out.last().sharpe_ratio as int, w));
    }
}

/// Some mean makes this Sharpe proxy the metrics of the history.
pub open spec fn sharpe_explained(h: Seq<i64>, sharpe: int) -> bool {
    exists|mean: int| #[trigger] metrics_rel(h, mean, sharpe)
}

/// `out[k]` publishes strategy `perm[k]`: its id, a Sharpe proxy its
/// history explains, and the snapshot in publication order, each strategy
/// exactly once.
pub open spec fn is_alloc_perm(
    specs: Seq<StrategySpec>,
    hists: Seq<Vec<i64>>,
    out: Seq<StrategyAllocation>,
    perm: Seq<int>,
) -> bool {
    &&& perm.len() == out.len()
    &&& out.len() == specs.len()
    &&& forall|k: int| 0 <= k < perm.len() ==> 0 <= #[trigger] perm[k] < specs.len()
    &&& forall|k1: int, k2: int|
        0 <= k1 < k2 < perm.len() ==> #[trigger] perm[k1] != #[trigger] perm[k2]
    &&& forall|k: int|
        0 <= k < out.len() ==> (#[trigger] out[k]).id@ == specs[perm[k]].id@
    &&& forall|k: int|
        0 <= k < out.len() ==> #[trigger] sharpe_explained(hists[perm[k]]@, (out[k]).sharpe_ratio as int)
    &&& forall|k1: int, k2: int|
        0 <= k1 < k2 < out.len() ==> (#[trigger] out[k1]).sharpe_ratio >= (
        #[trigger] out[k2]).sharpe_ratio
}

/// One allocation snapshot: per strategy the Sharpe-proxy metrics of its
/// pnl history, a weight factor floored at `WEIGHT_FLOOR`, and weights
/// normalised over the whole population, published best Sharpe first (mean
/// breaking ties). Each weight is its entry's floored proportional share
/// of `max(sharpe, WEIGHT_FLOOR)` over the factor total, the first entry
/// also taking the rounding remainder, so the weights of a nonempty
/// population sum to exactly one.
pub fn compute_allocations(specs: &Vec<StrategySpec>, histories: &Vec<Vec<i64>>) -> (r: Vec<StrategyAllocation>)
    requires
        specs@.len() == histories@.len(),
        forall|i: int|
            0 <= i < histories@.len() ==> (#[trigger] histories@[i])@.len() <= MAX_HISTORY,
        forall|i: int, k: int|
            0 <= i < histories@.len() && 0 <= k < histories@[i]@.len() ==> -MAX_PNL_ABS <= (
            #[trigger] histories@[i]@[k]) <= MAX_PNL_ABS,
    ensures
        r@.len() == specs@.len(),
        specs@.len() >= 1 ==> sum_weights(r@) == WEIGHT_SCALE as int,
        specs@.len() >= 1 ==> weights_are_shares(r@),
        exists|perm: Seq<int>| #[trigger] is_alloc_perm(specs@, histories@, r@, perm),
{
    let n = specs.len();
    if n == 0 {
        let r: Vec<StrategyAllocation> = Vec::new();
        proof {
            let perm = Seq::<int>::empty();
            assert(is_alloc_perm(specs@, histories@, r@, perm));
        }
        return r;
    }
    // metrics per strategy, keyed by original position
    let mut keys: Vec<(i64, i64, usize)> = Vec::new();
    let mut i: usize = 0;
    while i < n
        invariant
            i <= n,
            n == specs@.len(),
            n == histories@.len(),
            forall|t: int|
                0 <= t < histories@.len() ==> (#[trigger] histories@[t])@.len() <= MAX_HISTORY,
            forall|t: int, k: int|
                0 <= t < histories@.len() && 0 <= k < histories@[t]@.len() ==> -MAX_PNL_ABS <= (
                #[trigger] histories@[t]@[k]) <= MAX_PNL_ABS,
            keys@.len() == i,
            forall|t: int| 0 <= t < i ==> (#[trigger] keys@[t]).2 == t,
            forall|t: int|
                0 <= t < i ==> #[trigger] metrics_rel(
                    histories@[t]@,
                    (keys@[t]).1 as int,
                    (keys@[t]).0 as int,
                ),
        decreases n - i,
    {
        let (mean, sharpe) = strategy_metrics(&histories[i]);
        keys.push((sharpe, mean, i));
        i += 1;
    }
    let sorted = sort_keys(&keys);
    // weight factors in publication order
    let mut factors: Vec<u64> = Vec::new();
    let mut k: usize = 0;
    while k < n
        invariant
            k <= n,
            n == sorted@.len(),
            factors@.len() == k,
            forall|t: int|
                0 <= t < k ==> WEIGHT_FLOOR <= #[trigger] factors@[t] <= i64::MAX as u64,
            forall|t: int|
                0 <= t < k ==> #[trigger] factors@[t] as int == weight_factor(
                    (sorted@[t]).0 as int,
                ),
        decreases n - k,
    {
        let s = sorted[k].0;
        let f: u64 = if s < WEIGHT_FLOOR as i64 {
            WEIGHT_FLOOR
        } else {
            s as u64
        };
        factors.push(f);
        k += 1;
    }
    let weights = normalise_weights(&factors);
    // assemble the snapshot
    let mut out: Vec<StrategyAllocation> = Vec::new();
    let mut k2: usize = 0;
    while k2 < n
        invariant
            k2 <= n,
            n == specs@.len(),
            n == histories@.len(),
            n == sorted@.len(),
            n == weights@.len(),
            forall|t: int|
                0 <= t < sorted@.len() ==> 0 <= (#[trigger] sorted@[t]).2 < n && sorted@[t]
                    == keys@[(sorted@[t]).2 as int],
            forall|t1: int, t2: int|
                0 <= t1 < t2 < sorted@.len() ==> (#[trigger] sorted@[t1]).2 != (
                #[trigger] sorted@[t2]).2,
            forall|t1: int, t2: int|
                0 <= t1 < t2 < sorted@.len() ==> key_le(
                    #[trigger] sorted@[t1],
                    #[trigger] sorted@[t2],
                ),
            keys@.len() == n,
            forall|t: int| 0 <= t < n ==> (#[trigger] keys@[t]).2 == t,
            forall|t: int|
                0 <= t < n ==> #[trigger] metrics_rel(
                    histories@[t]@,
                    (keys@[t]).1 as int,
                    (keys@[t]).0 as int,
                ),
            out@.len() == k2,
            sum_weights(out@) == sum_u64(weights@.take(k2 as int)),
            forall|t: int|
                0 <= t < k2 ==> (#[trigger] out@[t]).id@ == specs@[(sorted@[t]).2 as int].id@,
            forall|t: int|
                0 <= t < k2 ==> (#[trigger] out@[t]).sharpe_ratio == (sorted@[t]).0,
            forall|t: int| 0 <= t < k2 ==> (#[trigger] out@[t]).weight == weights@[t],
        decreases n - k2,
    {
        let idx = sorted[k2].2;
        let ghost out_before = out@;
        out.push(
            StrategyAllocation {
                id: specs[idx].id.clone(),
                weight: weights[k2],
                sharpe_ratio: sorted[k2].0,
            },
        );
        proof {
            assert(out@.drop_last() =~= out_before);
            assert(weights@.take(k2 as int + 1).drop_last() =~= weights@.take(k2 as int));
            assert(weights@.take(k2 as int + 1).last() == weights@[k2 as int]);
        }
        k2 += 1;
    }
    proof {
        assert(weights@.take(n as int) =~= weights@);
        let perm = Seq::<int>::new(n as nat, |k: int| (sorted@[k]).2 as int);
        assert forall|k: int| 0 <= k < out@.len() implies #[trigger] sharpe_explained(
            histories@[perm[k]]@,
            (out@[k]).sharpe_ratio as int,
        ) by {
            let t = (sorted@[k]).2 as int;
            assert(perm[k] == t);
            assert(out@[k].sharpe_ratio == (sorted@[k]).0);
            assert(sorted@[k] == keys@[t]);
            assert(metrics_rel(histories@[t]@, (keys@[t]).1 as int, (out@[k]).sharpe_ratio as int));
        }
        assert forall|k1: int, k2a: int|
            0 <= k1 < k2a < out@.len() implies (#[trigger] out@[k1]).sharpe_ratio >= (
        #[trigger] out@[k2a]).sharpe_ratio by {
            assert(key_le(sorted@[k1], sorted@[k2a]));
        }
        assert(is_alloc_perm(specs@, histories@, out@, perm));
        // each published weight is the floored share of its factor
        let w = sum_factors_of(out@);
        assert forall|k: int|
            0 <= k < factors@.len() implies #[trigger] factors@[k] as int == weight_factor(
            (out@[k]).sharpe_ratio as int,
        ) by {
            assert(out@[k].sharpe_ratio == (sorted@[k]).0);
        }
        lemma_sum_factors_match(factors@, out@);
        assert(sum_u64(factors@) == w);
        assert forall|k: int|
            1 <= k < out@.len() implies (#[trigger] out@[k]).weight as int == spec_share(
            out@[k].sharpe_ratio as int,
            w,
        ) by {
            assert(out@[k].weight == weights@[k]);
            assert(weights@[k] as int == ((factors@[k] as int) * (WEIGHT_SCALE as int)) / w);
        }
        assert forall|k: int|
            1 <= k < weights@.len() implies #[trigger] weights@[k] as int == spec_share(
            (out@[k]).sharpe_ratio as int,
            w,
        ) by {
            assert(out@[k].weight == weights@[k]);
        }
        lemma_tail_weights_eq_shares(weights@, out@, w);
        assert(sum_u64(weights@) == WEIGHT_SCALE);
        assert(out@[0].weight == weights@[0]);
        assert(weights@[0] as int == spec_share(out@[0].sharpe_ratio as int, w) + (
        WEIGHT_SCALE as int - sum_shares(out@, w)));
    }
    out
}

} // verus!
