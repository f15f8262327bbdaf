use vstd::prelude::*;

use crate::histogram::{
    bound_num, count_below, count_in, lemma_count_below_all, lemma_count_below_step,
    lemma_count_in_le_len, total_count, Bucket,
};
use crate::stats::{
    lemma_min_max_of, lemma_sum_of_bounds, lemma_sum_of_reorder, max_of, min_of, sum_of,
};
use crate::summary::{summary_matches, DistributionSummary};

verus! {

/// A sample set whose samples all equal `v` has minimum, maximum and mean
/// `v`: its sum is `len * v`.
pub proof fn lemma_all_equal_stats(s: Seq<u64>, v: u64)
    requires
        s.len() > 0,
        forall|i: int| 0 <= i < s.len() ==> s[i] == v,
    ensures
        min_of(s) == v,
        max_of(s) == v,
        sum_of(s) == s.len() * v,
    decreases s.len(),
{
    if s.len() == 1 {
        assert(s.last() == s[0]);
        assert(s.drop_last() =~= Seq::<u64>::empty());
        assert(sum_of(Seq::<u64>::empty()) == 0);
        assert(1 * v == v) by (nonlinear_arith);
    } else {
        let d = s.drop_last();
        assert(forall|i: int| 0 <= i < d.len() ==> d[i] == s[i]);
        lemma_all_equal_stats(d, v);
        assert(s.last() == s[s.len() - 1]);
        assert(d.len() * v + v == s.len() * v) by (nonlinear_arith)
            requires
                d.len() == s.len() - 1,
        ;
    }
}

/// The summary of `n > 0` equal samples `v` reports `min = max = v`, a
/// sum of `n * v` (so the mean is exactly `v`), and a single degenerate
/// bucket spanning `[v, v]` that holds all `n` samples.
pub proof fn lemma_uniform_summary(samples: Seq<u64>, v: u64, bc: usize, s: DistributionSummary)
    requires
        0 < samples.len() <= usize::MAX,
        forall|i: int| 0 <= i < samples.len() ==> samples[i] == v,
        bc >= 1,
        summary_matches(samples, bc, s),
    ensures
        s.count == samples.len(),
        s.min == Some(v),
        s.max == Some(v),
        s.sum == s.count * v,
        s.histogram@.len() == 1,
        s.histogram@[0].count == samples.len(),
        s.histogram@[0].lower == s.histogram@[0].upper,
        s.histogram@[0].lower.num == v * bc,
        s.histogram@[0].lower.den == bc,
{
    lemma_all_equal_stats(samples, v);
    assert(0 <= v * bc <= u64::MAX * u64::MAX) by (nonlinear_arith)
        requires
            0 <= v <= u64::MAX,
            0 <= bc <= u64::MAX,
    ;
    assert(u64::MAX * u64::MAX < u128::MAX) by (nonlinear_arith);
}

/// Proof that a histogram whose first `k` buckets hold the counts of
/// buckets `0 .. k` accounts in total for all samples below bucket `k`.
proof fn lemma_total_count_prefix(
    hist: Seq<Bucket>,
    samples: Seq<u64>,
    mn: u64,
    mx: u64,
    bc: usize,
    k: int,
)
    requires
        samples.len() <= usize::MAX,
        bc >= 1,
        forall|i: int| 0 <= i < samples.len() ==> mn <= #[trigger] samples[i],
        0 <= k <= bc,
        hist.len() == k,
        forall|i: int|
            0 <= i < k ==> (#[trigger] hist[i]).count == count_in(samples, mn, mx, bc, i) as usize,
    ensures
        total_count(hist) == count_below(samples, mn, mx, bc, k),
    decreases k,
{
    if k == 0 {
        lemma_count_below_all(samples, mn, mx, bc);
    } else {
        let d = hist.drop_last();
        assert(forall|i: int| 0 <= i < d.len() ==> d[i] == hist[i]);
        lemma_total_count_prefix(d, samples, mn, mx, bc, k - 1);
        lemma_count_below_step(samples, mn, mx, bc, k - 1);
        lemma_count_in_le_len(samples, mn, mx, bc, k - 1);
        assert(hist.last() == hist[k - 1]);
    }
}

/// Every sample lands in exactly one bucket: the bucket member counts of
/// a summary's histogram add up to the population count.
pub proof fn lemma_histogram_counts_sum(samples: Seq<u64>, bc: usize, s: DistributionSummary)
    requires
        samples.len() <= usize::MAX,
        bc >= 1,
        summary_matches(samples, bc, s),
    ensures
        total_count(s.histogram@) == samples.len(),
        total_count(s.histogram@) == s.count,
{
    let hist = s.histogram@;
    if samples.len() == 0 {
    } else {
        let mn = min_of(samples);
        let mx = max_of(samples);
        if mn == mx {
            assert(hist.drop_last() =~= Seq::<Bucket>::empty());
            assert(total_count(hist.drop_last()) == 0);
            assert(hist.last() == hist[0]);
        } else {
            lemma_min_max_of(samples);
            assert forall|i: int| 0 <= i < bc implies (#[trigger] hist[i]).count == count_in(
                samples,
                mn,
                mx,
                bc,
                i,
            ) as usize by {
                lemma_count_in_le_len(samples, mn, mx, bc, i);
            }
            lemma_total_count_prefix(hist, samples, mn, mx, bc, bc as int);
            lemma_count_below_all(samples, mn, mx, bc);
        }
    }
}

/// Proof of the numeric facts about one boundary numerator: it is
/// non-negative, fits comfortably below `2^128`, does not decrease from
/// one boundary to the next, and starts at `min * bc` and ends at
/// `max * bc`.
proof fn lemma_bound_num_at(mn: u64, mx: u64, bc: usize, i: int)
    requires
        bc >= 1,
        mn <= mx,
        0 <= i <= bc,
    ensures
        0 <= bound_num(mn, mx, bc, i) <= u64::MAX * u64::MAX,
        u64::MAX * u64::MAX < u128::MAX,
        i < bc ==> bound_num(mn, mx, bc, i) <= bound_num(mn, mx, bc, i + 1),
        bound_num(mn, mx, bc, 0) == mn * bc,
        bound_num(mn, mx, bc, bc as int) == mx * bc,
{
    assert(0 <= mn * bc && 0 <= i * (mx - mn)) by (nonlinear_arith)
        requires
            0 <= mn,
            0 <= bc,
            0 <= i,
            mn <= mx,
    ;
    assert(mn * bc + i * (mx - mn) <= bc * mx) by (nonlinear_arith)
        requires
            0 <= mn <= mx,
            0 <= i <= bc,
    ;
    assert(bc * mx <= u64::MAX * u64::MAX) by (nonlinear_arith)
        requires
            0 <= bc <= u64::MAX,
            0 <= mx <= u64::MAX,
    ;
    assert(u64::MAX * u64::MAX < u128::MAX) by (nonlinear_arith);
    assert((i + 1) * (mx - mn) == i * (mx - mn) + (mx - mn)) by (nonlinear_arith);
    assert(0 * (mx - mn) == 0) by (nonlinear_arith);
    assert(mn * bc + bc * (mx - mn) == mx * bc) by (nonlinear_arith);
}

/// The buckets of a summary's histogram are geometrically sound: each
/// spans a non-empty range (`lower <= upper`), consecutive buckets are
/// contiguous (each upper bound is the next bucket's lower bound, so they
/// are non-overlapping), the first lower bound is the population minimum
/// and the last upper bound is the population maximum.  All boundaries
/// are fractions over the denominator `bc`.
pub proof fn lemma_histogram_bounds(samples: Seq<u64>, bc: usize, s: DistributionSummary)
    requires
        0 < samples.len() <= usize::MAX,
        bc >= 1,
        summary_matches(samples, bc, s),
    ensures
        s.histogram@.len() >= 1,
        forall|i: int|
            0 <= i < s.histogram@.len() ==> (#[trigger] s.histogram@[i]).lower.den == bc
                && s.histogram@[i].upper.den == bc,
        forall|i: int|
            0 <= i < s.histogram@.len() ==> (#[trigger] s.histogram@[i]).lower.num
                <= s.histogram@[i].upper.num,
        forall|i: int|
            0 <= i < s.histogram@.len() - 1 ==> (#[trigger] s.histogram@[i]).upper
                == s.histogram@[i + 1].lower,
        s.histogram@[0].lower.num == min_of(samples) * bc,
        s.histogram@[s.histogram@.len() - 1].upper.num == max_of(samples) * bc,
{
    let hist = s.histogram@;
    let mn = min_of(samples);
    let mx = max_of(samples);
    lemma_min_max_of(samples);
    if mn == mx {
        assert(0 <= mn * bc <= u64::MAX * u64::MAX) by (nonlinear_arith)
            requires
                0 <= mn <= u64::MAX,
                0 <= bc <= u64::MAX,
        ;
        assert(u64::MAX * u64::MAX < u128::MAX) by (nonlinear_arith);
    } else {
        assert forall|i: int| 0 <= i <= bc implies 0 <= #[trigger] bound_num(mn, mx, bc, i)
            <= u64::MAX * u64::MAX by {
            lemma_bound_num_at(mn, mx, bc, i);
        }
        assert forall|i: int| 0 <= i < bc implies #[trigger] bound_num(mn, mx, bc, i) <= bound_num(
            mn,
            mx,
            bc,
            i + 1,
        ) by {
            lemma_bound_num_at(mn, mx, bc, i);
        }
        lemma_bound_num_at(mn, mx, bc, 0);
        lemma_bound_num_at(mn, mx, bc, bc as int);
    }
}

/// The mean depends only on which samples occur how often, never on
/// their order: summaries of two reorderings of one sample multiset have
/// the same count and the same sum, hence the same mean.
pub proof fn lemma_mean_reorder(
    a: Seq<u64>,
    b: Seq<u64>,
    bc_a: usize,
    bc_b: usize,
    sa: DistributionSummary,
    sb: DistributionSummary,
)
    requires
        a.to_multiset() == b.to_multiset(),
        summary_matches(a, bc_a, sa),
        summary_matches(b, bc_b, sb),
    ensures
        sa.count == sb.count,
        sa.sum == sb.sum,
{
    lemma_sum_of_reorder(a, b);
}

/// The mean lies between the minimum and the maximum, inclusive: as
/// exact rationals, `min <= sum / count <= max`, stated multiplied out.
pub proof fn lemma_mean_between_extrema(samples: Seq<u64>, bc: usize, s: DistributionSummary)
    requires
        samples.len() > 0,
        summary_matches(samples, bc, s),
    ensures
        s.min == Some(min_of(samples)),
        s.max == Some(max_of(samples)),
        s.count * min_of(samples) <= s.sum,
        s.sum <= s.count * max_of(samples),
{
    lemma_min_max_of(samples);
    lemma_sum_of_bounds(samples, min_of(samples) as int, max_of(samples) as int);
}

} // verus!
