use vstd::prelude::*;

use crate::error::AnalysisError;
use crate::histogram::{bound_num, bucket_counts, build_buckets, count_in, Bucket, Fraction};
use crate::stats::{lemma_min_max_of, lemma_sum_of_bounds, max_of, min_of, sum_of};

verus! {

/// The number of histogram buckets used when the caller expresses no
/// preference.
pub const DEFAULT_BUCKET_COUNT: usize = 4;

/// The terminal output of the analysis: count, extrema, exact sum (from
/// which the mean is derived), and an equal-width histogram over the
/// observed size range.  Immutable once computed.
#[derive(Clone, Debug)]
pub struct DistributionSummary {
    pub count: usize,
    pub min: Option<u64>,
    pub max: Option<u64>,
    pub sum: u128,
    pub histogram: Vec<Bucket>,
}

/// What the histogram of a sample set must look like.
///
/// - No samples: no buckets.
/// - All samples equal (including the one-sample case): a single
///   degenerate bucket spanning `[min, min]` holding every sample.  This
///   is the fixed policy of this crate for a zero-width range.
/// - Otherwise: exactly `bc` contiguous equal-width buckets covering
///   `[min, max]`, the `i`-th holding the samples whose bucket index
///   is `i`.  Boundaries are exact rationals over denominator `bc`.
pub open spec fn histogram_matches(samples: Seq<u64>, bc: usize, hist: Seq<Bucket>) -> bool {
    if samples.len() == 0 {
        hist.len() == 0
    } else {
        let mn = min_of(samples);
        let mx = max_of(samples);
        if mn == mx {
            hist =~= seq![
                (Bucket {
                    lower: Fraction { num: (mn * bc) as u128, den: bc },
                    upper: Fraction { num: (mn * bc) as u128, den: bc },
                    count: samples.len() as usize,
                }),
            ]
        } else {
            &&& hist.len() == bc
            &&& forall|i: int|
                0 <= i < bc ==> hist[i] == (Bucket {
                    lower: Fraction { num: bound_num(mn, mx, bc, i) as u128, den: bc },
                    upper: Fraction { num: bound_num(mn, mx, bc, i + 1) as u128, den: bc },
                    count: count_in(samples, mn, mx, bc, i) as usize,
                })
        }
    }
}

/// What a correct summary of a sample set states: the exact population
/// count, the exact extrema (absent for an empty population), the exact
/// sum, and a histogram as described by `histogram_matches`.
pub open spec fn summary_matches(samples: Seq<u64>, bc: usize, s: DistributionSummary) -> bool {
    &&& s.count == samples.len()
    &&& s.sum == sum_of(samples)
    &&& s.min == (if samples.len() == 0 {
        Option::<u64>::None
    } else {
        Option::<u64>::Some(min_of(samples))
    })
    &&& s.max == (if samples.len() == 0 {
        Option::<u64>::None
    } else {
        Option::<u64>::Some(max_of(samples))
    })
    &&& histogram_matches(samples, bc, s.histogram@)
}

impl DistributionSummary {
    /// Mean sample size, as an exact rational `sum / count`; absent when
    /// the population is empty.
    pub fn mean(&self) -> (r: Option<Fraction>)
        ensures
            self.count == 0 ==> r is None,
            self.count > 0 ==> (r matches Some(f) && f.num == self.sum && f.den == self.count),
    {
        if self.count == 0 {
            None
        } else {
            Some(Fraction { num: self.sum, den: self.count })
        }
    }
}

/// One pass over a non-empty sample set computing its minimum, maximum
/// and exact sum.
pub fn min_max_sum(samples: &Vec<u64>) -> (r: (u64, u64, u128))
    requires
        samples@.len() > 0,
    ensures
        r.0 == min_of(samples@),
        r.1 == max_of(samples@),
        r.2 == sum_of(samples@),
{
    let n = samples.len();
    let mut mn: u64 = samples[0];
    let mut mx: u64 = samples[0];
    let mut sum: u128 = samples[0] as u128;
    proof {
        assert(samples@.take(1).last() == samples@[0]);
        assert(samples@.take(1).drop_last() =~= Seq::<u64>::empty());
        assert(sum_of(Seq::<u64>::empty()) == 0);
        assert(sum_of(samples@.take(1)) == samples@[0]);
    }
    let mut j: usize = 1;
    while j < n
        invariant
            1 <= j <= n,
            n == samples@.len(),
            mn == min_of(samples@.take(j as int)),
            mx == max_of(samples@.take(j as int)),
            sum == sum_of(samples@.take(j as int)),
        decreases n - j,
    {
        let v = samples[j];
        proof {
            let pre = samples@.take(j as int);
            lemma_sum_of_bounds(pre, 0, u64::MAX as int);
            assert(pre.len() * (u64::MAX as int) <= u64::MAX * u64::MAX) by (nonlinear_arith)
                requires
                    0 <= pre.len() <= u64::MAX,
            ;
            assert(u64::MAX * u64::MAX + u64::MAX < u128::MAX) by (nonlinear_arith);
            assert(samples@.take(j as int + 1).drop_last() =~= pre);
            assert(samples@.take(j as int + 1).last() == samples@[j as int]);
        }
        if v < mn {
            mn = v;
        }
        if v > mx {
            mx = v;
        }
        sum = sum + (v as u128);
        j += 1;
    }
    proof {
        assert(samples@.take(n as int) =~= samples@);
    }
    (mn, mx, sum)
}

/// Computes the distribution summary of a frozen sample set.
///
/// Fails with `InvalidConfiguration` if and only if `bucket_count` is
/// zero; for every positive bucket count it succeeds, and the summary is
/// exactly pinned down by `summary_matches`.
pub fn summarize(samples: &Vec<u64>, bucket_count: usize) -> (r: Result<
    DistributionSummary,
    AnalysisError,
>)
    ensures
        bucket_count == 0 ==> (r matches Err(e) && e is InvalidConfiguration),
        bucket_count >= 1 ==> (r matches Ok(s) && summary_matches(samples@, bucket_count, s)),
{
    if bucket_count == 0 {
        return Err(AnalysisError::InvalidConfiguration);
    }
    let n = samples.len();
    if n == 0 {
        return Ok(
            DistributionSummary {
                count: 0,
                min: None,
                max: None,
                sum: 0,
                histogram: Vec::new(),
            },
        );
    }
    let (mn, mx, sum) = min_max_sum(samples);
    let histogram: Vec<Bucket> = if mn == mx {
        proof {
            assert(mn * bucket_count <= u64::MAX * u64::MAX) by (nonlinear_arith)
                requires
                    0 <= mn <= u64::MAX,
                    0 <= bucket_count <= u64::MAX,
            ;
            assert(u64::MAX * u64::MAX < u128::MAX) by (nonlinear_arith);
        }
        let bound = Fraction { num: (mn as u128) * (bucket_count as u128), den: bucket_count };
        let mut hist: Vec<Bucket> = Vec::new();
        hist.push(Bucket { lower: bound, upper: bound, count: n });
        hist
    } else {
        proof {
            lemma_min_max_of(samples@);
        }
        let counts = bucket_counts(samples, mn, mx, bucket_count);
        build_buckets(&counts, mn, mx, bucket_count)
    };
    Ok(DistributionSummary { count: n, min: Some(mn), max: Some(mx), sum, histogram })
}

} // verus!
