use vstd::prelude::*;

verus! {

/// An exact rational number `num / den`.  Bucket boundaries of an
/// equal-width histogram are in general not whole byte counts, so they
/// are carried exactly: every boundary of a histogram with `bc` buckets
/// is a multiple of `1 / bc`.
#[derive(Clone, Copy, Debug, PartialEq, Eq, Structural)]
pub struct Fraction {
    pub num: u128,
    pub den: usize,
}

/// One histogram bucket: the sub-range `[lower, upper]` of the observed
/// size domain and the number of samples assigned to it.
#[derive(Clone, Copy, Debug, PartialEq, Eq, Structural)]
pub struct Bucket {
    pub lower: Fraction,
    pub upper: Fraction,
    pub count: usize,
}

/// Index of the bucket that sample `v` falls into when `[mn, mx]` is
/// split into `bc` equal-width intervals: `floor((v - mn) * bc / (mx - mn))`,
/// clamped to the last bucket so that the maximum value is included.
pub open spec fn bucket_index(v: u64, mn: u64, mx: u64, bc: usize) -> int
    recommends
        mn <= v <= mx,
        bc >= 1,
{
    if mx <= mn {
        0
    } else {
        let raw = ((v - mn) * bc) / (mx - mn);
        if raw >= bc {
            bc - 1
        } else {
            raw
        }
    }
}

/// Numerator, over denominator `bc`, of the `i`-th boundary of the
/// histogram over `[mn, mx]` with `bc` buckets: the boundary's value is
/// `mn + i * (mx - mn) / bc`.
pub open spec fn bound_num(mn: u64, mx: u64, bc: usize, i: int) -> int {
    mn * bc + i * (mx - mn)
}

/// Number of samples of `s` whose bucket index is `i`.
pub open spec fn count_in(s: Seq<u64>, mn: u64, mx: u64, bc: usize, i: int) -> int
    decreases s.len(),
{
    if s.len() == 0 {
        0
    } else {
        count_in(s.drop_last(), mn, mx, bc, i) + if bucket_index(s.last(), mn, mx, bc) == i {
            1int
        } else {
            0int
        }
    }
}

/// Number of samples of `s` whose bucket index is below `k`.
pub open spec fn count_below(s: Seq<u64>, mn: u64, mx: u64, bc: usize, k: int) -> int
    decreases s.len(),
{
    if s.len() == 0 {
        0
    } else {
        count_below(s.drop_last(), mn, mx, bc, k) + if bucket_index(s.last(), mn, mx, bc) < k {
            1int
        } else {
            0int
        }
    }
}

/// Total number of samples a histogram accounts for.
pub open spec fn total_count(hist: Seq<Bucket>) -> int
    decreases hist.len(),
{
    if hist.len() == 0 {
        0
    } else {
        total_count(hist.drop_last()) + hist.last().count
    }
}

/// Every sample at or above the range minimum lands in one of the `bc`
/// buckets: its index is in `[0, bc)`.
pub proof fn lemma_bucket_index_range(v: u64, mn: u64, mx: u64, bc: usize)
    requires
        bc >= 1,
        mn <= v,
    ensures
        0 <= bucket_index(v, mn, mx, bc) < bc,
{
    if mx <= mn {
    } else {
        vstd::arithmetic::div_mod::lemma_div_pos_is_pos((v - mn) * bc, mx - mn);
        assert((v - mn) * bc >= 0) by (nonlinear_arith)
            requires
                v >= mn,
                bc >= 1,
        ;
    }
}

/// A bucket never holds more samples than the whole sample set.
pub proof fn lemma_count_in_le_len(s: Seq<u64>, mn: u64, mx: u64, bc: usize, i: int)
    ensures
        0 <= count_in(s, mn, mx, bc, i) <= s.len(),
    decreases s.len(),
{
    if s.len() == 0 {
    } else {
        lemma_count_in_le_len(s.drop_last(), mn, mx, bc, i);
    }
}

/// Counting the samples below bucket `k + 1` adds exactly the samples of
/// bucket `k` to those below bucket `k`.
pub proof fn lemma_count_below_step(s: Seq<u64>, mn: u64, mx: u64, bc: usize, k: int)
    ensures
        count_below(s, mn, mx, bc, k + 1) == count_below(s, mn, mx, bc, k) + count_in(
            s,
            mn,
            mx,
            bc,
            k,
        ),
    decreases s.len(),
{
    if s.len() == 0 {
    } else {
        lemma_count_below_step(s.drop_last(), mn, mx, bc, k);
    }
}

/// With every sample at or above the range minimum, all samples lie below
/// bucket `bc` and none below bucket `0`.
pub proof fn lemma_count_below_all(s: Seq<u64>, mn: u64, mx: u64, bc: usize)
    requires
        bc >= 1,
        forall|i: int| 0 <= i < s.len() ==> mn <= #[trigger] s[i],
    ensures
        count_below(s, mn, mx, bc, bc as int) == s.len(),
        count_below(s, mn, mx, bc, 0) == 0,
    decreases s.len(),
{
    if s.len() == 0 {
    } else {
        let d = s.drop_last();
        assert(forall|i: int| 0 <= i < d.len() ==> mn <= #[trigger] d[i]) by {
            assert(forall|i: int| 0 <= i < d.len() ==> d[i] == s[i]);
        }
        lemma_count_below_all(d, mn, mx, bc);
        assert(mn <= s[s.len() - 1]);
        lemma_bucket_index_range(s.last(), mn, mx, bc);
    }
}

/// One pass over the samples, assigning each to its bucket and counting
/// the members of every bucket.
pub fn bucket_counts(samples: &Vec<u64>, mn: u64, mx: u64, bucket_count: usize) -> (counts: Vec<
    usize,
>)
    requires
        bucket_count >= 1,
        mn < mx,
        forall|i: int| 0 <= i < samples@.len() ==> mn <= #[trigger] samples@[i] <= mx,
    ensures
        counts@.len() == bucket_count,
        forall|k: int|
            0 <= k < bucket_count ==> counts@[k] == count_in(samples@, mn, mx, bucket_count, k),
{
    let mut counts: Vec<usize> = Vec::new();
    let mut i: usize = 0;
    while i < bucket_count
        invariant
            i <= bucket_count,
            counts@.len() == i,
            forall|k: int| 0 <= k < i ==> counts@[k] == 0,
        decreases bucket_count - i,
    {
        counts.push(0);
        i += 1;
    }
    let n = samples.len();
    let mut j: usize = 0;
    while j < n
        invariant
            j <= n,
            n == samples@.len(),
            bucket_count >= 1,
            mn < mx,
            forall|i2: int| 0 <= i2 < samples@.len() ==> mn <= #[trigger] samples@[i2] <= mx,
            counts@.len() == bucket_count,
            forall|k: int|
                0 <= k < bucket_count ==> counts@[k] == count_in(
                    samples@.take(j as int),
                    mn,
                    mx,
                    bucket_count,
                    k,
                ),
        decreases n - j,
    {
        let v = samples[j];
        proof {
            assert(mn <= samples@[j as int] <= mx);
            lemma_bucket_index_range(v, mn, mx, bucket_count);
            assert((v - mn) * bucket_count <= u64::MAX * u64::MAX) by (nonlinear_arith)
                requires
                    0 <= v - mn <= u64::MAX,
                    0 <= bucket_count <= u64::MAX,
            ;
            assert(u64::MAX * u64::MAX < u128::MAX) by (nonlinear_arith);
            vstd::arithmetic::div_mod::lemma_div_pos_is_pos((v - mn) * bucket_count, mx - mn);
        }
        let num: u128 = ((v - mn) as u128) * (bucket_count as u128);
        let den: u128 = (mx - mn) as u128;
        let raw: u128 = num / den;
        let idx: usize = if raw >= bucket_count as u128 {
            bucket_count - 1
        } else {
            raw as usize
        };
        proof {
            assert(idx == bucket_index(v, mn, mx, bucket_count));
            lemma_count_in_le_len(samples@.take(j as int), mn, mx, bucket_count, idx as int);
        }
        let c = counts[idx];
        counts[idx] = c + 1;
        j += 1;
        proof {
            assert(samples@.take(j as int).drop_last() =~= samples@.take(j as int - 1));
            assert(samples@.take(j as int).last() == v);
        }
    }
    proof {
        assert(samples@.take(n as int) =~= samples@);
    }
    counts
}

/// Builds the bucket objects for the histogram over `[mn, mx]` with
/// `bucket_count` equal-width intervals, taking the per-bucket member
/// counts as computed by `bucket_counts`.
pub fn build_buckets(counts: &Vec<usize>, mn: u64, mx: u64, bucket_count: usize) -> (hist: Vec<
    Bucket,
>)
    requires
        bucket_count >= 1,
        mn < mx,
        counts@.len() == bucket_count,
    ensures
        hist@.len() == bucket_count,
        forall|i: int|
            0 <= i < bucket_count ==> hist@[i] == (Bucket {
                lower: Fraction {
                    num: bound_num(mn, mx, bucket_count, i) as u128,
                    den: bucket_count,
                },
                upper: Fraction {
                    num: bound_num(mn, mx, bucket_count, i + 1) as u128,
                    den: bucket_count,
                },
                count: counts@[i],
            }),
{
    proof {
        assert(mn * bucket_count <= u64::MAX * u64::MAX) by (nonlinear_arith)
            requires
                0 <= mn <= u64::MAX,
                0 <= bucket_count <= u64::MAX,
        ;
        assert(u64::MAX * u64::MAX < u128::MAX) by (nonlinear_arith);
    }
    let base: u128 = (mn as u128) * (bucket_count as u128);
    let w: u128 = (mx - mn) as u128;
    let mut hist: Vec<Bucket> = Vec::new();
    let mut i: usize = 0;
    while i < bucket_count
        invariant
            i <= bucket_count,
            hist@.len() == i,
            counts@.len() == bucket_count,
            bucket_count >= 1,
            mn < mx,
            base == mn * bucket_count,
            w == mx - mn,
            forall|k: int|
                0 <= k < i ==> hist@[k] == (Bucket {
                    lower: Fraction {
                        num: bound_num(mn, mx, bucket_count, k) as u128,
                        den: bucket_count,
                    },
                    upper: Fraction {
                        num: bound_num(mn, mx, bucket_count, k + 1) as u128,
                        den: bucket_count,
                    },
                    count: counts@[k],
                }),
        decreases bucket_count - i,
    {
        proof {
            assert(base + (i + 1) * w <= bucket_count * (mx as int)) by (nonlinear_arith)
                requires
                    base == mn * bucket_count,
                    w == mx - mn,
                    0 <= mn < mx,
                    0 <= i,
                    i + 1 <= bucket_count,
            ;
            assert(bucket_count * (mx as int) <= u64::MAX * u64::MAX) by (nonlinear_arith)
                requires
                    0 <= bucket_count <= u64::MAX,
                    0 <= mx <= u64::MAX,
            ;
            assert(u64::MAX * u64::MAX < u128::MAX) by (nonlinear_arith);
            assert((i + 1) * w == i * w + w) by (nonlinear_arith);
            assert(i * w >= 0) by (nonlinear_arith)
                requires
                    0 <= i,
                    0 <= w,
            ;
        }
        let lo: u128 = base + (i as u128) * w;
        let hi: u128 = lo + w;
        hist.push(
            Bucket {
                lower: Fraction { num: lo, den: bucket_count },
                upper: Fraction { num: hi, den: bucket_count },
                count: counts[i],
            },
        );
        i += 1;
    }
    hist
}

} // verus!
