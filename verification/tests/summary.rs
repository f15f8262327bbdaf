use ion_size::error::AnalysisError;
use ion_size::histogram::Fraction;
use ion_size::summary::{summarize, DistributionSummary, DEFAULT_BUCKET_COUNT};

fn ok(samples: Vec<u64>, buckets: usize) -> DistributionSummary {
    summarize(&samples, buckets).expect("positive bucket count must succeed")
}

#[test]
fn empty_sample_set_reports_nothing() {
    let s = ok(vec![], DEFAULT_BUCKET_COUNT);
    assert_eq!(s.count, 0);
    assert_eq!(s.min, None);
    assert_eq!(s.max, None);
    assert_eq!(s.sum, 0);
    assert!(s.histogram.is_empty());
    assert_eq!(s.mean(), None);
}

#[test]
fn zero_bucket_count_is_an_invalid_configuration() {
    match summarize(&vec![1, 2, 3], 0) {
        Err(e) => assert_eq!(e, AnalysisError::InvalidConfiguration),
        Ok(_) => panic!("a zero bucket count must be rejected"),
    }
}

#[test]
fn single_sample_gets_one_degenerate_bucket() {
    let s = ok(vec![42], 4);
    assert_eq!(s.count, 1);
    assert_eq!(s.min, Some(42));
    assert_eq!(s.max, Some(42));
    assert_eq!(s.sum, 42);
    assert_eq!(s.histogram.len(), 1);
    let b = &s.histogram[0];
    assert_eq!(b.lower, Fraction { num: 42 * 4, den: 4 });
    assert_eq!(b.upper, Fraction { num: 42 * 4, den: 4 });
    assert_eq!(b.count, 1);
}

#[test]
fn equal_samples_land_in_one_bucket() {
    let s = ok(vec![7, 7, 7, 7, 7], 4);
    assert_eq!(s.count, 5);
    assert_eq!(s.min, Some(7));
    assert_eq!(s.max, Some(7));
    assert_eq!(s.sum, 35);
    assert_eq!(s.mean(), Some(Fraction { num: 35, den: 5 }));
    assert_eq!(s.histogram.len(), 1);
    assert_eq!(s.histogram[0].count, 5);
    assert_eq!(s.histogram[0].lower, Fraction { num: 28, den: 4 });
    assert_eq!(s.histogram[0].upper, Fraction { num: 28, den: 4 });
}

#[test]
fn buckets_partition_the_range_evenly() {
    // range [0, 3], two buckets of width 1.5: [0, 1.5) holds 0 and 1,
    // [1.5, 3] holds 2 and 3 (the maximum is clamped into the last bucket).
    let s = ok(vec![0, 1, 2, 3], 2);
    assert_eq!(s.histogram.len(), 2);
    assert_eq!(s.histogram[0].lower, Fraction { num: 0, den: 2 });
    assert_eq!(s.histogram[0].upper, Fraction { num: 3, den: 2 });
    assert_eq!(s.histogram[1].lower, Fraction { num: 3, den: 2 });
    assert_eq!(s.histogram[1].upper, Fraction { num: 6, den: 2 });
    assert_eq!(s.histogram[0].count, 2);
    assert_eq!(s.histogram[1].count, 2);
}

#[test]
fn maximum_sample_is_absorbed_by_the_last_bucket() {
    let s = ok(vec![0, 4], 4);
    assert_eq!(s.histogram.len(), 4);
    assert_eq!(s.histogram[0].count, 1);
    assert_eq!(s.histogram[1].count, 0);
    assert_eq!(s.histogram[2].count, 0);
    assert_eq!(s.histogram[3].count, 1);
}

#[test]
fn bucket_counts_sum_to_the_population() {
    let samples = vec![3, 17, 9, 4, 4, 250, 18, 77, 3, 101, 55, 0, 9];
    let s = ok(samples.clone(), 5);
    let total: usize = s.histogram.iter().map(|b| b.count).sum();
    assert_eq!(total, samples.len());
    assert_eq!(s.count, samples.len());
}

#[test]
fn buckets_are_contiguous_and_cover_min_to_max() {
    let s = ok(vec![10, 20, 33, 47, 99], 7);
    let hist = &s.histogram;
    assert_eq!(hist.len(), 7);
    assert_eq!(hist[0].lower, Fraction { num: 10 * 7, den: 7 });
    assert_eq!(hist[hist.len() - 1].upper, Fraction { num: 99 * 7, den: 7 });
    for b in hist.iter() {
        assert!(b.lower.num <= b.upper.num);
        assert_eq!(b.lower.den, 7);
        assert_eq!(b.upper.den, 7);
    }
    for w in hist.windows(2) {
        assert_eq!(w[0].upper, w[1].lower);
    }
}

#[test]
fn mean_is_independent_of_sample_order() {
    let a = ok(vec![5, 9, 30, 2, 14], 4);
    let b = ok(vec![14, 2, 5, 30, 9], 4);
    assert_eq!(a.sum, b.sum);
    assert_eq!(a.count, b.count);
    assert_eq!(a.mean(), b.mean());
    assert_eq!(a.min, b.min);
    assert_eq!(a.max, b.max);
}

#[test]
fn mean_lies_between_min_and_max() {
    let s = ok(vec![1, 2, 3, 1000], 4);
    let mean = s.mean().unwrap();
    // min <= sum / count <= max, multiplied out to avoid rounding.
    let count = s.count as u128;
    assert!(s.min.unwrap() as u128 * count <= mean.num);
    assert!(mean.num <= s.max.unwrap() as u128 * count);
    assert_eq!(mean.den, s.count);
}

#[test]
fn extreme_sizes_do_not_overflow() {
    // each total is close to u64::MAX; the sum and the bucket boundary
    // numerators need wider arithmetic
    let big = u64::MAX - 1;
    let s = ok(vec![big, big, big], 4);
    assert_eq!(s.count, 3);
    assert_eq!(s.min, Some(big));
    assert_eq!(s.max, Some(big));
    assert_eq!(s.sum, 3 * big as u128);
    assert_eq!(s.histogram.len(), 1);
    assert_eq!(s.histogram[0].count, 3);
    assert_eq!(s.histogram[0].lower, Fraction { num: big as u128 * 4, den: 4 });
}

#[test]
fn one_bucket_holds_everything() {
    let s = ok(vec![1, 5, 9], 1);
    assert_eq!(s.histogram.len(), 1);
    assert_eq!(s.histogram[0].count, 3);
    assert_eq!(s.histogram[0].lower, Fraction { num: 1, den: 1 });
    assert_eq!(s.histogram[0].upper, Fraction { num: 9, den: 1 });
}
