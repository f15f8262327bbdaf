use ion_size::command::SizeCommand;
use ion_size::error::AnalysisError;
use ion_size::histogram::Fraction;
use ion_size::measurement::FramingMeasurement;

fn m(header: i64, ann: Option<i64>, value: i64) -> FramingMeasurement {
    FramingMeasurement { header_length: header, annotations_length: ann, value_length: value }
}

#[test]
fn command_is_named_size() {
    let cmd = SizeCommand;
    assert_eq!(cmd.name(), "size");
    assert_eq!(
        cmd.about(),
        "Prints the overall min, max, mean size of top-level values in the input stream."
    );
}

#[test]
fn two_measurements_example() {
    // sizes [14, 10]: count 2, min 10, max 14, mean 12; four buckets of
    // width 1 over [10, 14], holding [1, 0, 0, 1] samples.
    let ms = vec![m(4, None, 10), m(2, Some(5), 3)];
    let cmd = SizeCommand;
    let s = cmd.analyze(&ms, 4).expect("well-formed measurements must summarize");
    assert_eq!(s.count, 2);
    assert_eq!(s.min, Some(10));
    assert_eq!(s.max, Some(14));
    assert_eq!(s.sum, 24);
    assert_eq!(s.mean(), Some(Fraction { num: 24, den: 2 }));
    assert_eq!(s.histogram.len(), 4);
    let counts: Vec<usize> = s.histogram.iter().map(|b| b.count).collect();
    assert_eq!(counts, vec![1, 0, 0, 1]);
    let total: usize = counts.iter().sum();
    assert_eq!(total, 2);
    // boundaries 10, 11, 12, 13, 14 as fractions over 4
    assert_eq!(s.histogram[0].lower, Fraction { num: 40, den: 4 });
    assert_eq!(s.histogram[0].upper, Fraction { num: 44, den: 4 });
    assert_eq!(s.histogram[3].lower, Fraction { num: 52, den: 4 });
    assert_eq!(s.histogram[3].upper, Fraction { num: 56, den: 4 });
}

#[test]
fn negative_length_fails_the_whole_analysis() {
    let ms = vec![m(4, None, 10), m(2, Some(-5), 3)];
    let cmd = SizeCommand;
    match cmd.analyze(&ms, 4) {
        Err(e) => assert_eq!(e, AnalysisError::InvariantViolation),
        Ok(_) => panic!("a negative length must not produce a summary"),
    }
}

#[test]
fn bucket_count_is_checked_before_the_measurements() {
    // even with a contract-breaching measurement in the batch, a zero
    // bucket count is rejected first
    let ms = vec![m(-4, None, 10)];
    let cmd = SizeCommand;
    match cmd.analyze(&ms, 0) {
        Err(e) => assert_eq!(e, AnalysisError::InvalidConfiguration),
        Ok(_) => panic!("a zero bucket count must be rejected"),
    }
}

#[test]
fn empty_stream_analyzes_to_an_empty_summary() {
    let cmd = SizeCommand;
    let s = cmd.analyze(&vec![], 4).expect("an empty stream must summarize");
    assert_eq!(s.count, 0);
    assert_eq!(s.min, None);
    assert_eq!(s.max, None);
    assert!(s.histogram.is_empty());
    assert_eq!(s.mean(), None);
}
