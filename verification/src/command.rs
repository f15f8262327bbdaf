use vstd::prelude::*;

use crate::accumulator::SizeAccumulator;
use crate::error::AnalysisError;
use crate::measurement::FramingMeasurement;
use crate::summary::{summarize, summary_matches, DistributionSummary};

verus! {

/// Every measurement in the batch carries only non-negative lengths.
pub open spec fn all_well_formed(ms: Seq<FramingMeasurement>) -> bool {
    forall|i: int| 0 <= i < ms.len() ==> (#[trigger] ms[i]).well_formed()
}

/// The total sizes of a batch of measurements, in encounter order.
pub open spec fn totals_of(ms: Seq<FramingMeasurement>) -> Seq<u64> {
    ms.map_values(|m: FramingMeasurement| m.spec_total() as u64)
}

/// The size-analysis command: turns the framing measurements of one
/// stream into a distribution summary of the value sizes.
pub struct SizeCommand;

impl SizeCommand {
    /// The command's name.
    pub fn name(&self) -> (r: &'static str)
        ensures
            r@ == "size"@,
    {
        "size"
    }

    /// The command's one-line description.
    pub fn about(&self) -> (r: &'static str)
        ensures
            r@ == "Prints the overall min, max, mean size of top-level values in the input stream."@,
    {
        "Prints the overall min, max, mean size of top-level values in the input stream."
    }

    /// Runs the whole analysis over one stream's framing measurements:
    /// accumulates the total size of every top-level value, then
    /// summarizes the population.
    ///
    /// A non-positive bucket count is rejected with
    /// `InvalidConfiguration` before the measurements are touched; a
    /// measurement with a negative length is rejected with
    /// `InvariantViolation`; otherwise the summary is exactly the one
    /// `summary_matches` describes for the measured sizes.
    pub fn analyze(
        &self,
        measurements: &Vec<FramingMeasurement>,
        bucket_count: usize,
    ) -> (r: Result<DistributionSummary, AnalysisError>)
        requires
            forall|i: int|
                0 <= i < measurements@.len() && (#[trigger] measurements@[i]).well_formed()
                    ==> measurements@[i].spec_total() <= u64::MAX,
        ensures
            bucket_count == 0 ==> (r matches Err(e) && e is InvalidConfiguration),
            bucket_count >= 1 && all_well_formed(measurements@) ==> (r matches Ok(s)
                && summary_matches(totals_of(measurements@), bucket_count, s)),
            bucket_count >= 1 && !all_well_formed(measurements@) ==> (r matches Err(e)
                && e is InvariantViolation),
    {
        if bucket_count == 0 {
            return Err(AnalysisError::InvalidConfiguration);
        }
        let mut acc = SizeAccumulator::new();
        let n = measurements.len();
        let mut j: usize = 0;
        while j < n
            invariant
                j <= n,
                n == measurements@.len(),
                bucket_count >= 1,
                forall|i: int|
                    0 <= i < measurements@.len() && (#[trigger] measurements@[i]).well_formed()
                        ==> measurements@[i].spec_total() <= u64::MAX,
                all_well_formed(measurements@.take(j as int)),
                acc@ == totals_of(measurements@.take(j as int)),
            decreases n - j,
        {
            match acc.record(&measurements[j]) {
                Ok(_) => {},
                Err(e) => {
                    proof {
                        assert(!measurements@[j as int].well_formed());
                        assert(!all_well_formed(measurements@));
                    }
                    return Err(e);
                },
            }
            j += 1;
            proof {
                let pre = measurements@.take(j - 1);
                let cur = measurements@.take(j as int);
                assert(forall|i: int| 0 <= i < pre.len() ==> pre[i] == cur[i]);
                assert(cur[j - 1] == measurements@[j - 1]);
                assert(totals_of(cur) =~= totals_of(pre).push(
                    measurements@[j - 1].spec_total() as u64,
                ));
            }
        }
        proof {
            assert(measurements@.take(n as int) =~= measurements@);
        }
        let samples = acc.finish();
        summarize(&samples, bucket_count)
    }
}

} // verus!
