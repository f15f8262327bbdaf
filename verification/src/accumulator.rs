use vstd::prelude::*;

use crate::error::AnalysisError;
use crate::measurement::FramingMeasurement;

verus! {

/// Converts a stream of framing measurements into the ordered sequence of
/// total value sizes (one per top-level value), in stream encounter order.
/// The accumulator is single-use: `finish` consumes it and freezes the
/// sample set.
pub struct SizeAccumulator {
    samples: Vec<u64>,
}

impl View for SizeAccumulator {
    type V = Seq<u64>;

    closed spec fn view(&self) -> Seq<u64> {
        self.samples@
    }
}

impl SizeAccumulator {
    /// A fresh accumulator holds no samples.
    pub fn new() -> (r: SizeAccumulator)
        ensures
            r@ == Seq::<u64>::empty(),
    {
        SizeAccumulator { samples: Vec::new() }
    }

    /// Number of samples recorded so far.
    pub fn count(&self) -> (n: usize)
        ensures
            n == self@.len(),
    {
        self.samples.len()
    }

    /// Appends the total size of one value to the sample set.
    ///
    /// A measurement with any negative length is a contract breach by the
    /// upstream decoder: it is rejected with `InvariantViolation` and the
    /// sample set is left untouched.
    pub fn record(&mut self, m: &FramingMeasurement) -> (r: Result<(), AnalysisError>)
        requires
            m.well_formed() ==> m.spec_total() <= u64::MAX,
        ensures
            m.well_formed() ==> r is Ok && final(self)@ == old(self)@.push(m.spec_total() as u64),
            !m.well_formed() ==> (r matches Err(e) && e is InvariantViolation) && final(self)@
                == old(self)@,
    {
        let h = m.header_length;
        let v = m.value_length;
        if h < 0 || v < 0 {
            return Err(AnalysisError::InvariantViolation);
        }
        let a: i64 = match m.annotations_length {
            Some(a) => {
                if a < 0 {
                    return Err(AnalysisError::InvariantViolation);
                }
                a
            },
            None => 0,
        };
        let total: u64 = (h as u64) + (v as u64) + (a as u64);
        self.samples.push(total);
        Ok(())
    }

    /// Freezes the accumulated sample set and hands it out.
    pub fn finish(self) -> (r: Vec<u64>)
        ensures
            r@ == self@,
    {
        self.samples
    }
}

} // verus!
