use vstd::prelude::*;

verus! {

/// The byte-lengths describing one top-level value's on-wire footprint:
/// the type/length header, an optional annotations prefix, and the value
/// body itself.  `annotations_length` is `None` when the value carries no
/// annotations, which is distinct from a zero-length annotations block.
///
/// The lengths are signed so that a contract breach by the upstream
/// decoder (a negative length) can be detected and reported rather than
/// silently folded into a size.
#[derive(Clone, Copy, Debug)]
pub struct FramingMeasurement {
    pub header_length: i64,
    pub annotations_length: Option<i64>,
    pub value_length: i64,
}

impl FramingMeasurement {
    /// A measurement is well formed when every length it carries is
    /// non-negative.
    pub open spec fn well_formed(self) -> bool {
        &&& self.header_length >= 0
        &&& self.value_length >= 0
        &&& (self.annotations_length matches Some(a) ==> a >= 0)
    }

    /// Total byte footprint of the value: header + body + annotations
    /// (counting an absent annotations block as zero bytes).
    pub open spec fn spec_total(self) -> int {
        self.header_length + self.value_length + match self.annotations_length {
            Some(a) => a as int,
            None => 0int,
        }
    }
}

} // verus!
