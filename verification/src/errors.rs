use vstd::prelude::*;

verus! {

/// Typed failure conditions of the analysis routines.
///
/// Every analysis entry point reports malformed input through this enum
/// instead of panicking.
#[derive(Clone, Copy, PartialEq, Eq, Structural, Debug)]
pub enum AnalyzerError {
    /// An atom's element symbol has no entry in the radius table.
    UnknownElement,
    /// The three reference atoms of a plane fit are collinear and do not
    /// determine a unique plane.
    CollinearPoints,
    /// Malformed arguments: an out-of-range atom index, or an empty point
    /// set where at least one point is required.
    InvalidInput,
    /// The two point sets of a best-fit comparison differ in size.
    CardinalityMismatch,
}

} // verus!
