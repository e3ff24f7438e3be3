use vstd::prelude::*;

verus! {

/// Why a set of sample points cannot be fitted.
#[derive(Clone, Copy, Debug, PartialEq, Eq, Structural)]
pub enum FitError {
    /// The x and y coordinate lists differ in length.
    InvalidInput,
    /// A denominator of the fit is zero: repeated x coordinates for
    /// interpolation, no spread in x for regression.
    DegenerateInput,
}

} // verus!
