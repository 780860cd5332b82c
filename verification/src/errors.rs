use vstd::prelude::*;

verus! {

/// The error kinds that any operation of this library can report.
///
/// Every failure aborts the whole call: no operation commits a partial
/// state change and then reports an error.
#[derive(Clone, Copy, Debug, PartialEq, Eq, Structural)]
pub enum TrustError {
    /// An argument is outside its allowed range: a trust level outside
    /// `[0, TRUST_LEVEL_SCALE]`, or a zero extraction amount.
    InvalidArgument,
    /// Held plus attached funds fall short of the required storage cost,
    /// or an extraction exceeds the surplus; carries the exact shortfall.
    InsufficientFunds { deficit: u128 },
    /// A blocked caller tried to set a trust edge, or a non-privileged
    /// caller tried to extract surplus funds.
    PermissionDenied,
    /// The caller asked to delete an account that has no record.
    NotFound,
}

} // verus!
