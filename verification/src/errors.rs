use vstd::prelude::*;

verus! {

/// Error taxonomy of the accounting core.
///
/// Every operation is all-or-nothing: any of these aborts the entire
/// operation and guarantees zero observable state mutation.
#[derive(Clone, Copy, Debug, PartialEq, Eq, Structural)]
pub enum LedgerError {
    /// A zero or otherwise unusable quantity was supplied.
    InvalidAmount,
    /// A checked arithmetic step exceeded its integer range.
    MathOverflow,
    /// An operation was invoked with inputs violating a precondition,
    /// e.g. a decreasing locked amount.
    InvalidState,
    /// A tax split degenerated below the representable granularity.
    InvalidTaxCalculation,
    /// The caller is not the stored administrative principal.
    Unauthorized,
    /// A credential was requested below the minimum qualifying tier.
    NoEligibleTier,
    /// The external balance-movement collaborator failed.
    CustodyError,
    /// The operation is deliberately unfinished in this scope.
    NotImplemented,
}

} // verus!
