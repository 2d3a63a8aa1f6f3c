use vstd::prelude::*;

verus! {

/// The guard failures of the loan lifecycle, as the caller sees them.
#[derive(Clone, Copy, Debug, PartialEq, Eq, Structural)]
pub enum CustomError {
    /// A deposit was attempted while a loan for the same
    /// (borrower, collateral) pair is still active.
    LoanIsActive,
    /// Funding was attempted before any deposit recorded a borrower.
    BorrowerNotFound,
    /// Funding or repayment was attempted against an inactive loan.
    LoanIsNotActive,
    /// The fee or the total-repayment computation would overflow.
    MathOverflow,
}

/// Failures of the asset ledger: a transfer that cannot be made whole is
/// refused outright, never applied in part.
#[derive(Clone, Copy, Debug, PartialEq, Eq, Structural)]
pub enum TransferError {
    /// The debited scope does not hold the asset, or not enough of it.
    InsufficientFunds,
    /// Crediting the receiving scope would overflow its balance.
    RecipientOverflow,
}

/// Everything a lifecycle operation can report: one of its own guard
/// failures, or a failure of an asset transfer it issued.
#[derive(Clone, Copy, Debug, PartialEq, Eq, Structural)]
pub enum PawnError {
    Custom(CustomError),
    Transfer(TransferError),
}

} // verus!
