//! An escrow for loans collateralized by a non-fungible asset.
//!
//! A borrower pledges a non-fungible asset, a lender advances principal from
//! an escrow scope bound to the loan, and the borrower later repays principal
//! plus a basis-point fee to reclaim the asset.  The state machine, the fee
//! arithmetic, the custody-authority model and the ledger bookkeeping are all
//! verified; every escrow-outbound move of an asset demands a capability that
//! can only be derived from the loan's own identity.

pub mod errors;
pub mod fee;
pub mod model;
pub mod escrow;
pub mod vault;
