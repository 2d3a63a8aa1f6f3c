use vstd::prelude::*;

verus! {

/// The identity of an account or asset.  Identities are plain, comparable
/// values; `0` is the distinguished empty identity, used to detect an unset
/// borrower field.
pub type Identity = u64;

/// The empty identity: no account or asset ever carries it.
pub const EMPTY_IDENTITY: u64 = 0;

/// The composite key of a loan: the store holds at most one record per
/// (borrower, collateral) pair.
#[derive(Clone, Copy, Debug, PartialEq, Eq, Structural)]
pub struct LoanKey {
    pub borrower: Identity,
    pub nft_mint: Identity,
}

/// A custody scope of the ledger: either a user's own wallet, or the escrow
/// scope bound to one loan.  Assets held by an escrow scope can only be moved
/// under the custody authority derived from that loan's key.
#[derive(Clone, Copy, Debug, PartialEq, Eq, Structural)]
pub enum Scope {
    User(Identity),
    LoanEscrow(LoanKey),
}

/// Pool configuration, one per administrator: the default principal advanced
/// to each borrower and the fee rate in basis points.
#[derive(Clone, Copy, Debug, PartialEq, Eq, Structural)]
pub struct Config {
    pub admin: Identity,
    pub loan_amount: u64,
    pub bps_fee: u64,
}

/// A loan record: the state machine for one (borrower, collateral) pair.
/// `active` is true from a successful deposit until a successful repayment.
#[derive(Clone, Copy, Debug, PartialEq, Eq, Structural)]
pub struct Loan {
    pub nft_mint: Identity,
    pub borrower: Identity,
    pub amount: u64,
    pub active: bool,
}

impl Loan {
    /// The key under which this record is stored.
    pub open spec fn key(self) -> LoanKey {
        LoanKey { borrower: self.borrower, nft_mint: self.nft_mint }
    }
}

/// One currency account of the ledger: a scope and the balance it holds.
#[derive(Clone, Copy, Debug, PartialEq, Eq, Structural)]
pub struct Balance {
    pub scope: Scope,
    pub amount: u64,
}

/// One non-fungible asset of the ledger: a mint and the scope holding it.
#[derive(Clone, Copy, Debug, PartialEq, Eq, Structural)]
pub struct NftSlot {
    pub mint: Identity,
    pub holder: Scope,
}

} // verus!
