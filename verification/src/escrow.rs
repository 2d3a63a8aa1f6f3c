use vstd::prelude::*;
use crate::model::LoanKey;

verus! {

/// The custody authority over one loan's escrowed assets.
///
/// It is a capability, not a ledger: it holds no balance and no key.  It can
/// only be derived, reproducibly, from the loan's own identity, and every
/// escrow-outbound transfer demands it as a parameter.  No other value
/// authorizes moving that loan's escrowed assets.
#[derive(Clone, Copy, Debug)]
pub struct Escrow {
    owner: LoanKey,
}

impl Escrow {
    /// The loan this custody scope is bound to.
    pub closed spec fn spec_owner(self) -> LoanKey {
        self.owner
    }

    /// Derives the custody authority for the loan identified by `key`.
    /// The derivation is deterministic: the result is fixed by `key` alone.
    pub fn for_loan(key: LoanKey) -> (auth: Escrow)
        ensures
            auth.spec_owner() == key,
    {
        Escrow { owner: key }
    }

    /// The identity this authority is bound to.
    pub fn owner(&self) -> (key: LoanKey)
        ensures
            key == self.spec_owner(),
    {
        self.owner
    }
}

/// The derivation is functional: two authorities bound to the same loan are
/// the same value, so each loan has exactly one custody scope.
pub proof fn lemma_escrow_determined(a: Escrow, b: Escrow)
    requires
        a.spec_owner() == b.spec_owner(),
    ensures
        a == b,
{
}

} // verus!
