use vstd::prelude::*;
use crate::errors::CustomError;

verus! {

/// Basis points in a whole: a fee rate of `BPS_DENOMINATOR` means 100%.
pub const BPS_DENOMINATOR: u64 = 10000;

/// The lender's fee for a principal of `amount` at a rate of `fee_bps`
/// basis points: `amount * fee_bps / 10000`, truncated toward zero.
pub open spec fn spec_fee(amount: nat, fee_bps: nat) -> nat {
    (amount * fee_bps) / 10000
}

/// Computes the lender's fee from the principal and a basis-point rate.
///
/// Fails with `MathOverflow` exactly when the product `amount * fee_bps`
/// does not fit in a `u64`; it is checked, never wrapped.  The division by
/// the basis-point denominator cannot fail.
pub fn calc_fee(amount: u64, fee_bps: u64) -> (r: Result<u64, CustomError>)
    ensures
        amount * fee_bps <= u64::MAX ==> r == Ok::<u64, CustomError>(
            spec_fee(amount as nat, fee_bps as nat) as u64,
        ),
        amount * fee_bps > u64::MAX ==> r == Err::<u64, CustomError>(CustomError::MathOverflow),
{
    match amount.checked_mul(fee_bps) {
        Some(product) => Ok(product / BPS_DENOMINATOR),
        None => Err(CustomError::MathOverflow),
    }
}

} // verus!
