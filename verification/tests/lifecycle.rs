use nftpawn::errors::CustomError;
use nftpawn::errors::PawnError;
use nftpawn::errors::TransferError;
use nftpawn::escrow::Escrow;
use nftpawn::model::Loan;
use nftpawn::model::LoanKey;
use nftpawn::model::Scope;
use nftpawn::vault::Vault;

const ADMIN: u64 = 1;
const BORROWER: u64 = 2;
const LENDER: u64 = 3;
const NFT: u64 = 77;
const PRINCIPAL: u64 = 1_000_000_000;
const FEE: u64 = 3_000_000;

fn key() -> LoanKey {
    LoanKey { borrower: BORROWER, nft_mint: NFT }
}

/// A pool with the collateral in the borrower's wallet and the lender's
/// liquidity already advanced into the loan's escrow scope.
fn funded_pool() -> Vault {
    let mut v = Vault::initialize(ADMIN, PRINCIPAL);
    assert!(v.mint_nft(NFT, BORROWER));
    assert!(v.mint_currency(LENDER, PRINCIPAL));
    assert_eq!(v.fund_escrow(LENDER, BORROWER, NFT, PRINCIPAL), Ok(()));
    v
}

#[test]
fn initialize_sets_pool_defaults() {
    let v = Vault::initialize(ADMIN, PRINCIPAL);
    let cfg = v.pool_config();
    assert_eq!(cfg.admin, ADMIN);
    assert_eq!(cfg.loan_amount, PRINCIPAL);
    assert_eq!(cfg.bps_fee, 30);
    assert_eq!(v.loan_of(BORROWER, NFT), None);
    assert_eq!(v.balance_of(Scope::User(BORROWER)), 0);
    assert_eq!(v.holder_of(NFT), None);
}

#[test]
fn happy_path_full_cycle() {
    let mut v = funded_pool();
    assert!(v.mint_currency(BORROWER, FEE));

    // Deposit: the collateral moves into escrow and the record opens.
    assert_eq!(v.deposite(BORROWER, NFT), Ok(()));
    assert_eq!(
        v.loan_of(BORROWER, NFT),
        Some(Loan { nft_mint: NFT, borrower: BORROWER, amount: PRINCIPAL, active: true }),
    );
    assert_eq!(v.holder_of(NFT), Some(Scope::LoanEscrow(key())));

    // Fund: the borrower receives the principal from escrow.
    assert_eq!(v.lend_borrower(BORROWER, NFT), Ok(()));
    assert_eq!(v.balance_of(Scope::User(BORROWER)), PRINCIPAL + FEE);
    assert_eq!(v.balance_of(Scope::LoanEscrow(key())), 0);
    assert_eq!(
        v.loan_of(BORROWER, NFT),
        Some(Loan { nft_mint: NFT, borrower: BORROWER, amount: PRINCIPAL, active: true }),
    );

    // Repay: principal plus fee goes back to escrow, the collateral returns.
    assert_eq!(v.repay_borrower(BORROWER, NFT), Ok(()));
    assert_eq!(v.balance_of(Scope::User(BORROWER)), 0);
    assert_eq!(v.balance_of(Scope::LoanEscrow(key())), PRINCIPAL + FEE);
    assert_eq!(v.holder_of(NFT), Some(Scope::User(BORROWER)));
    assert_eq!(
        v.loan_of(BORROWER, NFT),
        Some(Loan { nft_mint: NFT, borrower: BORROWER, amount: PRINCIPAL, active: false }),
    );
}

#[test]
fn deposit_guard_no_double_deposit() {
    let mut v = funded_pool();
    assert_eq!(v.deposite(BORROWER, NFT), Ok(()));
    let before = v.loan_of(BORROWER, NFT);
    assert_eq!(
        v.deposite(BORROWER, NFT),
        Err(PawnError::Custom(CustomError::LoanIsActive)),
    );
    // The record and the custody of the collateral are unchanged.
    assert_eq!(v.loan_of(BORROWER, NFT), before);
    assert_eq!(v.holder_of(NFT), Some(Scope::LoanEscrow(key())));
}

#[test]
fn deposit_fails_without_the_collateral() {
    let mut v = Vault::initialize(ADMIN, PRINCIPAL);
    // The asset does not exist at all.
    assert_eq!(
        v.deposite(BORROWER, NFT),
        Err(PawnError::Transfer(TransferError::InsufficientFunds)),
    );
    // The asset exists but sits in someone else's wallet.
    assert!(v.mint_nft(NFT, LENDER));
    assert_eq!(
        v.deposite(BORROWER, NFT),
        Err(PawnError::Transfer(TransferError::InsufficientFunds)),
    );
    assert_eq!(v.loan_of(BORROWER, NFT), None);
    assert_eq!(v.holder_of(NFT), Some(Scope::User(LENDER)));
}

#[test]
fn fund_guard_requires_deposit() {
    let mut v = Vault::initialize(ADMIN, PRINCIPAL);
    // No deposit ever recorded a borrower under this key.
    assert_eq!(
        v.lend_borrower(BORROWER, NFT),
        Err(PawnError::Custom(CustomError::BorrowerNotFound)),
    );
    // The empty identity never names a borrower.
    assert_eq!(
        v.lend_borrower(0, NFT),
        Err(PawnError::Custom(CustomError::BorrowerNotFound)),
    );
}

#[test]
fn fund_fails_on_unfunded_escrow() {
    let mut v = Vault::initialize(ADMIN, PRINCIPAL);
    assert!(v.mint_nft(NFT, BORROWER));
    assert_eq!(v.deposite(BORROWER, NFT), Ok(()));
    // Nobody advanced liquidity into this loan's escrow scope.
    assert_eq!(
        v.lend_borrower(BORROWER, NFT),
        Err(PawnError::Transfer(TransferError::InsufficientFunds)),
    );
    assert_eq!(v.balance_of(Scope::User(BORROWER)), 0);
}

#[test]
fn fund_does_not_revalidate_active() {
    // Funding moves currency only; it works even after repayment closed the
    // record, provided the escrow still holds liquidity.
    let mut v = funded_pool();
    assert!(v.mint_currency(BORROWER, FEE));
    assert_eq!(v.deposite(BORROWER, NFT), Ok(()));
    assert_eq!(v.lend_borrower(BORROWER, NFT), Ok(()));
    assert_eq!(v.repay_borrower(BORROWER, NFT), Ok(()));
    // The record is inactive, yet the escrow now holds principal plus fee.
    assert_eq!(v.lend_borrower(BORROWER, NFT), Ok(()));
    assert_eq!(v.balance_of(Scope::User(BORROWER)), PRINCIPAL);
    assert_eq!(v.balance_of(Scope::LoanEscrow(key())), FEE);
}

#[test]
fn repay_guard_requires_active() {
    let mut v = funded_pool();
    // No record at all.
    assert_eq!(
        v.repay_borrower(BORROWER, NFT),
        Err(PawnError::Custom(CustomError::LoanIsNotActive)),
    );
    // A full cycle, then a second repayment against the closed record.
    assert!(v.mint_currency(BORROWER, FEE));
    assert_eq!(v.deposite(BORROWER, NFT), Ok(()));
    assert_eq!(v.lend_borrower(BORROWER, NFT), Ok(()));
    assert_eq!(v.repay_borrower(BORROWER, NFT), Ok(()));
    assert_eq!(
        v.repay_borrower(BORROWER, NFT),
        Err(PawnError::Custom(CustomError::LoanIsNotActive)),
    );
    assert_eq!(v.holder_of(NFT), Some(Scope::User(BORROWER)));
}

#[test]
fn repay_overflow_checked_before_transfers() {
    // A pool whose default principal makes the fee product overflow.
    let mut v = Vault::initialize(ADMIN, u64::MAX);
    assert!(v.mint_nft(NFT, BORROWER));
    assert_eq!(v.deposite(BORROWER, NFT), Ok(()));
    // The borrower holds nothing, yet the arithmetic fails first.
    assert_eq!(
        v.repay_borrower(BORROWER, NFT),
        Err(PawnError::Custom(CustomError::MathOverflow)),
    );
    // Nothing moved, the loan stays active and the collateral escrowed.
    assert_eq!(v.loan_of(BORROWER, NFT).unwrap().active, true);
    assert_eq!(v.holder_of(NFT), Some(Scope::LoanEscrow(key())));
}

#[test]
fn no_collateral_release_without_payment() {
    let mut v = funded_pool();
    assert_eq!(v.deposite(BORROWER, NFT), Ok(()));
    assert_eq!(v.lend_borrower(BORROWER, NFT), Ok(()));
    // The borrower holds the principal but not the fee: the payment fails,
    // and the collateral is not released.
    assert_eq!(
        v.repay_borrower(BORROWER, NFT),
        Err(PawnError::Transfer(TransferError::InsufficientFunds)),
    );
    assert_eq!(v.holder_of(NFT), Some(Scope::LoanEscrow(key())));
    assert_eq!(v.loan_of(BORROWER, NFT).unwrap().active, true);
    assert_eq!(v.balance_of(Scope::User(BORROWER)), PRINCIPAL);
}

#[test]
fn fund_overflow_reported_on_full_wallet() {
    let mut v = Vault::initialize(ADMIN, 100);
    assert!(v.mint_nft(NFT, BORROWER));
    assert_eq!(v.deposite(BORROWER, NFT), Ok(()));
    assert!(v.mint_currency(LENDER, 100));
    assert_eq!(v.fund_escrow(LENDER, BORROWER, NFT, 100), Ok(()));
    assert!(v.mint_currency(BORROWER, u64::MAX));
    assert_eq!(
        v.lend_borrower(BORROWER, NFT),
        Err(PawnError::Transfer(TransferError::RecipientOverflow)),
    );
    assert_eq!(v.balance_of(Scope::User(BORROWER)), u64::MAX);
    assert_eq!(v.balance_of(Scope::LoanEscrow(key())), 100);
}

#[test]
fn fund_escrow_needs_lender_funds() {
    let mut v = Vault::initialize(ADMIN, PRINCIPAL);
    assert_eq!(
        v.fund_escrow(LENDER, BORROWER, NFT, 1),
        Err(TransferError::InsufficientFunds),
    );
}

#[test]
fn redeposit_after_repay_starts_new_cycle() {
    let mut v = funded_pool();
    assert!(v.mint_currency(BORROWER, FEE));
    assert_eq!(v.deposite(BORROWER, NFT), Ok(()));
    assert_eq!(v.lend_borrower(BORROWER, NFT), Ok(()));
    assert_eq!(v.repay_borrower(BORROWER, NFT), Ok(()));
    // The pair's record is inactive and the borrower holds the collateral
    // again, so a fresh deposit opens a new cycle under the same key.
    assert_eq!(v.deposite(BORROWER, NFT), Ok(()));
    assert_eq!(
        v.loan_of(BORROWER, NFT),
        Some(Loan { nft_mint: NFT, borrower: BORROWER, amount: PRINCIPAL, active: true }),
    );
    assert_eq!(v.holder_of(NFT), Some(Scope::LoanEscrow(key())));
}

#[test]
fn loans_of_distinct_pairs_are_independent() {
    let other: u64 = 9;
    let other_nft: u64 = 78;
    let mut v = funded_pool();
    assert!(v.mint_nft(other_nft, other));
    assert_eq!(v.deposite(BORROWER, NFT), Ok(()));
    assert_eq!(v.deposite(other, other_nft), Ok(()));
    // One borrower cannot pledge an asset escrowed for another pair.
    assert_eq!(
        v.deposite(other, NFT),
        Err(PawnError::Transfer(TransferError::InsufficientFunds)),
    );
    assert_eq!(v.loan_of(other, NFT), None);
    assert_eq!(v.loan_of(BORROWER, NFT).unwrap().active, true);
    assert_eq!(v.loan_of(other, other_nft).unwrap().active, true);
}

#[test]
fn collateral_mint_is_unique() {
    let mut v = Vault::initialize(ADMIN, PRINCIPAL);
    assert!(v.mint_nft(NFT, BORROWER));
    assert!(!v.mint_nft(NFT, LENDER));
    assert_eq!(v.holder_of(NFT), Some(Scope::User(BORROWER)));
}

#[test]
fn wallet_mint_guards_overflow() {
    let mut v = Vault::initialize(ADMIN, PRINCIPAL);
    assert!(v.mint_currency(BORROWER, u64::MAX));
    assert!(!v.mint_currency(BORROWER, 1));
    assert_eq!(v.balance_of(Scope::User(BORROWER)), u64::MAX);
}

#[test]
fn custody_authority_derivation_is_deterministic() {
    let a = Escrow::for_loan(key());
    let b = Escrow::for_loan(key());
    assert_eq!(a.owner(), b.owner());
    assert_eq!(a.owner(), key());
}
