use nftpawn::errors::CustomError;
use nftpawn::fee::calc_fee;

#[test]
fn fee_basic_truncation() {
    // 1000 * 30 / 10000 = 3, exactly.
    assert_eq!(calc_fee(1000, 30), Ok(3));
    // 999 * 30 / 10000 = 2.997, truncated toward zero.
    assert_eq!(calc_fee(999, 30), Ok(2));
}

#[test]
fn fee_zero_cases() {
    assert_eq!(calc_fee(0, 30), Ok(0));
    assert_eq!(calc_fee(12345, 0), Ok(0));
    // Below one whole basis point's worth, the fee truncates to zero.
    assert_eq!(calc_fee(333, 1), Ok(0));
}

#[test]
fn fee_is_deterministic() {
    let a = calc_fee(987_654_321, 30);
    let b = calc_fee(987_654_321, 30);
    assert_eq!(a, b);
    assert_eq!(a, Ok(2_962_962));
}

#[test]
fn fee_overflow_guard() {
    // u64::MAX * 30 cannot be represented: checked, never wrapped.
    assert_eq!(calc_fee(u64::MAX, 30), Err(CustomError::MathOverflow));
    assert_eq!(calc_fee(u64::MAX / 2, 3), Err(CustomError::MathOverflow));
}

#[test]
fn fee_largest_exact_inputs() {
    // The largest principal whose product with 30 bps still fits.
    let p = u64::MAX / 30;
    assert_eq!(calc_fee(p, 30), Ok(p * 30 / 10000));
}
