//! Tests of the fixed-supply voucher ledger and its pool invariant.

use asset_ledger::voucher::{Voucher, VoucherError, INITIAL_VOUCHER_SUPPLY};

const ALICE: u64 = 1;
const BOB: u64 = 2;

#[test]
fn genesis_supply_is_eighty_million_units_of_twelve_decimals() {
    assert_eq!(INITIAL_VOUCHER_SUPPLY, 80_000_000u128 * 10u128.pow(12));
}

#[test]
fn new_pool_is_full_and_unissued() {
    let pool = Voucher::new(INITIAL_VOUCHER_SUPPLY);
    assert_eq!(pool.total_supplied_voucher(), INITIAL_VOUCHER_SUPPLY);
    assert_eq!(pool.remaining_voucher(), INITIAL_VOUCHER_SUPPLY);
    assert_eq!(pool.voucher(ALICE), 0);
}

#[test]
fn issue_moves_vouchers_out_of_the_pool() {
    let mut pool = Voucher::new(INITIAL_VOUCHER_SUPPLY);
    pool.issue(ALICE, 1000).unwrap();
    assert_eq!(pool.voucher(ALICE), 1000);
    assert_eq!(pool.remaining_voucher(), INITIAL_VOUCHER_SUPPLY - 1000);
    pool.issue(ALICE, 500).unwrap();
    assert_eq!(pool.voucher(ALICE), 1500);
    assert_eq!(pool.remaining_voucher(), INITIAL_VOUCHER_SUPPLY - 1500);
}

#[test]
fn destroy_returns_vouchers_to_the_pool() {
    let mut pool = Voucher::new(INITIAL_VOUCHER_SUPPLY);
    pool.issue(ALICE, 1000).unwrap();
    pool.destroy(ALICE, 1000).unwrap();
    assert_eq!(pool.voucher(ALICE), 0);
    assert_eq!(pool.remaining_voucher(), INITIAL_VOUCHER_SUPPLY);
}

#[test]
fn issue_rejects_more_than_the_pool_holds() {
    let mut pool = Voucher::new(100);
    assert_eq!(pool.issue(ALICE, 101), Err(VoucherError::TransferringTooBigBalance));
    assert_eq!(pool.voucher(ALICE), 0);
    assert_eq!(pool.remaining_voucher(), 100);
    pool.issue(ALICE, 100).unwrap();
    assert_eq!(pool.issue(BOB, 1), Err(VoucherError::TransferringTooBigBalance));
}

#[test]
fn destroy_rejects_more_than_the_account_holds() {
    let mut pool = Voucher::new(100);
    pool.issue(ALICE, 40).unwrap();
    assert_eq!(pool.destroy(ALICE, 41), Err(VoucherError::TransferringTooBigBalance));
    assert_eq!(pool.voucher(ALICE), 40);
    assert_eq!(pool.remaining_voucher(), 60);
    assert_eq!(pool.destroy(BOB, 1), Err(VoucherError::TransferringTooBigBalance));
}

#[test]
fn pool_accounting_stays_consistent_across_operations() {
    let mut pool = Voucher::new(10_000);
    pool.issue(ALICE, 4000).unwrap();
    pool.issue(BOB, 1000).unwrap();
    pool.destroy(ALICE, 500).unwrap();
    // Remaining plus every balance is exactly the authorized total.
    assert_eq!(
        pool.remaining_voucher() + pool.voucher(ALICE) + pool.voucher(BOB),
        pool.total_supplied_voucher()
    );
    assert_eq!(pool.voucher(ALICE), 3500);
    assert_eq!(pool.voucher(BOB), 1000);
    assert_eq!(pool.remaining_voucher(), 5500);
}

#[test]
fn reset_zeroes_every_account_and_restores_the_pool() {
    let mut pool = Voucher::new(10_000);
    pool.issue(ALICE, 4000).unwrap();
    pool.issue(BOB, 1000).unwrap();
    pool.reset();
    assert_eq!(pool.voucher(ALICE), 0);
    assert_eq!(pool.voucher(BOB), 0);
    assert_eq!(pool.remaining_voucher(), 10_000);
    // Reset is idempotent.
    pool.reset();
    assert_eq!(pool.remaining_voucher(), 10_000);
    // The pool works normally afterwards.
    pool.issue(ALICE, 7).unwrap();
    assert_eq!(pool.voucher(ALICE), 7);
    assert_eq!(pool.remaining_voucher(), 9993);
}
