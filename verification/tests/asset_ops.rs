//! End-to-end tests of the asset operations engine.

use asset_ledger::assets::Assets;
use asset_ledger::types::{AssetError, TokenType};

const ALICE: u64 = 1;
const BOB: u64 = 2;

#[test]
fn create_reserved_dot_returns_id_zero_and_zero_supplies() {
    let mut assets = Assets::new();
    let (id, pair) = assets.create(b"DOT".to_vec(), 4).unwrap();
    assert_eq!(id, 0);
    assert_eq!(pair.token.symbol, b"DOT".to_vec());
    assert_eq!(pair.token.precision, 4);
    assert_eq!(pair.token.total_supply, 0);
    assert_eq!(pair.vtoken.symbol, b"DOT".to_vec());
    assert_eq!(pair.vtoken.precision, 4);
    assert_eq!(pair.vtoken.total_supply, 0);
    assert!(assets.token_exists(0));
}

#[test]
fn create_reserved_ksm_and_eos_take_their_ids() {
    let mut assets = Assets::new();
    let (ksm, _) = assets.create(b"KSM".to_vec(), 4).unwrap();
    let (eos, _) = assets.create(b"EOS".to_vec(), 4).unwrap();
    assert_eq!(ksm, 1);
    assert_eq!(eos, 2);
}

#[test]
fn create_other_symbols_allocate_sequentially() {
    let mut assets = Assets::new();
    let (a, _) = assets.create(b"ABC".to_vec(), 8).unwrap();
    let (b, _) = assets.create(b"XYZ".to_vec(), 8).unwrap();
    // The same symbol again is not deduplicated: it takes a fresh id.
    let (c, _) = assets.create(b"ABC".to_vec(), 8).unwrap();
    assert_eq!(a, 3);
    assert_eq!(b, 4);
    assert_eq!(c, 5);
}

#[test]
fn create_rejects_empty_symbol_first() {
    let mut assets = Assets::new();
    assert_eq!(assets.create(Vec::new(), 17), Err(AssetError::EmptyTokenSymbol));
    assert!(!assets.token_exists(0));
}

#[test]
fn create_rejects_symbol_longer_than_32_bytes() {
    let mut assets = Assets::new();
    let symbol = vec![65u8; 33];
    assert_eq!(assets.create(symbol, 4), Err(AssetError::TokenSymbolTooLong));
    let just_fits = vec![65u8; 32];
    assert!(assets.create(just_fits, 4).is_ok());
}

#[test]
fn create_rejects_precision_above_16() {
    let mut assets = Assets::new();
    assert_eq!(assets.create(b"DOT".to_vec(), 17), Err(AssetError::InvalidPrecision));
    assert!(assets.create(b"DOT".to_vec(), 16).is_ok());
}

#[test]
fn issue_credits_balance_cost_and_supply() {
    let mut assets = Assets::new();
    assets.create(b"DOT".to_vec(), 4).unwrap();
    assets.issue(0, TokenType::Token, ALICE, 100, 2).unwrap();
    let record = assets.get_account_asset(0, TokenType::Token, ALICE);
    assert_eq!(record.balance, 100);
    assert_eq!(record.cost, 200);
    assert_eq!(record.income, 0);
    assert_eq!(assets.get_token(0).token.total_supply, 100);
    assert_eq!(assets.get_token(0).vtoken.total_supply, 0);
}

#[test]
fn issue_rejects_unknown_asset_and_zero_amount() {
    let mut assets = Assets::new();
    assert_eq!(assets.issue(7, TokenType::Token, ALICE, 5, 1), Err(AssetError::TokenNotExist));
    assets.create(b"DOT".to_vec(), 4).unwrap();
    assert_eq!(
        assets.issue(0, TokenType::Token, ALICE, 0, 1),
        Err(AssetError::ZeroAmountOfBalance)
    );
    // An unknown asset is reported even when the amount is zero too.
    assert_eq!(assets.issue(9, TokenType::Token, ALICE, 0, 1), Err(AssetError::TokenNotExist));
}

#[test]
fn issue_registers_the_asset_id_once() {
    let mut assets = Assets::new();
    assets.create(b"DOT".to_vec(), 4).unwrap();
    assets.issue(0, TokenType::Token, ALICE, 10, 1).unwrap();
    assets.issue(0, TokenType::Token, ALICE, 10, 1).unwrap();
    assets.issue(0, TokenType::VToken, ALICE, 10, 1).unwrap();
    assert_eq!(assets.asset_tokens(ALICE), vec![0]);
}

#[test]
fn transfer_moves_balance_and_nothing_else() {
    let mut assets = Assets::new();
    assets.create(b"DOT".to_vec(), 4).unwrap();
    assets.issue(0, TokenType::Token, ALICE, 100, 2).unwrap();
    assets.transfer(0, TokenType::Token, ALICE, BOB, 40).unwrap();
    let alice = assets.get_account_asset(0, TokenType::Token, ALICE);
    let bob = assets.get_account_asset(0, TokenType::Token, BOB);
    assert_eq!(alice.balance, 60);
    assert_eq!(bob.balance, 40);
    // Cost and income are untouched by a transfer.
    assert_eq!(alice.cost, 200);
    assert_eq!(alice.income, 0);
    assert_eq!(bob.cost, 0);
    assert_eq!(bob.income, 0);
    // The total supply is untouched by a transfer.
    assert_eq!(assets.get_token(0).token.total_supply, 100);
    // The receiver's index now holds the asset id.
    assert_eq!(assets.asset_tokens(BOB), vec![0]);
}

#[test]
fn transfer_rejects_zero_amount_then_insufficient_balance() {
    let mut assets = Assets::new();
    assets.create(b"DOT".to_vec(), 4).unwrap();
    assets.issue(0, TokenType::Token, ALICE, 10, 1).unwrap();
    assert_eq!(
        assets.transfer(0, TokenType::Token, ALICE, BOB, 0),
        Err(AssetError::ZeroAmountOfBalance)
    );
    assert_eq!(
        assets.transfer(0, TokenType::Token, ALICE, BOB, 11),
        Err(AssetError::InvalidBalanceForTransaction)
    );
    assert_eq!(assets.get_account_asset(0, TokenType::Token, ALICE).balance, 10);
    assert_eq!(assets.get_account_asset(0, TokenType::Token, BOB).balance, 0);
}

#[test]
fn transfer_to_self_keeps_the_balance() {
    let mut assets = Assets::new();
    assets.create(b"DOT".to_vec(), 4).unwrap();
    assets.issue(0, TokenType::Token, ALICE, 25, 1).unwrap();
    assets.transfer(0, TokenType::Token, ALICE, ALICE, 10).unwrap();
    assert_eq!(assets.get_account_asset(0, TokenType::Token, ALICE).balance, 25);
    assert_eq!(assets.get_token(0).token.total_supply, 25);
}

#[test]
fn destroy_debits_balance_income_and_supply() {
    let mut assets = Assets::new();
    assets.create(b"DOT".to_vec(), 4).unwrap();
    assets.issue(0, TokenType::Token, ALICE, 100, 2).unwrap();
    assets.transfer(0, TokenType::Token, ALICE, BOB, 40).unwrap();
    assets.destroy(0, TokenType::Token, ALICE, 60, 3).unwrap();
    let alice = assets.get_account_asset(0, TokenType::Token, ALICE);
    assert_eq!(alice.balance, 0);
    assert_eq!(alice.cost, 200);
    assert_eq!(alice.income, 180);
    assert_eq!(assets.get_token(0).token.total_supply, 40);
}

#[test]
fn destroy_rejects_amount_above_balance() {
    let mut assets = Assets::new();
    assets.create(b"DOT".to_vec(), 4).unwrap();
    assets.issue(0, TokenType::Token, ALICE, 10, 1).unwrap();
    assert_eq!(
        assets.destroy(0, TokenType::Token, ALICE, 11, 1),
        Err(AssetError::InvalidBalanceForTransaction)
    );
    assert_eq!(assets.get_account_asset(0, TokenType::Token, ALICE).balance, 10);
    // Destroying exactly the balance is allowed, and so is destroying zero.
    assert!(assets.destroy(0, TokenType::Token, ALICE, 0, 1).is_ok());
    assert!(assets.destroy(0, TokenType::Token, ALICE, 10, 1).is_ok());
}

#[test]
fn redeem_behaves_as_destroy() {
    let mut assets = Assets::new();
    assets.create(b"DOT".to_vec(), 4).unwrap();
    assets.issue(0, TokenType::Token, ALICE, 100, 2).unwrap();
    assets.redeem(0, TokenType::Token, ALICE, 30, 5).unwrap();
    let alice = assets.get_account_asset(0, TokenType::Token, ALICE);
    assert_eq!(alice.balance, 70);
    assert_eq!(alice.income, 150);
    assert_eq!(assets.get_token(0).token.total_supply, 70);
    assert_eq!(
        assets.redeem(0, TokenType::Token, ALICE, 71, 5),
        Err(AssetError::InvalidBalanceForTransaction)
    );
}

#[test]
fn unchecked_destroy_clamps_at_zero() {
    let mut assets = Assets::new();
    assets.create(b"DOT".to_vec(), 4).unwrap();
    assets.issue(0, TokenType::Token, ALICE, 50, 1).unwrap();
    // The storage-layer destroy clamps an excess debit instead of erring.
    assets.asset_destroy(0, TokenType::Token, ALICE, 100, 2);
    let alice = assets.get_account_asset(0, TokenType::Token, ALICE);
    assert_eq!(alice.balance, 0);
    assert_eq!(alice.income, 200);
    assert_eq!(assets.get_token(0).token.total_supply, 0);
}

#[test]
fn unchecked_issue_populates_a_missing_registry_entry() {
    let mut assets = Assets::new();
    assets.asset_issue(9, TokenType::VToken, ALICE, 7, 0);
    assert!(assets.token_exists(9));
    let pair = assets.get_token(9);
    assert_eq!(pair.vtoken.total_supply, 7);
    assert_eq!(pair.vtoken.symbol, Vec::<u8>::new());
}

#[test]
fn saturating_issue_clamps_balance_and_cost() {
    let mut assets = Assets::new();
    assets.create(b"DOT".to_vec(), 4).unwrap();
    assets.issue(0, TokenType::Token, ALICE, u128::MAX, 2).unwrap();
    let alice = assets.get_account_asset(0, TokenType::Token, ALICE);
    assert_eq!(alice.balance, u128::MAX);
    // The price-weighted cost overflows and clamps at the ceiling.
    assert_eq!(alice.cost, u128::MAX);
    assets.issue(0, TokenType::Token, ALICE, 1, 0).unwrap();
    assert_eq!(assets.get_account_asset(0, TokenType::Token, ALICE).balance, u128::MAX);
    assert_eq!(assets.get_token(0).token.total_supply, u128::MAX);
}

#[test]
fn asset_balances_clamps_to_u64() {
    let mut assets = Assets::new();
    assets.create(b"DOT".to_vec(), 4).unwrap();
    assets.issue(0, TokenType::Token, ALICE, 12345, 0).unwrap();
    assert_eq!(assets.asset_balances(0, TokenType::Token, ALICE), 12345);
    assets.issue(0, TokenType::Token, BOB, (u64::MAX as u128) + 10, 0).unwrap();
    assert_eq!(assets.asset_balances(0, TokenType::Token, BOB), u64::MAX);
}

#[test]
fn asset_id_exists_finds_by_symbol_and_precision() {
    let mut assets = Assets::new();
    assets.create(b"DOT".to_vec(), 4).unwrap();
    let (abc, _) = assets.create(b"ABC".to_vec(), 8).unwrap();
    assets.issue(0, TokenType::Token, ALICE, 5, 1).unwrap();
    assets.issue(abc, TokenType::Token, ALICE, 5, 1).unwrap();
    assert_eq!(assets.asset_id_exists(ALICE, &b"ABC".to_vec(), 8), Some(abc));
    assert_eq!(assets.asset_id_exists(ALICE, &b"DOT".to_vec(), 4), Some(0));
    // A precision mismatch is no match, and an asset never held is not found.
    assert_eq!(assets.asset_id_exists(ALICE, &b"ABC".to_vec(), 9), None);
    assert_eq!(assets.asset_id_exists(BOB, &b"DOT".to_vec(), 4), None);
}

#[test]
fn set_token_price_touches_only_well_known_symbols() {
    let mut assets = Assets::new();
    assets.set_token_price(b"DOT".to_vec(), 77);
    assert_eq!(assets.prices(0, TokenType::Token), 77);
    assert_eq!(assets.prices(0, TokenType::VToken), 0);
    assets.set_token_price(b"KSM".to_vec(), 33);
    assert_eq!(assets.prices(1, TokenType::Token), 33);
    // An unknown symbol changes nothing.
    assets.set_token_price(b"ABC".to_vec(), 99);
    assert_eq!(assets.prices(0, TokenType::Token), 77);
    assert_eq!(assets.prices(1, TokenType::Token), 33);
    assert_eq!(assets.prices(3, TokenType::Token), 0);
    // Setting a price again overwrites it.
    assets.set_token_price(b"DOT".to_vec(), 78);
    assert_eq!(assets.prices(0, TokenType::Token), 78);
}

#[test]
fn balances_always_sum_to_the_recorded_supply() {
    let mut assets = Assets::new();
    assets.create(b"DOT".to_vec(), 4).unwrap();
    assets.issue(0, TokenType::Token, ALICE, 1000, 1).unwrap();
    assets.issue(0, TokenType::Token, BOB, 500, 1).unwrap();
    assets.transfer(0, TokenType::Token, ALICE, BOB, 250).unwrap();
    assets.destroy(0, TokenType::Token, BOB, 700, 1).unwrap();
    assets.issue(0, TokenType::VToken, BOB, 90, 1).unwrap();
    let alice = assets.get_account_asset(0, TokenType::Token, ALICE).balance;
    let bob = assets.get_account_asset(0, TokenType::Token, BOB).balance;
    assert_eq!(alice + bob, assets.get_token(0).token.total_supply);
    assert_eq!(alice, 750);
    assert_eq!(bob, 50);
    assert_eq!(assets.get_token(0).vtoken.total_supply, 90);
}

#[test]
fn lookup_of_an_absent_asset_is_the_default_pair() {
    let assets = Assets::new();
    assert!(!assets.token_exists(5));
    let pair = assets.get_token(5);
    assert_eq!(pair.token.symbol, Vec::<u8>::new());
    assert_eq!(pair.token.precision, 0);
    assert_eq!(pair.token.total_supply, 0);
    let record = assets.get_account_asset(5, TokenType::Token, ALICE);
    assert_eq!(record.balance, 0);
    assert_eq!(record.cost, 0);
    assert_eq!(record.income, 0);
    assert_eq!(assets.asset_tokens(ALICE), Vec::<u32>::new());
}
