//! Tests of the core data types.

use asset_ledger::types::{
    AccountAsset, AssetSymbol, ConvertPool, Token, TokenPair, TokenType,
};

#[test]
fn token_type_defaults_to_the_derived_variant() {
    assert_eq!(TokenType::default(), TokenType::VToken);
}

#[test]
fn asset_symbol_ids_are_the_reserved_ones() {
    assert_eq!(AssetSymbol::DOT.asset_id(), 0);
    assert_eq!(AssetSymbol::KSM.asset_id(), 1);
    assert_eq!(AssetSymbol::EOS.asset_id(), 2);
    assert_eq!(AssetSymbol::from_asset_id(0), AssetSymbol::DOT);
    assert_eq!(AssetSymbol::from_asset_id(1), AssetSymbol::KSM);
    assert_eq!(AssetSymbol::from_asset_id(2), AssetSymbol::EOS);
}

#[test]
fn token_new_keeps_its_fields() {
    let token = Token::new(b"DOT".to_vec(), 4, 17);
    assert_eq!(token.symbol, b"DOT".to_vec());
    assert_eq!(token.precision, 4);
    assert_eq!(token.total_supply, 17);
}

#[test]
fn token_pair_new_keeps_both_variants() {
    let token = Token::new(b"DOT".to_vec(), 4, 0);
    let vtoken = Token::new(b"vDOT".to_vec(), 8, 0);
    let pair = TokenPair::new(token.clone(), vtoken.clone());
    assert_eq!(pair.token, token);
    assert_eq!(pair.vtoken, vtoken);
    assert_eq!(pair.clone(), pair);
}

#[test]
fn default_token_pair_is_zero_valued() {
    let pair = TokenPair::default();
    assert_eq!(pair.token.symbol, Vec::<u8>::new());
    assert_eq!(pair.token.precision, 0);
    assert_eq!(pair.token.total_supply, 0);
    assert_eq!(pair.token, pair.vtoken);
}

#[test]
fn default_account_asset_is_zero_valued() {
    let record = AccountAsset::default();
    assert_eq!(record.balance, 0);
    assert_eq!(record.cost, 0);
    assert_eq!(record.income, 0);
}

#[test]
fn convert_pool_new_starts_without_rewards() {
    let pool = ConvertPool::new(10, 20);
    assert_eq!(pool.token_pool, 10);
    assert_eq!(pool.vtoken_pool, 20);
    assert_eq!(pool.current_reward, 0);
    assert_eq!(pool.pending_reward, 0);
}

#[test]
fn convert_pool_new_round_promotes_the_pending_reward() {
    let mut pool = ConvertPool::new(10, 20);
    pool.pending_reward = 55;
    pool.new_round();
    assert_eq!(pool.current_reward, 55);
    assert_eq!(pool.pending_reward, 0);
    assert_eq!(pool.token_pool, 10);
    assert_eq!(pool.vtoken_pool, 20);
}
