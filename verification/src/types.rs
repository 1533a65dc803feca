//! Core data types of the ledger: token variants, token metadata, per-account
//! asset records, and the errors the operations report.

use vstd::prelude::*;

verus! {

/// Identifier of an asset.  Ids 0, 1 and 2 are reserved for the well-known
/// symbols; all others are allocated sequentially and never reused.
pub type AssetId = u32;

/// Canonical identity of an account, as produced by the (external) account
/// resolution collaborator.
pub type AccountId = u64;

/// Balance of one variant of an asset held by one account.
pub type Balance = u128;

/// Accumulated price-weighted value of everything ever issued to a key.
pub type Cost = u128;

/// Accumulated price-weighted value of everything ever destroyed from a key.
pub type Income = u128;

/// Conversion price supplied by the (external) price oracle.
pub type ConvertPrice = u128;

/// Price of a token, as recorded by the price bookkeeping store.
pub type Price = u64;

/// Saturating addition on `u128`, clamped at the numeric ceiling.
pub open spec fn sat_add(x: u128, y: u128) -> u128 {
    if x + y > u128::MAX {
        u128::MAX
    } else {
        (x + y) as u128
    }
}

/// Saturating subtraction on `u128`, clamped at zero.
pub open spec fn sat_sub(x: u128, y: u128) -> u128 {
    if x < y {
        0
    } else {
        (x - y) as u128
    }
}

/// Saturating multiplication on `u128`, clamped at the numeric ceiling.
pub open spec fn sat_mul(x: u128, y: u128) -> u128 {
    if x * y > u128::MAX {
        u128::MAX
    } else {
        (x * y) as u128
    }
}

/// Saturating multiplication, computed through `u128::checked_mul`.
pub fn saturating_mul_u128(x: u128, y: u128) -> (r: u128)
    ensures
        r == sat_mul(x, y),
{
    match x.checked_mul(y) {
        Some(v) => v,
        None => u128::MAX,
    }
}

/// The two variants of an asset: the base token and the derived vtoken.
#[derive(Clone, Copy, Debug, PartialEq, Eq, Structural)]
pub enum TokenType {
    Token,
    VToken,
}

impl Default for TokenType {
    /// The default variant is the derived one.
    fn default() -> (r: Self)
        ensures
            r == TokenType::VToken,
    {
        TokenType::VToken
    }
}

/// The well-known symbols whose asset ids are reserved at genesis.
#[derive(Clone, Copy, Debug, PartialEq, Eq, Structural)]
pub enum AssetSymbol {
    DOT,
    KSM,
    EOS,
}

impl AssetSymbol {
    /// The reserved asset id of this symbol.
    pub open spec fn spec_asset_id(self) -> AssetId {
        match self {
            AssetSymbol::DOT => 0,
            AssetSymbol::KSM => 1,
            AssetSymbol::EOS => 2,
        }
    }

    /// Returns the reserved asset id of this symbol.
    pub fn asset_id(self) -> (r: AssetId)
        ensures
            r == self.spec_asset_id(),
    {
        match self {
            AssetSymbol::DOT => 0,
            AssetSymbol::KSM => 1,
            AssetSymbol::EOS => 2,
        }
    }

    /// Returns the symbol that owns a reserved asset id.  Only the three
    /// reserved ids denote a well-known symbol.
    pub fn from_asset_id(id: AssetId) -> (r: Self)
        requires
            id <= 2,
        ensures
            r.spec_asset_id() == id,
    {
        if id == 0 {
            AssetSymbol::DOT
        } else if id == 1 {
            AssetSymbol::KSM
        } else {
            AssetSymbol::EOS
        }
    }
}

/// Mathematical model of a [`Token`]: its symbol as a byte sequence, its
/// precision, and the running total supply of the variant.
pub ghost struct TokenV {
    pub symbol: Seq<u8>,
    pub precision: u16,
    pub total_supply: Balance,
}

impl TokenV {
    /// The model of an absent token: empty symbol, zero precision and supply.
    pub open spec fn empty() -> TokenV {
        TokenV { symbol: Seq::empty(), precision: 0, total_supply: 0 }
    }
}

/// Returns a copy of a byte vector with exactly the same contents.
pub fn clone_bytes(v: &Vec<u8>) -> (r: Vec<u8>)
    ensures
        r@ == v@,
{
    let r = v.clone();
    proof {
        assert(r@ =~= v@);
    }
    r
}

/// Whether two byte vectors hold exactly the same bytes.
pub fn eq_bytes(a: &Vec<u8>, b: &Vec<u8>) -> (r: bool)
    ensures
        r == (a@ == b@),
{
    let n = a.len();
    if n != b.len() {
        return false;
    }
    let mut i: usize = 0;
    while i < n
        invariant
            i <= n,
            n == a@.len(),
            n == b@.len(),
            forall|j: int| 0 <= j < i ==> a@[j] == b@[j],
        decreases n - i,
    {
        if a[i] != b[i] {
            return false;
        }
        i += 1;
    }
    proof {
        assert(a@ =~= b@);
    }
    true
}

/// Metadata of one variant of an asset.
#[derive(Debug, PartialEq, Eq)]
pub struct Token {
    pub symbol: Vec<u8>,
    pub precision: u16,
    pub total_supply: Balance,
}

impl View for Token {
    type V = TokenV;

    open spec fn view(&self) -> TokenV {
        TokenV { symbol: self.symbol@, precision: self.precision, total_supply: self.total_supply }
    }
}

impl Token {
    pub fn new(symbol: Vec<u8>, precision: u16, total_supply: Balance) -> (r: Self)
        ensures
            r@ == (TokenV { symbol: symbol@, precision, total_supply }),
    {
        Token { symbol, precision, total_supply }
    }
}

impl Clone for Token {
    /// A clone keeps symbol, precision and supply exactly.
    fn clone(&self) -> (r: Self)
        ensures
            r@ == self@,
    {
        Token {
            symbol: clone_bytes(&self.symbol),
            precision: self.precision,
            total_supply: self.total_supply,
        }
    }
}

impl Default for Token {
    /// The zero-valued token that stands for an absent registry entry.
    fn default() -> (r: Self)
        ensures
            r@ == TokenV::empty(),
    {
        Token { symbol: Vec::new(), precision: 0, total_supply: 0 }
    }
}

/// Mathematical model of a [`TokenPair`].
pub ghost struct TokenPairV {
    pub token: TokenV,
    pub vtoken: TokenV,
}

impl TokenPairV {
    /// The model of an absent pair.
    pub open spec fn empty() -> TokenPairV {
        TokenPairV { token: TokenV::empty(), vtoken: TokenV::empty() }
    }

    /// The supply counter of the given variant.
    pub open spec fn supply_of(self, token_type: TokenType) -> Balance {
        match token_type {
            TokenType::Token => self.token.total_supply,
            TokenType::VToken => self.vtoken.total_supply,
        }
    }

    /// This pair with the given variant's supply counter replaced.
    pub open spec fn with_supply(self, token_type: TokenType, supply: Balance) -> TokenPairV {
        match token_type {
            TokenType::Token => TokenPairV {
                token: TokenV { total_supply: supply, ..self.token },
                ..self
            },
            TokenType::VToken => TokenPairV {
                vtoken: TokenV { total_supply: supply, ..self.vtoken },
                ..self
            },
        }
    }
}

/// The two variants of one asset.  They share the asset id but track
/// independent total supply.
#[derive(Debug, PartialEq, Eq)]
pub struct TokenPair {
    pub token: Token,
    pub vtoken: Token,
}

impl View for TokenPair {
    type V = TokenPairV;

    open spec fn view(&self) -> TokenPairV {
        TokenPairV { token: self.token@, vtoken: self.vtoken@ }
    }
}

impl TokenPair {
    pub fn new(token: Token, vtoken: Token) -> (r: Self)
        ensures
            r@ == (TokenPairV { token: token@, vtoken: vtoken@ }),
    {
        TokenPair { token, vtoken }
    }
}

impl Clone for TokenPair {
    /// A clone keeps both variants exactly.
    fn clone(&self) -> (r: Self)
        ensures
            r@ == self@,
    {
        TokenPair { token: self.token.clone(), vtoken: self.vtoken.clone() }
    }
}

impl Default for TokenPair {
    /// The zero-valued pair that stands for an absent registry entry.
    fn default() -> (r: Self)
        ensures
            r@ == TokenPairV::empty(),
    {
        TokenPair { token: Token::default(), vtoken: Token::default() }
    }
}

/// Holdings of one account in one variant of one asset.  `balance` is the
/// current holding; `cost` and `income` accumulate the price-weighted value
/// of everything ever issued to, respectively destroyed from, this key.
#[derive(Clone, Copy, Debug, PartialEq, Eq, Structural)]
pub struct AccountAsset {
    pub balance: Balance,
    pub cost: Cost,
    pub income: Income,
}

impl AccountAsset {
    /// The record of a key that was never written.
    pub open spec fn zero() -> AccountAsset {
        AccountAsset { balance: 0, cost: 0, income: 0 }
    }
}

impl Default for AccountAsset {
    fn default() -> (r: Self)
        ensures
            r == AccountAsset::zero(),
    {
        AccountAsset { balance: 0, cost: 0, income: 0 }
    }
}

/// A pool that pairs the amount of token converted to vtoken with the amount
/// converted back, together with the rewards of the current and next round.
#[derive(Clone, Copy, Debug, PartialEq, Eq, Structural)]
pub struct ConvertPool {
    pub token_pool: Balance,
    pub vtoken_pool: Balance,
    pub current_reward: Balance,
    pub pending_reward: Balance,
}

impl ConvertPool {
    pub fn new(token_amount: Balance, vtoken_amount: Balance) -> (r: Self)
        ensures
            r == (ConvertPool {
                token_pool: token_amount,
                vtoken_pool: vtoken_amount,
                current_reward: 0,
                pending_reward: 0,
            }),
    {
        ConvertPool {
            token_pool: token_amount,
            vtoken_pool: vtoken_amount,
            current_reward: 0,
            pending_reward: 0,
        }
    }

    /// Starts a new reward round: the pending reward becomes current, and the
    /// pending accumulator is cleared.
    pub fn new_round(&mut self)
        ensures
            final(self).token_pool == old(self).token_pool,
            final(self).vtoken_pool == old(self).vtoken_pool,
            final(self).current_reward == old(self).pending_reward,
            final(self).pending_reward == 0,
    {
        self.current_reward = self.pending_reward;
        self.pending_reward = 0;
    }
}

/// A failure of an asset operation.  Every failure is reported before any
/// state is touched.
#[derive(Clone, Copy, Debug, PartialEq, Eq, Structural)]
pub enum AssetError {
    /// The symbol is the empty byte sequence.
    EmptyTokenSymbol,
    /// The symbol is longer than 32 bytes.
    TokenSymbolTooLong,
    /// The precision is above 16.
    InvalidPrecision,
    /// No asset with the given id exists in the registry.
    TokenNotExist,
    /// The amount of the operation is zero.
    ZeroAmountOfBalance,
    /// The amount exceeds the balance available to the operation.
    InvalidBalanceForTransaction,
}

} // verus!
