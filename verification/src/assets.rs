//! The asset operations engine: issue, transfer, destroy and redeem as
//! atomic, invariant-preserving transitions over the registry and the
//! account asset ledger, plus the token price bookkeeping.
//!
//! The conversion price is supplied by an external oracle; each operation
//! takes the price sampled by the caller at call time and never caches it.
//! The external redemption hook runs outside the engine: `redeem` performs
//! the same ledger debit as `destroy`.

use vstd::prelude::*;

use crate::alist::{
    distinct_keys, find_value, lemma_distinct_push, lemma_distinct_update, lemma_find_absent,
    lemma_find_at_index, lemma_find_push, lemma_find_update,
};
use crate::ledger::{
    credited, debited, lemma_stored_le_sum, lemma_two_stored_le_sum, AccountAssetLedger, AssetKey,
};
use crate::registry::{reserved_id, reserved_id_of, AssetRegistry};
use crate::types::{
    eq_bytes, sat_add, sat_sub, AccountAsset, AccountId, AssetError, AssetId, Balance,
    ConvertPrice, Price, TokenPair, TokenPairV, TokenType, TokenV,
};

verus! {

/// The key of one recorded token price: an asset and a variant.
#[derive(Clone, Copy, Debug, PartialEq, Eq, Structural)]
pub struct PriceKey {
    pub asset_id: AssetId,
    pub token_type: TokenType,
}

/// The relation between engine states before and after an asset creation
/// that returned `id` and `pair`: the pair, zero-valued in both supplies, is
/// stored under the reserved id of a well-known symbol or under the next
/// sequential id, and nothing else changes.
pub open spec fn created(
    pre: Assets,
    post: Assets,
    symbol: Seq<u8>,
    precision: u16,
    id: AssetId,
    pair: TokenPairV,
) -> bool {
    &&& id == (match reserved_id_of(symbol) {
        Some(rid) => rid,
        None => pre.spec_next_id(),
    })
    &&& pair == (TokenPairV {
        token: TokenV { symbol, precision, total_supply: 0 },
        vtoken: TokenV { symbol, precision, total_supply: 0 },
    })
    &&& post.spec_token_exists(id)
    &&& post.pair_of(id) == pair
    &&& forall|id2: AssetId|
        id2 != id ==> post.pair_of(id2) == pre.pair_of(id2) && post.spec_token_exists(id2)
            == pre.spec_token_exists(id2)
    &&& post.spec_next_id() == (if reserved_id_of(symbol) is Some {
        pre.spec_next_id()
    } else {
        (pre.spec_next_id() + 1) as AssetId
    })
    &&& forall|k2: AssetKey| post.account_asset(k2) == pre.account_asset(k2)
    &&& forall|a2: AccountId| post.ids_of(a2) == pre.ids_of(a2)
    &&& forall|aid2: AssetId, tt2: TokenType|
        post.balance_sum(aid2, tt2) == pre.balance_sum(aid2, tt2)
    &&& forall|aid2: AssetId, tt2: TokenType| post.price_of(aid2, tt2) == pre.price_of(aid2, tt2)
}

/// The relation between engine states before and after an issue of `amount`
/// at oracle price `price`: the target's balance and cost grow, saturating,
/// the asset id joins the target's index unless already there, the variant's
/// total supply grows by the same amount, and nothing else changes.
pub open spec fn issued(
    pre: Assets,
    post: Assets,
    asset_id: AssetId,
    token_type: TokenType,
    target: AccountId,
    amount: Balance,
    price: ConvertPrice,
) -> bool {
    let key = (AssetKey { asset_id, token_type, account: target });
    let prev = pre.account_asset(key);
    let next = credited(prev, amount, price);
    &&& post.account_asset(key) == next
    &&& forall|k2: AssetKey| k2 != key ==> post.account_asset(k2) == pre.account_asset(k2)
    &&& post.ids_of(target) == (if pre.ids_of(target).contains(asset_id) {
        pre.ids_of(target)
    } else {
        pre.ids_of(target).push(asset_id)
    })
    &&& forall|a2: AccountId| a2 != target ==> post.ids_of(a2) == pre.ids_of(a2)
    &&& post.balance_sum(asset_id, token_type) == pre.balance_sum(asset_id, token_type)
        - prev.balance + next.balance
    &&& forall|aid2: AssetId, tt2: TokenType|
        !(aid2 == asset_id && tt2 == token_type) ==> post.balance_sum(aid2, tt2)
            == pre.balance_sum(aid2, tt2)
    &&& post.spec_token_exists(asset_id)
    &&& post.pair_of(asset_id) == pre.pair_of(asset_id).with_supply(
        token_type,
        sat_add(pre.supply_of(asset_id, token_type), amount),
    )
    &&& forall|id2: AssetId|
        id2 != asset_id ==> post.pair_of(id2) == pre.pair_of(id2) && post.spec_token_exists(id2)
            == pre.spec_token_exists(id2)
    &&& post.spec_next_id() == pre.spec_next_id()
    &&& forall|aid2: AssetId, tt2: TokenType| post.price_of(aid2, tt2) == pre.price_of(aid2, tt2)
}

/// The relation between engine states before and after a destroy of `amount`
/// at oracle price `price`: the target's balance shrinks, clamped at zero,
/// its income grows by `amount * price`, saturating, the variant's total
/// supply shrinks by the same amount, clamped at zero, and nothing else
/// changes.  The target's index keeps the asset id: records are never
/// removed.
pub open spec fn destroyed(
    pre: Assets,
    post: Assets,
    asset_id: AssetId,
    token_type: TokenType,
    target: AccountId,
    amount: Balance,
    price: ConvertPrice,
) -> bool {
    let key = (AssetKey { asset_id, token_type, account: target });
    let prev = pre.account_asset(key);
    let next = debited(prev, amount, price);
    &&& post.account_asset(key) == next
    &&& forall|k2: AssetKey| k2 != key ==> post.account_asset(k2) == pre.account_asset(k2)
    &&& forall|a2: AccountId| post.ids_of(a2) == pre.ids_of(a2)
    &&& post.balance_sum(asset_id, token_type) == pre.balance_sum(asset_id, token_type)
        - prev.balance + next.balance
    &&& forall|aid2: AssetId, tt2: TokenType|
        !(aid2 == asset_id && tt2 == token_type) ==> post.balance_sum(aid2, tt2)
            == pre.balance_sum(aid2, tt2)
    &&& post.spec_token_exists(asset_id)
    &&& post.pair_of(asset_id) == pre.pair_of(asset_id).with_supply(
        token_type,
        sat_sub(pre.supply_of(asset_id, token_type), amount),
    )
    &&& forall|id2: AssetId|
        id2 != asset_id ==> post.pair_of(id2) == pre.pair_of(id2) && post.spec_token_exists(id2)
            == pre.spec_token_exists(id2)
    &&& post.spec_next_id() == pre.spec_next_id()
    &&& forall|aid2: AssetId, tt2: TokenType| post.price_of(aid2, tt2) == pre.price_of(aid2, tt2)
}

/// The relation between engine states before and after a transfer of
/// `amount`: the sender's balance shrinks, clamped at zero, the receiver's
/// balance grows, saturating, no cost or income accumulator moves, the asset
/// id joins the receiver's index unless already there, and the registry —
/// total supplies included — and the prices stay as they were.
pub open spec fn transferred(
    pre: Assets,
    post: Assets,
    asset_id: AssetId,
    token_type: TokenType,
    from: AccountId,
    to: AccountId,
    amount: Balance,
) -> bool {
    let from_key = (AssetKey { asset_id, token_type, account: from });
    let to_key = (AssetKey { asset_id, token_type, account: to });
    let from_prev = pre.account_asset(from_key);
    let mid = (AccountAsset { balance: sat_sub(from_prev.balance, amount), ..from_prev });
    let to_prev = if from == to {
        mid
    } else {
        pre.account_asset(to_key)
    };
    let to_next = (AccountAsset { balance: sat_add(to_prev.balance, amount), ..to_prev });
    &&& post.account_asset(to_key) == to_next
    &&& from != to ==> post.account_asset(from_key) == mid
    &&& forall|k2: AssetKey|
        k2 != from_key && k2 != to_key ==> post.account_asset(k2) == pre.account_asset(k2)
    &&& forall|k2: AssetKey|
        post.account_asset(k2).cost == pre.account_asset(k2).cost && post.account_asset(k2).income
            == pre.account_asset(k2).income
    &&& post.balance_sum(asset_id, token_type) == pre.balance_sum(asset_id, token_type)
        - from_prev.balance + (if from == to {
        0
    } else {
        mid.balance - to_prev.balance
    }) + to_next.balance
    &&& forall|aid2: AssetId, tt2: TokenType|
        !(aid2 == asset_id && tt2 == token_type) ==> post.balance_sum(aid2, tt2)
            == pre.balance_sum(aid2, tt2)
    &&& post.ids_of(to) == (if pre.ids_of(to).contains(asset_id) {
        pre.ids_of(to)
    } else {
        pre.ids_of(to).push(asset_id)
    })
    &&& forall|a2: AccountId| a2 != to ==> post.ids_of(a2) == pre.ids_of(a2)
    &&& forall|id2: AssetId|
        post.pair_of(id2) == pre.pair_of(id2) && post.spec_token_exists(id2)
            == pre.spec_token_exists(id2)
    &&& post.spec_next_id() == pre.spec_next_id()
    &&& forall|aid2: AssetId, tt2: TokenType| post.price_of(aid2, tt2) == pre.price_of(aid2, tt2)
}

/// The asset operations engine: the asset registry, the account asset
/// ledger, and the recorded token prices, mutated together by each
/// operation.
pub struct Assets {
    registry: AssetRegistry,
    ledger: AccountAssetLedger,
    prices: Vec<(PriceKey, Price)>,
}

impl Assets {
    /// The recorded token prices as an association list.
    pub closed spec fn prices_entries(&self) -> Seq<(PriceKey, Price)> {
        self.prices@
    }

    /// The record of one (asset, variant, account) key; zero when never
    /// written.
    pub closed spec fn account_asset(&self, key: AssetKey) -> AccountAsset {
        self.ledger.account_asset(key)
    }

    /// The asset ids an account ever held, in first-held order.
    pub closed spec fn ids_of(&self, account: AccountId) -> Seq<AssetId> {
        self.ledger.ids_of(account)
    }

    /// The sum of all balances held in one variant of one asset.
    pub closed spec fn balance_sum(&self, asset_id: AssetId, token_type: TokenType) -> int {
        self.ledger.balance_sum(asset_id, token_type)
    }

    /// The pair the registry records for an id, the zero-valued default when
    /// absent.
    pub closed spec fn pair_of(&self, asset_id: AssetId) -> TokenPairV {
        self.registry.pair_of(asset_id)
    }

    /// Whether an asset with the given id has been created.
    pub closed spec fn spec_token_exists(&self, asset_id: AssetId) -> bool {
        self.registry.spec_token_exists(asset_id)
    }

    /// The total supply the registry records for one variant of an asset.
    pub open spec fn supply_of(&self, asset_id: AssetId, token_type: TokenType) -> Balance {
        self.pair_of(asset_id).supply_of(token_type)
    }

    /// The id the registry's allocator hands out next.
    pub closed spec fn spec_next_id(&self) -> AssetId {
        self.registry.spec_next_id()
    }

    /// The recorded price of one variant of an asset, zero when never set.
    pub closed spec fn price_of(&self, asset_id: AssetId, token_type: TokenType) -> Price {
        match find_value(self.prices_entries(), PriceKey { asset_id, token_type }) {
            Some(p) => p,
            None => 0,
        }
    }

    /// Well-formedness of the whole engine state.
    pub closed spec fn wf(&self) -> bool {
        &&& self.registry.wf()
        &&& self.ledger.wf()
        &&& distinct_keys(self.prices_entries())
    }

    /// The central supply invariant: for every asset and variant, the sum of
    /// all account balances equals the total supply the registry records.
    pub open spec fn supply_consistent(&self) -> bool {
        forall|asset_id: AssetId, token_type: TokenType|
            self.balance_sum(asset_id, token_type) == #[trigger] self.supply_of(
                asset_id,
                token_type,
            ) as int
    }

    /// An empty engine: no assets, no records, no prices, and the allocator
    /// right above the reserved ids.
    pub fn new() -> (r: Self)
        ensures
            r.wf(),
            r.supply_consistent(),
            forall|id: AssetId| !r.spec_token_exists(id),
            forall|id: AssetId| r.pair_of(id) == TokenPairV::empty(),
            forall|key: AssetKey| r.account_asset(key) == AccountAsset::zero(),
            forall|account: AccountId| r.ids_of(account) == Seq::<AssetId>::empty(),
            forall|id: AssetId, tt: TokenType| r.price_of(id, tt) == 0,
            r.spec_next_id() == crate::registry::RESERVED_ASSET_IDS,
    {
        let r = Assets {
            registry: AssetRegistry::new(),
            ledger: AccountAssetLedger::new(),
            prices: Vec::new(),
        };
        proof {
            assert forall|id: AssetId, tt: TokenType| r.price_of(id, tt) == 0 by {
                lemma_find_absent(r.prices_entries(), PriceKey { asset_id: id, token_type: tt });
            }
        }
        r
    }

    /// The id the registry's allocator hands out next.
    pub fn next_asset_id(&self) -> (r: AssetId)
        ensures
            r == self.spec_next_id(),
    {
        self.registry.next_asset_id()
    }

    /// Whether an asset with the given id has been created.
    pub fn token_exists(&self, asset_id: AssetId) -> (r: bool)
        requires
            self.wf(),
        ensures
            r == self.spec_token_exists(asset_id),
    {
        self.registry.token_exists(asset_id)
    }

    /// Returns the token pair of an asset; an id never created reads as the
    /// zero-valued default pair.
    pub fn get_token(&self, asset_id: AssetId) -> (r: TokenPair)
        requires
            self.wf(),
        ensures
            r@ == self.pair_of(asset_id),
    {
        self.registry.get_token(asset_id)
    }

    /// Returns the record of one (asset, variant, account) key; a key never
    /// written reads as the zero-valued record.
    pub fn get_account_asset(&self, asset_id: AssetId, token_type: TokenType, target: AccountId)
        -> (r: AccountAsset)
        requires
            self.wf(),
        ensures
            r == self.account_asset(AssetKey { asset_id, token_type, account: target }),
    {
        self.ledger.get(asset_id, token_type, target)
    }

    /// Returns the asset ids an account ever held, in first-held order.
    pub fn asset_tokens(&self, target: AccountId) -> (r: Vec<AssetId>)
        requires
            self.wf(),
        ensures
            r@ == self.ids_of(target),
    {
        self.ledger.asset_ids(target)
    }

    /// Returns an account's balance of one variant of an asset, clamped to
    /// the largest 64-bit value for callers that cannot carry a 128-bit one.
    pub fn asset_balances(&self, asset_id: AssetId, token_type: TokenType, target: AccountId)
        -> (r: u64)
        requires
            self.wf(),
        ensures
            ({
                let balance = self.account_asset(
                    AssetKey { asset_id, token_type, account: target },
                ).balance;
                r == if balance > u64::MAX { u64::MAX } else { balance as u64 }
            }),
    {
        let balance = self.ledger.get(asset_id, token_type, target).balance;
        if balance > u64::MAX as u128 {
            u64::MAX
        } else {
            balance as u64
        }
    }

    /// The slot of a price key, or `None` when no price was recorded for it.
    fn find_price_index(&self, key: PriceKey) -> (r: Option<usize>)
        ensures
            match r {
                Some(i) => i < self.prices_entries().len() && self.prices_entries()[i as int].0
                    == key,
                None => forall|j: int|
                    0 <= j < self.prices_entries().len() ==> self.prices_entries()[j].0 != key,
            },
    {
        let n = self.prices.len();
        let mut i: usize = 0;
        while i < n
            invariant
                i <= n,
                n == self.prices@.len(),
                forall|j: int| 0 <= j < i ==> self.prices@[j].0 != key,
            decreases n - i,
        {
            if self.prices[i].0 == key {
                return Some(i);
            }
            i += 1;
        }
        None
    }

    /// The recorded price of one variant of an asset, zero when never set.
    pub fn prices(&self, asset_id: AssetId, token_type: TokenType) -> (r: Price)
        requires
            self.wf(),
        ensures
            r == self.price_of(asset_id, token_type),
    {
        let key = PriceKey { asset_id, token_type };
        match self.find_price_index(key) {
            Some(i) => {
                proof {
                    lemma_find_at_index(self.prices_entries(), key, i as int);
                }
                self.prices[i].1
            },
            None => {
                proof {
                    lemma_find_absent(self.prices_entries(), key);
                }
                0
            },
        }
    }

    /// Creates an asset: a well-known symbol takes its reserved id, any
    /// other symbol the next sequential one.  Both variants start with the
    /// given symbol and precision and zero supply.  The symbol and precision
    /// bounds are a hard contract here; [`Self::create`] turns a violation
    /// into a typed failure instead.
    pub fn asset_create(&mut self, symbol: Vec<u8>, precision: u16) -> (r: (AssetId, TokenPair))
        requires
            old(self).wf(),
            0 < symbol@.len() <= 32,
            precision <= 16,
            reserved_id_of(symbol@) is None ==> old(self).spec_next_id() < AssetId::MAX,
        ensures
            final(self).wf(),
            created(*old(self), *final(self), symbol@, precision, r.0, r.1@),
            (old(self).supply_consistent() && old(self).supply_of(r.0, TokenType::Token) == 0
                && old(self).supply_of(r.0, TokenType::VToken) == 0)
                ==> final(self).supply_consistent(),
    {
        let r = self.registry.create(symbol, precision);
        proof {
            if old(self).supply_consistent() && old(self).supply_of(r.0, TokenType::Token) == 0
                && old(self).supply_of(r.0, TokenType::VToken) == 0 {
                assert forall|aid2: AssetId, tt2: TokenType|
                    self.balance_sum(aid2, tt2) == #[trigger] self.supply_of(aid2, tt2) as int by {
                    assert(old(self).balance_sum(aid2, tt2) == old(self).supply_of(
                        aid2,
                        tt2,
                    ) as int);
                }
            }
        }
        r
    }

    /// Issues `amount` of one variant of an asset to `target` at the oracle
    /// price sampled at call time.  No validation happens here: the engine's
    /// entry point rejects unknown assets and zero amounts first.  The supply
    /// invariant is preserved whenever the new supply still fits the numeric
    /// ceiling.
    pub fn asset_issue(
        &mut self,
        asset_id: AssetId,
        token_type: TokenType,
        target: AccountId,
        amount: Balance,
        price: ConvertPrice,
    )
        requires
            old(self).wf(),
        ensures
            final(self).wf(),
            issued(*old(self), *final(self), asset_id, token_type, target, amount, price),
            (old(self).supply_consistent() && old(self).supply_of(asset_id, token_type) + amount
                <= u128::MAX) ==> final(self).supply_consistent(),
    {
        self.ledger.credit(&mut self.registry, asset_id, token_type, target, amount, price);
        proof {
            if old(self).supply_consistent() && old(self).supply_of(asset_id, token_type) + amount
                <= u128::MAX {
                let key = AssetKey { asset_id, token_type, account: target };
                lemma_stored_le_sum(old(self).ledger.entries(), key, asset_id, token_type);
                assert(old(self).balance_sum(asset_id, token_type) == old(self).supply_of(
                    asset_id,
                    token_type,
                ) as int);
                assert forall|aid2: AssetId, tt2: TokenType|
                    self.balance_sum(aid2, tt2) == #[trigger] self.supply_of(aid2, tt2) as int by {
                    assert(old(self).balance_sum(aid2, tt2) == old(self).supply_of(
                        aid2,
                        tt2,
                    ) as int);
                }
            }
        }
    }

    /// Destroys `amount` of one variant of an asset held by `target` at the
    /// oracle price sampled at call time.  A balance smaller than `amount` is
    /// clamped to zero rather than underflowing: the engine's entry point
    /// rejects such a destroy first.  The supply invariant is preserved
    /// whenever `amount` does not exceed the target's balance.
    pub fn asset_destroy(
        &mut self,
        asset_id: AssetId,
        token_type: TokenType,
        target: AccountId,
        amount: Balance,
        price: ConvertPrice,
    )
        requires
            old(self).wf(),
        ensures
            final(self).wf(),
            destroyed(*old(self), *final(self), asset_id, token_type, target, amount, price),
            (old(self).supply_consistent() && amount <= old(self).account_asset(
                AssetKey { asset_id, token_type, account: target },
            ).balance) ==> final(self).supply_consistent(),
    {
        self.ledger.debit(&mut self.registry, asset_id, token_type, target, amount, price);
        proof {
            let key = AssetKey { asset_id, token_type, account: target };
            if old(self).supply_consistent() && amount <= old(self).account_asset(key).balance {
                lemma_stored_le_sum(old(self).ledger.entries(), key, asset_id, token_type);
                assert(old(self).balance_sum(asset_id, token_type) == old(self).supply_of(
                    asset_id,
                    token_type,
                ) as int);
                assert forall|aid2: AssetId, tt2: TokenType|
                    self.balance_sum(aid2, tt2) == #[trigger] self.supply_of(aid2, tt2) as int by {
                    assert(old(self).balance_sum(aid2, tt2) == old(self).supply_of(
                        aid2,
                        tt2,
                    ) as int);
                }
            }
        }
    }

    /// Redeems `amount` of one variant of an asset held by `target`: the
    /// same ledger debit as a destroy.  The external redemption handler,
    /// when one is registered, is notified by the caller before this debit;
    /// with no handler a redeem degenerates to a plain destroy.
    pub fn asset_redeem(
        &mut self,
        asset_id: AssetId,
        token_type: TokenType,
        target: AccountId,
        amount: Balance,
        price: ConvertPrice,
    )
        requires
            old(self).wf(),
        ensures
            final(self).wf(),
            destroyed(*old(self), *final(self), asset_id, token_type, target, amount, price),
            (old(self).supply_consistent() && amount <= old(self).account_asset(
                AssetKey { asset_id, token_type, account: target },
            ).balance) ==> final(self).supply_consistent(),
    {
        self.asset_destroy(asset_id, token_type, target, amount, price);
    }

    /// Moves `amount` of one variant of an asset from one account to
    /// another, leaving every cost and income accumulator and every total
    /// supply as it was.  A sender balance smaller than `amount` is clamped
    /// to zero rather than underflowing: the engine's entry point rejects
    /// such a transfer first.  The supply invariant is preserved whenever
    /// `amount` does not exceed the sender's balance.
    pub fn asset_transfer(
        &mut self,
        asset_id: AssetId,
        token_type: TokenType,
        from: AccountId,
        to: AccountId,
        amount: Balance,
    )
        requires
            old(self).wf(),
        ensures
            final(self).wf(),
            transferred(*old(self), *final(self), asset_id, token_type, from, to, amount),
            (old(self).supply_consistent() && amount <= old(self).account_asset(
                AssetKey { asset_id, token_type, account: from },
            ).balance) ==> final(self).supply_consistent(),
    {
        self.ledger.transfer(asset_id, token_type, from, to, amount);
        proof {
            let from_key = AssetKey { asset_id, token_type, account: from };
            let to_key = AssetKey { asset_id, token_type, account: to };
            if old(self).supply_consistent() && amount <= old(self).account_asset(
                from_key,
            ).balance {
                assert(old(self).balance_sum(asset_id, token_type) == old(self).supply_of(
                    asset_id,
                    token_type,
                ) as int);
                if from != to {
                    lemma_two_stored_le_sum(
                        old(self).ledger.entries(),
                        from_key,
                        to_key,
                        asset_id,
                        token_type,
                    );
                } else {
                    lemma_stored_le_sum(old(self).ledger.entries(), from_key, asset_id, token_type);
                }
                assert forall|aid2: AssetId, tt2: TokenType|
                    self.balance_sum(aid2, tt2) == #[trigger] self.supply_of(aid2, tt2) as int by {
                    assert(old(self).balance_sum(aid2, tt2) == old(self).supply_of(
                        aid2,
                        tt2,
                    ) as int);
                }
            }
        }
    }

    /// Scans the asset ids `who` ever held and returns the first whose base
    /// token carries exactly the given symbol and precision, or `None` when
    /// no held asset matches.
    pub fn asset_id_exists(&self, who: AccountId, symbol: &Vec<u8>, precision: u16) -> (r: Option<
        AssetId,
    >)
        requires
            self.wf(),
        ensures
            r == self.find_symbol_in(self.ids_of(who), symbol@, precision),
    {
        let ids = self.ledger.asset_ids(who);
        let n = ids.len();
        let mut i: usize = 0;
        proof {
            assert(ids@.skip(0) =~= ids@);
        }
        while i < n
            invariant
                i <= n,
                n == ids@.len(),
                self.wf(),
                ids@ == self.ids_of(who),
                self.find_symbol_in(self.ids_of(who), symbol@, precision) == self.find_symbol_in(
                    ids@.skip(i as int),
                    symbol@,
                    precision,
                ),
            decreases n - i,
        {
            let id = ids[i];
            let pair = self.registry.get_token(id);
            proof {
                assert(ids@.skip(i as int)[0] == id);
            }
            if pair.token.precision == precision && eq_bytes(&pair.token.symbol, symbol) {
                return Some(id);
            }
            proof {
                assert(ids@.skip(i as int).drop_first() =~= ids@.skip(i as int + 1));
            }
            i += 1;
        }
        proof {
            assert(ids@.skip(n as int) =~= Seq::<AssetId>::empty());
        }
        None
    }

    /// Creates a new class of fungible assets.  The symbol must be non-empty
    /// and at most 32 bytes and the precision at most 16; a violation is
    /// reported, worst first, before any state is touched.  Authorization of
    /// the caller happens outside the engine.
    pub fn create(&mut self, symbol: Vec<u8>, precision: u16) -> (r: Result<
        (AssetId, TokenPair),
        AssetError,
    >)
        requires
            old(self).wf(),
            (0 < symbol@.len() <= 32 && precision <= 16 && reserved_id_of(symbol@) is None)
                ==> old(self).spec_next_id() < AssetId::MAX,
        ensures
            final(self).wf(),
            match r {
                Ok(ok) => 0 < symbol@.len() <= 32 && precision <= 16 && created(
                    *old(self),
                    *final(self),
                    symbol@,
                    precision,
                    ok.0,
                    ok.1@,
                ),
                Err(e) => *final(self) == *old(self) && (symbol@.len() == 0 || symbol@.len() > 32
                    || precision > 16) && e == (if symbol@.len() == 0 {
                    AssetError::EmptyTokenSymbol
                } else if symbol@.len() > 32 {
                    AssetError::TokenSymbolTooLong
                } else {
                    AssetError::InvalidPrecision
                }),
            },
            (old(self).supply_consistent() && match r {
                Ok(ok) => old(self).supply_of(ok.0, TokenType::Token) == 0 && old(self).supply_of(
                    ok.0,
                    TokenType::VToken,
                ) == 0,
                Err(_) => true,
            }) ==> final(self).supply_consistent(),
    {
        if symbol.len() == 0 {
            return Err(AssetError::EmptyTokenSymbol);
        }
        if symbol.len() > 32 {
            return Err(AssetError::TokenSymbolTooLong);
        }
        if precision > 16 {
            return Err(AssetError::InvalidPrecision);
        }
        let (id, pair) = self.asset_create(symbol, precision);
        Ok((id, pair))
    }

    /// Issues `amount` of one variant of an existing asset to `target` at
    /// the oracle price sampled at call time.  An unknown asset id and a
    /// zero amount are reported, in that order, before any state is touched.
    pub fn issue(
        &mut self,
        asset_id: AssetId,
        token_type: TokenType,
        target: AccountId,
        amount: Balance,
        price: ConvertPrice,
    ) -> (r: Result<(), AssetError>)
        requires
            old(self).wf(),
        ensures
            final(self).wf(),
            match r {
                Ok(_) => old(self).spec_token_exists(asset_id) && amount != 0 && issued(
                    *old(self),
                    *final(self),
                    asset_id,
                    token_type,
                    target,
                    amount,
                    price,
                ),
                Err(e) => *final(self) == *old(self) && (!old(self).spec_token_exists(asset_id)
                    || amount == 0) && e == (if !old(self).spec_token_exists(asset_id) {
                    AssetError::TokenNotExist
                } else {
                    AssetError::ZeroAmountOfBalance
                }),
            },
            (old(self).supply_consistent() && old(self).supply_of(asset_id, token_type) + amount
                <= u128::MAX) ==> final(self).supply_consistent(),
    {
        if !self.token_exists(asset_id) {
            return Err(AssetError::TokenNotExist);
        }
        if amount == 0 {
            return Err(AssetError::ZeroAmountOfBalance);
        }
        self.asset_issue(asset_id, token_type, target, amount, price);
        Ok(())
    }

    /// Moves `amount` of one variant of an asset from `from` to `to`.  A
    /// zero amount and a sender balance below `amount` are reported, in that
    /// order, before any state is touched, so the debit never clamps.
    pub fn transfer(
        &mut self,
        asset_id: AssetId,
        token_type: TokenType,
        from: AccountId,
        to: AccountId,
        amount: Balance,
    ) -> (r: Result<(), AssetError>)
        requires
            old(self).wf(),
        ensures
            final(self).wf(),
            match r {
                Ok(_) => amount != 0 && amount <= old(self).account_asset(
                    (AssetKey { asset_id, token_type, account: from }),
                ).balance && transferred(
                    *old(self),
                    *final(self),
                    asset_id,
                    token_type,
                    from,
                    to,
                    amount,
                ),
                Err(e) => *final(self) == *old(self) && (amount == 0 || amount > old(
                    self,
                ).account_asset((AssetKey { asset_id, token_type, account: from })).balance) && e
                    == (if amount == 0 {
                    AssetError::ZeroAmountOfBalance
                } else {
                    AssetError::InvalidBalanceForTransaction
                }),
            },
            old(self).supply_consistent() ==> final(self).supply_consistent(),
    {
        let origin_balance = self.ledger.get(asset_id, token_type, from).balance;
        if amount == 0 {
            return Err(AssetError::ZeroAmountOfBalance);
        }
        if origin_balance < amount {
            return Err(AssetError::InvalidBalanceForTransaction);
        }
        self.asset_transfer(asset_id, token_type, from, to, amount);
        Ok(())
    }

    /// Destroys `amount` of one variant of an asset held by `target` at the
    /// oracle price sampled at call time.  An amount above the held balance
    /// is reported before any state is touched, so the debit never clamps.
    pub fn destroy(
        &mut self,
        asset_id: AssetId,
        token_type: TokenType,
        target: AccountId,
        amount: Balance,
        price: ConvertPrice,
    ) -> (r: Result<(), AssetError>)
        requires
            old(self).wf(),
        ensures
            final(self).wf(),
            match r {
                Ok(_) => amount <= old(self).account_asset(
                    (AssetKey { asset_id, token_type, account: target }),
                ).balance && destroyed(
                    *old(self),
                    *final(self),
                    asset_id,
                    token_type,
                    target,
                    amount,
                    price,
                ),
                Err(e) => *final(self) == *old(self) && amount > old(self).account_asset(
                    (AssetKey { asset_id, token_type, account: target }),
                ).balance && e == AssetError::InvalidBalanceForTransaction,
            },
            old(self).supply_consistent() ==> final(self).supply_consistent(),
    {
        let balance = self.ledger.get(asset_id, token_type, target).balance;
        if amount > balance {
            return Err(AssetError::InvalidBalanceForTransaction);
        }
        self.asset_destroy(asset_id, token_type, target, amount, price);
        Ok(())
    }

    /// Redeems `amount` of one variant of an asset held by `target`: the
    /// same checked debit as [`Self::destroy`].  The external redemption
    /// handler, when one is registered, is notified by the caller before the
    /// debit; with no handler a redeem degenerates to a plain destroy.
    pub fn redeem(
        &mut self,
        asset_id: AssetId,
        token_type: TokenType,
        target: AccountId,
        amount: Balance,
        price: ConvertPrice,
    ) -> (r: Result<(), AssetError>)
        requires
            old(self).wf(),
        ensures
            final(self).wf(),
            match r {
                Ok(_) => amount <= old(self).account_asset(
                    (AssetKey { asset_id, token_type, account: target }),
                ).balance && destroyed(
                    *old(self),
                    *final(self),
                    asset_id,
                    token_type,
                    target,
                    amount,
                    price,
                ),
                Err(e) => *final(self) == *old(self) && amount > old(self).account_asset(
                    (AssetKey { asset_id, token_type, account: target }),
                ).balance && e == AssetError::InvalidBalanceForTransaction,
            },
            old(self).supply_consistent() ==> final(self).supply_consistent(),
    {
        let balance = self.ledger.get(asset_id, token_type, target).balance;
        if amount > balance {
            return Err(AssetError::InvalidBalanceForTransaction);
        }
        self.asset_redeem(asset_id, token_type, target, amount, price);
        Ok(())
    }

    /// A transfer conserves the two participants' combined balance — the
    /// moved amount leaves one account and arrives at the other — and moves
    /// no cost or income accumulator of any account.  The sender must hold
    /// the moved amount, as the engine's entry point checks, and the ledger
    /// must satisfy the supply invariant, which rules out the receiving
    /// balance saturating.
    pub proof fn lemma_transfer_conserves(
        pre: Assets,
        post: Assets,
        asset_id: AssetId,
        token_type: TokenType,
        from: AccountId,
        to: AccountId,
        amount: Balance,
    )
        requires
            transferred(pre, post, asset_id, token_type, from, to, amount),
            from != to,
            amount <= pre.account_asset((AssetKey { asset_id, token_type, account: from })).balance,
            pre.supply_consistent(),
        ensures
            ({
                let from_key = (AssetKey { asset_id, token_type, account: from });
                let to_key = (AssetKey { asset_id, token_type, account: to });
                post.account_asset(from_key).balance + post.account_asset(to_key).balance
                    == pre.account_asset(from_key).balance + pre.account_asset(to_key).balance
            }),
            forall|k2: AssetKey|
                post.account_asset(k2).cost == pre.account_asset(k2).cost && post.account_asset(
                    k2,
                ).income == pre.account_asset(k2).income,
    {
        let from_key = AssetKey { asset_id, token_type, account: from };
        let to_key = AssetKey { asset_id, token_type, account: to };
        assert(pre.balance_sum(asset_id, token_type) == pre.supply_of(asset_id, token_type) as int);
        lemma_two_stored_le_sum(pre.ledger.entries(), from_key, to_key, asset_id, token_type);
    }

    /// An account's asset index never holds a duplicate id.
    pub proof fn lemma_ids_no_dup(&self, account: AccountId)
        requires
            self.wf(),
        ensures
            crate::ledger::no_dup_ids(self.ids_of(account)),
    {
        self.ledger.lemma_index_no_dup(account);
    }

    /// Whether an asset's base token carries exactly the given symbol and
    /// precision.
    pub open spec fn symbol_matches(&self, asset_id: AssetId, symbol: Seq<u8>, precision: u16)
        -> bool {
        self.pair_of(asset_id).token.symbol == symbol && self.pair_of(asset_id).token.precision
            == precision
    }

    /// The first id of `ids` whose base token carries the given symbol and
    /// precision, or `None` when none does.
    pub open spec fn find_symbol_in(&self, ids: Seq<AssetId>, symbol: Seq<u8>, precision: u16)
        -> Option<AssetId>
        decreases ids.len(),
    {
        if ids.len() == 0 {
            None
        } else if self.symbol_matches(ids[0], symbol, precision) {
            Some(ids[0])
        } else {
            self.find_symbol_in(ids.drop_first(), symbol, precision)
        }
    }

    /// Records the price of the base token of a well-known symbol.  A symbol
    /// that is not well known is ignored, and nothing else ever changes.
    pub fn set_token_price(&mut self, symbol: Vec<u8>, price: Price)
        requires
            old(self).wf(),
        ensures
            final(self).wf(),
            ({
                let touched = match reserved_id_of(symbol@) {
                    Some(id) => Some(PriceKey { asset_id: id, token_type: TokenType::Token }),
                    None => None,
                };
                &&& match touched {
                    Some(key) => final(self).price_of(key.asset_id, key.token_type) == price,
                    None => true,
                }
                &&& forall|id2: AssetId, tt2: TokenType|
                    Some(PriceKey { asset_id: id2, token_type: tt2 }) != touched
                        ==> final(self).price_of(id2, tt2) == old(self).price_of(id2, tt2)
            }),
            forall|id2: AssetId|
                final(self).pair_of(id2) == old(self).pair_of(id2)
                    && final(self).spec_token_exists(id2) == old(self).spec_token_exists(id2),
            final(self).spec_next_id() == old(self).spec_next_id(),
            forall|k2: AssetKey| final(self).account_asset(k2) == old(self).account_asset(k2),
            forall|a2: AccountId| final(self).ids_of(a2) == old(self).ids_of(a2),
            forall|id2: AssetId, tt2: TokenType|
                final(self).balance_sum(id2, tt2) == old(self).balance_sum(id2, tt2),
            old(self).supply_consistent() ==> final(self).supply_consistent(),
    {
        let id = match reserved_id(&symbol) {
            Some(id) => id,
            None => {
                return;
            },
        };
        let key = PriceKey { asset_id: id, token_type: TokenType::Token };
        let ghost old_prices = self.prices_entries();
        match self.find_price_index(key) {
            Some(i) => {
                self.prices.set(i, (key, price));
                proof {
                    assert((key, price) == (old_prices[i as int].0, price));
                    lemma_distinct_update(old_prices, i as int, price);
                    assert forall|k2: PriceKey| #[trigger]
                        find_value(self.prices_entries(), k2) == (if k2 == key {
                            Some(price)
                        } else {
                            find_value(old_prices, k2)
                        }) by {
                        lemma_find_update(old_prices, i as int, price, k2);
                    }
                }
            },
            None => {
                self.prices.push((key, price));
                proof {
                    lemma_find_absent(old_prices, key);
                    lemma_distinct_push(old_prices, key, price);
                    assert forall|k2: PriceKey| #[trigger]
                        find_value(self.prices_entries(), k2) == (if k2 == key {
                            Some(price)
                        } else {
                            find_value(old_prices, k2)
                        }) by {
                        lemma_find_push(old_prices, key, price, k2);
                    }
                }
            },
        }
        proof {
            if old(self).supply_consistent() {
                assert forall|aid2: AssetId, tt2: TokenType|
                    self.balance_sum(aid2, tt2) == #[trigger] self.supply_of(aid2, tt2) as int by {
                    assert(old(self).balance_sum(aid2, tt2) == old(self).supply_of(
                        aid2,
                        tt2,
                    ) as int);
                }
            }
        }
    }
}

} // verus!
