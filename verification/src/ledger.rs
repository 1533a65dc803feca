//! The account asset ledger: per-(asset, variant, account) balance, cost and
//! income records, and the per-account index of asset ids ever held.

use vstd::prelude::*;

use crate::alist::{
    distinct_keys, find_value, lemma_distinct_push, lemma_distinct_update, lemma_find_absent,
    lemma_find_at_index, lemma_find_index_of, lemma_find_push, lemma_find_update,
};
use crate::registry::AssetRegistry;
use crate::types::{
    sat_add, sat_mul, sat_sub, saturating_mul_u128, AccountAsset, AccountId, AssetId, Balance,
    ConvertPrice, TokenType,
};

verus! {

/// The key of one ledger record: one account's holding of one variant of one
/// asset.
#[derive(Clone, Copy, Debug, PartialEq, Eq, Structural)]
pub struct AssetKey {
    pub asset_id: AssetId,
    pub token_type: TokenType,
    pub account: AccountId,
}

/// The record a ledger holds for a key: the stored record, or the zero-valued
/// record for a key that was never written.
pub open spec fn stored_asset(s: Seq<(AssetKey, AccountAsset)>, key: AssetKey) -> AccountAsset {
    match find_value(s, key) {
        Some(a) => a,
        None => AccountAsset::zero(),
    }
}

/// A record after a credit: the balance grows by `amount` and the cost by
/// `amount * price`, both saturating; the income is untouched.
pub open spec fn credited(a: AccountAsset, amount: Balance, price: ConvertPrice) -> AccountAsset {
    AccountAsset {
        balance: sat_add(a.balance, amount),
        cost: sat_add(a.cost, sat_mul(amount, price)),
        income: a.income,
    }
}

/// A record after a debit: the balance shrinks by `amount`, clamped at zero,
/// and the income grows by `amount * price`, saturating; the cost is
/// untouched.
pub open spec fn debited(a: AccountAsset, amount: Balance, price: ConvertPrice) -> AccountAsset {
    AccountAsset {
        balance: sat_sub(a.balance, amount),
        cost: a.cost,
        income: sat_add(a.income, sat_mul(amount, price)),
    }
}

/// What one entry adds to the balance sum of `(asset_id, token_type)`: its
/// balance when the entry's key is of that asset and variant, zero otherwise.
pub open spec fn balance_contrib(
    e: (AssetKey, AccountAsset),
    asset_id: AssetId,
    token_type: TokenType,
) -> int {
    if e.0.asset_id == asset_id && e.0.token_type == token_type {
        e.1.balance as int
    } else {
        0
    }
}

/// The sum, over all entries, of the balances held in one variant of one
/// asset.
pub open spec fn sum_balances(
    s: Seq<(AssetKey, AccountAsset)>,
    asset_id: AssetId,
    token_type: TokenType,
) -> int
    decreases s.len(),
{
    if s.len() == 0 {
        0
    } else {
        balance_contrib(s[0], asset_id, token_type) + sum_balances(
            s.drop_first(),
            asset_id,
            token_type,
        )
    }
}

/// A balance sum is never negative.
pub proof fn lemma_sum_nonneg(s: Seq<(AssetKey, AccountAsset)>, asset_id: AssetId, tt: TokenType)
    ensures
        sum_balances(s, asset_id, tt) >= 0,
    decreases s.len(),
{
    if s.len() > 0 {
        lemma_sum_nonneg(s.drop_first(), asset_id, tt);
    }
}

/// Replacing the entry at index `i` moves every balance sum by the difference
/// of the new and old entries' contributions.
pub proof fn lemma_sum_update(
    s: Seq<(AssetKey, AccountAsset)>,
    i: int,
    e: (AssetKey, AccountAsset),
    asset_id: AssetId,
    tt: TokenType,
)
    requires
        0 <= i < s.len(),
    ensures
        sum_balances(s.update(i, e), asset_id, tt) == sum_balances(s, asset_id, tt)
            - balance_contrib(s[i], asset_id, tt) + balance_contrib(e, asset_id, tt),
    decreases s.len(),
{
    let t = s.update(i, e);
    if i == 0 {
        assert(t.drop_first() =~= s.drop_first());
    } else {
        assert(t[0] == s[0]);
        assert(t.drop_first() =~= s.drop_first().update(i - 1, e));
        assert(s.drop_first()[i - 1] == s[i]);
        lemma_sum_update(s.drop_first(), i - 1, e, asset_id, tt);
    }
}

/// Appending an entry adds exactly its contribution to every balance sum.
pub proof fn lemma_sum_push(
    s: Seq<(AssetKey, AccountAsset)>,
    e: (AssetKey, AccountAsset),
    asset_id: AssetId,
    tt: TokenType,
)
    ensures
        sum_balances(s.push(e), asset_id, tt) == sum_balances(s, asset_id, tt) + balance_contrib(
            e,
            asset_id,
            tt,
        ),
    decreases s.len(),
{
    let t = s.push(e);
    if s.len() == 0 {
        assert(t.drop_first() =~= s);
    } else {
        assert(t[0] == s[0]);
        assert(t.drop_first() =~= s.drop_first().push(e));
        lemma_sum_push(s.drop_first(), e, asset_id, tt);
    }
}

/// No single record of an asset and variant holds more than the whole balance
/// sum of that asset and variant.
pub proof fn lemma_stored_le_sum(
    s: Seq<(AssetKey, AccountAsset)>,
    key: AssetKey,
    asset_id: AssetId,
    tt: TokenType,
)
    requires
        key.asset_id == asset_id,
        key.token_type == tt,
    ensures
        stored_asset(s, key).balance as int <= sum_balances(s, asset_id, tt),
    decreases s.len(),
{
    lemma_sum_nonneg(s, asset_id, tt);
    if s.len() > 0 {
        lemma_stored_le_sum(s.drop_first(), key, asset_id, tt);
        if s[0].0 == key {
            lemma_sum_nonneg(s.drop_first(), asset_id, tt);
        }
    }
}

/// The combined balances of two distinct records of one asset and variant
/// never exceed that asset and variant's balance sum.
pub proof fn lemma_two_stored_le_sum(
    s: Seq<(AssetKey, AccountAsset)>,
    key1: AssetKey,
    key2: AssetKey,
    asset_id: AssetId,
    tt: TokenType,
)
    requires
        key1.asset_id == asset_id,
        key1.token_type == tt,
        key2.asset_id == asset_id,
        key2.token_type == tt,
        key1 != key2,
    ensures
        stored_asset(s, key1).balance as int + stored_asset(s, key2).balance as int <= sum_balances(
            s,
            asset_id,
            tt,
        ),
    decreases s.len(),
{
    if s.len() == 0 {
    } else {
        lemma_two_stored_le_sum(s.drop_first(), key1, key2, asset_id, tt);
        if s[0].0 == key1 {
            lemma_stored_le_sum(s.drop_first(), key2, asset_id, tt);
        } else if s[0].0 == key2 {
            lemma_stored_le_sum(s.drop_first(), key1, asset_id, tt);
        }
    }
}

/// A duplicate-free sequence of asset ids.
pub open spec fn no_dup_ids(ids: Seq<AssetId>) -> bool {
    forall|i: int, j: int| 0 <= i < j < ids.len() ==> ids[i] != ids[j]
}

/// Returns a copy of a list of asset ids with exactly the same contents.
fn clone_ids(v: &Vec<AssetId>) -> (r: Vec<AssetId>)
    ensures
        r@ == v@,
{
    let r = v.clone();
    proof {
        assert(r@ =~= v@);
    }
    r
}

/// Whether a list of asset ids holds the given id.
fn ids_contain(ids: &Vec<AssetId>, asset_id: AssetId) -> (r: bool)
    ensures
        r == ids@.contains(asset_id),
{
    let n = ids.len();
    let mut i: usize = 0;
    while i < n
        invariant
            i <= n,
            n == ids@.len(),
            forall|j: int| 0 <= j < i ==> ids@[j] != asset_id,
        decreases n - i,
    {
        if ids[i] == asset_id {
            return true;
        }
        i += 1;
    }
    false
}

/// The account asset ledger: one record per (asset, variant, account) key
/// ever credited, and per account the list of asset ids it ever held.
pub struct AccountAssetLedger {
    accounts: Vec<(AssetKey, AccountAsset)>,
    index: Vec<(AccountId, Vec<AssetId>)>,
}

impl AccountAssetLedger {
    /// The ledger's records as an association list.
    pub closed spec fn entries(&self) -> Seq<(AssetKey, AccountAsset)> {
        self.accounts@
    }

    /// The per-account index as an association list from account to the
    /// sequence of asset ids it ever held.
    pub closed spec fn index_entries(&self) -> Seq<(AccountId, Seq<AssetId>)> {
        Seq::new(self.index@.len(), |i: int| (self.index@[i].0, self.index@[i].1@))
    }

    /// The record of a key, the zero-valued record when never written.
    pub open spec fn account_asset(&self, key: AssetKey) -> AccountAsset {
        stored_asset(self.entries(), key)
    }

    /// The asset ids an account ever held, in the order it first held them.
    pub open spec fn ids_of(&self, account: AccountId) -> Seq<AssetId> {
        match find_value(self.index_entries(), account) {
            Some(ids) => ids,
            None => Seq::empty(),
        }
    }

    /// The sum of all balances held in one variant of one asset.
    pub open spec fn balance_sum(&self, asset_id: AssetId, token_type: TokenType) -> int {
        sum_balances(self.entries(), asset_id, token_type)
    }

    /// Well-formedness: every key has at most one record, every account has
    /// at most one index entry, and no index entry holds a duplicate id.
    pub closed spec fn wf(&self) -> bool {
        &&& distinct_keys(self.entries())
        &&& distinct_keys(self.index_entries())
        &&& forall|i: int|
            0 <= i < self.index_entries().len() ==> no_dup_ids(#[trigger] self.index_entries()[i].1)
    }

    /// An account's asset index never holds a duplicate id.
    pub proof fn lemma_index_no_dup(&self, account: AccountId)
        requires
            self.wf(),
        ensures
            no_dup_ids(self.ids_of(account)),
    {
        if find_value(self.index_entries(), account) is Some {
            lemma_find_index_of(self.index_entries(), account);
        }
    }

    /// An empty ledger.
    pub fn new() -> (r: Self)
        ensures
            r.wf(),
            r.entries() == Seq::<(AssetKey, AccountAsset)>::empty(),
            forall|key: AssetKey| r.account_asset(key) == AccountAsset::zero(),
            forall|account: AccountId| r.ids_of(account) == Seq::<AssetId>::empty(),
            forall|asset_id: AssetId, token_type: TokenType| r.balance_sum(asset_id, token_type) == 0,
    {
        let r = AccountAssetLedger { accounts: Vec::new(), index: Vec::new() };
        proof {
            assert(r.index_entries() =~= Seq::<(AccountId, Seq<AssetId>)>::empty());
            assert forall|key: AssetKey| r.account_asset(key) == AccountAsset::zero() by {
                lemma_find_absent(r.entries(), key);
            }
            assert forall|account: AccountId| r.ids_of(account) == Seq::<AssetId>::empty() by {
                lemma_find_absent(r.index_entries(), account);
            }
        }
        r
    }

    /// The index at which a key's record is stored, or `None` when absent.
    fn find_account_index(&self, key: AssetKey) -> (r: Option<usize>)
        ensures
            match r {
                Some(i) => i < self.entries().len() && self.entries()[i as int].0 == key,
                None => forall|j: int|
                    0 <= j < self.entries().len() ==> self.entries()[j].0 != key,
            },
    {
        let n = self.accounts.len();
        let mut i: usize = 0;
        while i < n
            invariant
                i <= n,
                n == self.accounts@.len(),
                forall|j: int| 0 <= j < i ==> self.accounts@[j].0 != key,
            decreases n - i,
        {
            if self.accounts[i].0 == key {
                return Some(i);
            }
            i += 1;
        }
        None
    }

    /// The slot of an account in the index, or `None` when absent.
    fn find_index_slot(&self, account: AccountId) -> (r: Option<usize>)
        ensures
            match r {
                Some(i) => i < self.index_entries().len() && self.index_entries()[i as int].0
                    == account,
                None => forall|j: int|
                    0 <= j < self.index_entries().len() ==> self.index_entries()[j].0 != account,
            },
    {
        let n = self.index.len();
        let mut i: usize = 0;
        while i < n
            invariant
                i <= n,
                n == self.index@.len(),
                forall|j: int| 0 <= j < i ==> self.index@[j].0 != account,
            decreases n - i,
        {
            if self.index[i].0 == account {
                return Some(i);
            }
            i += 1;
        }
        None
    }

    /// Returns the record of a key; a key never written reads as the
    /// zero-valued record.
    pub fn get(&self, asset_id: AssetId, token_type: TokenType, account: AccountId) -> (r:
        AccountAsset)
        requires
            self.wf(),
        ensures
            r == self.account_asset(AssetKey { asset_id, token_type, account }),
    {
        let key = AssetKey { asset_id, token_type, account };
        match self.find_account_index(key) {
            Some(i) => {
                proof {
                    lemma_find_at_index(self.entries(), key, i as int);
                }
                self.accounts[i].1
            },
            None => {
                proof {
                    lemma_find_absent(self.entries(), key);
                }
                AccountAsset { balance: 0, cost: 0, income: 0 }
            },
        }
    }

    /// Writes `value` as the record of `key`, creating the record when the
    /// key was never written.  The per-account index is untouched.
    fn set_asset(&mut self, key: AssetKey, value: AccountAsset)
        requires
            old(self).wf(),
        ensures
            final(self).wf(),
            final(self).index_entries() == old(self).index_entries(),
            final(self).account_asset(key) == value,
            forall|k2: AssetKey|
                k2 != key ==> final(self).account_asset(k2) == old(self).account_asset(k2),
            forall|aid: AssetId, tt: TokenType|
                final(self).balance_sum(aid, tt) == old(self).balance_sum(aid, tt)
                    - balance_contrib((key, old(self).account_asset(key)), aid, tt)
                    + balance_contrib((key, value), aid, tt),
    {
        let ghost old_entries = self.entries();
        match self.find_account_index(key) {
            Some(i) => {
                proof {
                    lemma_find_at_index(old_entries, key, i as int);
                }
                self.accounts.set(i, (key, value));
                proof {
                    assert(self.entries() == old_entries.update(i as int, (key, value)));
                    assert((key, value) == (old_entries[i as int].0, value));
                    lemma_distinct_update(old_entries, i as int, value);
                    assert forall|k2: AssetKey| #[trigger]
                        find_value(self.entries(), k2) == (if k2 == key {
                            Some(value)
                        } else {
                            find_value(old_entries, k2)
                        }) by {
                        lemma_find_update(old_entries, i as int, value, k2);
                    }
                    assert forall|aid: AssetId, tt: TokenType|
                        #[trigger] sum_balances(self.entries(), aid, tt) == sum_balances(
                            old_entries,
                            aid,
                            tt,
                        ) - balance_contrib((key, stored_asset(old_entries, key)), aid, tt)
                            + balance_contrib((key, value), aid, tt) by {
                        lemma_sum_update(old_entries, i as int, (key, value), aid, tt);
                    }
                }
            },
            None => {
                self.accounts.push((key, value));
                proof {
                    assert(self.entries() == old_entries.push((key, value)));
                    lemma_find_absent(old_entries, key);
                    lemma_distinct_push(old_entries, key, value);
                    assert forall|k2: AssetKey| #[trigger]
                        find_value(self.entries(), k2) == (if k2 == key {
                            Some(value)
                        } else {
                            find_value(old_entries, k2)
                        }) by {
                        lemma_find_push(old_entries, key, value, k2);
                    }
                    assert forall|aid: AssetId, tt: TokenType|
                        #[trigger] sum_balances(self.entries(), aid, tt) == sum_balances(
                            old_entries,
                            aid,
                            tt,
                        ) - balance_contrib((key, stored_asset(old_entries, key)), aid, tt)
                            + balance_contrib((key, value), aid, tt) by {
                        lemma_sum_push(old_entries, (key, value), aid, tt);
                    }
                }
            },
        }
    }

    /// Records that `account` holds `asset_id`: appends the id to the
    /// account's index unless it is already there, so the index never grows a
    /// duplicate.
    fn register_asset(&mut self, account: AccountId, asset_id: AssetId)
        requires
            old(self).wf(),
        ensures
            final(self).wf(),
            final(self).entries() == old(self).entries(),
            forall|k2: AssetKey| final(self).account_asset(k2) == old(self).account_asset(k2),
            forall|aid: AssetId, tt: TokenType|
                final(self).balance_sum(aid, tt) == old(self).balance_sum(aid, tt),
            final(self).ids_of(account) == (if old(self).ids_of(account).contains(asset_id) {
                old(self).ids_of(account)
            } else {
                old(self).ids_of(account).push(asset_id)
            }),
            forall|a2: AccountId| a2 != account ==> final(self).ids_of(a2) == old(self).ids_of(a2),
    {
        let ghost old_index = self.index_entries();
        match self.find_index_slot(account) {
            Some(i) => {
                proof {
                    lemma_find_at_index(old_index, account, i as int);
                }
                let slot = &self.index[i];
                if ids_contain(&slot.1, asset_id) {
                    return;
                }
                let mut new_ids = clone_ids(&self.index[i].1);
                new_ids.push(asset_id);
                let ghost new_seq = new_ids@;
                self.index.set(i, (account, new_ids));
                proof {
                    assert(self.index_entries() =~= old_index.update(i as int, (account, new_seq)));
                    assert((account, new_seq) == (old_index[i as int].0, new_seq));
                    lemma_distinct_update(old_index, i as int, new_seq);
                    assert forall|a2: AccountId| #[trigger]
                        find_value(self.index_entries(), a2) == (if a2 == account {
                            Some(new_seq)
                        } else {
                            find_value(old_index, a2)
                        }) by {
                        lemma_find_update(old_index, i as int, new_seq, a2);
                    }
                    assert(no_dup_ids(new_seq)) by {
                        assert(forall|j: int|
                            0 <= j < old_index[i as int].1.len() ==> old_index[i as int].1[j]
                                != asset_id);
                    }
                    assert forall|j: int|
                        0 <= j < self.index_entries().len() implies no_dup_ids(
                        #[trigger] self.index_entries()[j].1,
                    ) by {
                        if j != i {
                            assert(self.index_entries()[j] == old_index[j]);
                        }
                    }
                }
            },
            None => {
                proof {
                    lemma_find_absent(old_index, account);
                }
                let mut new_ids: Vec<AssetId> = Vec::new();
                new_ids.push(asset_id);
                let ghost new_seq = new_ids@;
                self.index.push((account, new_ids));
                proof {
                    let n = old_index.len() as int;
                    assert(self.index_entries() =~= old_index.push((account, new_seq)));
                    lemma_distinct_push(old_index, account, new_seq);
                    assert forall|a2: AccountId| #[trigger]
                        find_value(self.index_entries(), a2) == (if a2 == account {
                            Some(new_seq)
                        } else {
                            find_value(old_index, a2)
                        }) by {
                        lemma_find_push(old_index, account, new_seq, a2);
                    }
                    assert(old(self).ids_of(account) == Seq::<AssetId>::empty());
                    assert(new_seq =~= old(self).ids_of(account).push(asset_id));
                    assert forall|j: int|
                        0 <= j < self.index_entries().len() implies no_dup_ids(
                        #[trigger] self.index_entries()[j].1,
                    ) by {
                        if j < n {
                            assert(self.index_entries()[j] == old_index[j]);
                        }
                    }
                }
            },
        }
    }

    /// Credits `amount` of one variant of one asset to an account: the
    /// balance grows by `amount` and the cost by `amount * price`, both
    /// saturating, with `price` the oracle's conversion price sampled by the
    /// caller at call time.  The asset id is registered in the account's
    /// index unless already there, and the variant's total supply in the
    /// registry grows by `amount`, saturating.
    pub fn credit(
        &mut self,
        registry: &mut AssetRegistry,
        asset_id: AssetId,
        token_type: TokenType,
        account: AccountId,
        amount: Balance,
        price: ConvertPrice,
    )
        requires
            old(self).wf(),
            old(registry).wf(),
        ensures
            final(self).wf(),
            final(registry).wf(),
            ({
                let key = (AssetKey { asset_id, token_type, account });
                let prev = old(self).account_asset(key);
                let next = credited(prev, amount, price);
                &&& final(self).account_asset(key) == next
                &&& forall|k2: AssetKey|
                    k2 != key ==> final(self).account_asset(k2) == old(self).account_asset(k2)
                &&& final(self).balance_sum(asset_id, token_type) == old(self).balance_sum(
                    asset_id,
                    token_type,
                ) - prev.balance + next.balance
            }),
            forall|aid2: AssetId, tt2: TokenType|
                !(aid2 == asset_id && tt2 == token_type) ==> final(self).balance_sum(aid2, tt2)
                    == old(self).balance_sum(aid2, tt2),
            final(self).ids_of(account) == (if old(self).ids_of(account).contains(asset_id) {
                old(self).ids_of(account)
            } else {
                old(self).ids_of(account).push(asset_id)
            }),
            forall|a2: AccountId| a2 != account ==> final(self).ids_of(a2) == old(self).ids_of(a2),
            final(registry).spec_token_exists(asset_id),
            final(registry).pair_of(asset_id) == old(registry).pair_of(asset_id).with_supply(
                token_type,
                sat_add(old(registry).supply_of(asset_id, token_type), amount),
            ),
            forall|id2: AssetId|
                id2 != asset_id ==> final(registry).pair_of(id2) == old(registry).pair_of(id2)
                    && final(registry).spec_token_exists(id2) == old(registry).spec_token_exists(
                    id2,
                ),
            final(registry).spec_next_id() == old(registry).spec_next_id(),
    {
        let key = AssetKey { asset_id, token_type, account };
        let prev = self.get(asset_id, token_type, account);
        let weighted = saturating_mul_u128(amount, price);
        let next = AccountAsset {
            balance: prev.balance.saturating_add(amount),
            cost: prev.cost.saturating_add(weighted),
            income: prev.income,
        };
        self.set_asset(key, next);
        self.register_asset(account, asset_id);
        registry.add_supply(asset_id, token_type, amount);
    }

    /// Debits `amount` of one variant of one asset from an account: the
    /// balance shrinks by `amount`, clamped at zero rather than underflowing,
    /// and the income grows by `amount * price`, saturating.  The variant's
    /// total supply in the registry shrinks by `amount`, clamped at zero.
    /// Callers that must not clamp check `amount` against the balance first.
    pub fn debit(
        &mut self,
        registry: &mut AssetRegistry,
        asset_id: AssetId,
        token_type: TokenType,
        account: AccountId,
        amount: Balance,
        price: ConvertPrice,
    )
        requires
            old(self).wf(),
            old(registry).wf(),
        ensures
            final(self).wf(),
            final(registry).wf(),
            ({
                let key = (AssetKey { asset_id, token_type, account });
                let prev = old(self).account_asset(key);
                let next = debited(prev, amount, price);
                &&& final(self).account_asset(key) == next
                &&& forall|k2: AssetKey|
                    k2 != key ==> final(self).account_asset(k2) == old(self).account_asset(k2)
                &&& final(self).balance_sum(asset_id, token_type) == old(self).balance_sum(
                    asset_id,
                    token_type,
                ) - prev.balance + next.balance
            }),
            forall|aid2: AssetId, tt2: TokenType|
                !(aid2 == asset_id && tt2 == token_type) ==> final(self).balance_sum(aid2, tt2)
                    == old(self).balance_sum(aid2, tt2),
            forall|a2: AccountId| final(self).ids_of(a2) == old(self).ids_of(a2),
            final(registry).spec_token_exists(asset_id),
            final(registry).pair_of(asset_id) == old(registry).pair_of(asset_id).with_supply(
                token_type,
                sat_sub(old(registry).supply_of(asset_id, token_type), amount),
            ),
            forall|id2: AssetId|
                id2 != asset_id ==> final(registry).pair_of(id2) == old(registry).pair_of(id2)
                    && final(registry).spec_token_exists(id2) == old(registry).spec_token_exists(
                    id2,
                ),
            final(registry).spec_next_id() == old(registry).spec_next_id(),
    {
        let key = AssetKey { asset_id, token_type, account };
        let prev = self.get(asset_id, token_type, account);
        let weighted = saturating_mul_u128(amount, price);
        let next = AccountAsset {
            balance: prev.balance.saturating_sub(amount),
            cost: prev.cost,
            income: prev.income.saturating_add(weighted),
        };
        self.set_asset(key, next);
        registry.sub_supply(asset_id, token_type, amount);
    }

    /// Moves `amount` of one variant of one asset between two accounts: a
    /// debit of the sender's balance, clamped at zero, then a credit of the
    /// receiver's balance, saturating.  No cost or income accumulator is
    /// touched, and the registry is not consulted: a transfer changes no
    /// total supply.  The asset id is registered in the receiver's index.
    /// Callers that must not clamp check `amount` against the sender's
    /// balance first.
    pub fn transfer(
        &mut self,
        asset_id: AssetId,
        token_type: TokenType,
        from: AccountId,
        to: AccountId,
        amount: Balance,
    )
        requires
            old(self).wf(),
        ensures
            final(self).wf(),
            ({
                let from_key = (AssetKey { asset_id, token_type, account: from });
                let to_key = (AssetKey { asset_id, token_type, account: to });
                let from_prev = old(self).account_asset(from_key);
                let mid = (AccountAsset {
                    balance: sat_sub(from_prev.balance, amount),
                    ..from_prev
                });
                let to_prev = if from == to {
                    mid
                } else {
                    old(self).account_asset(to_key)
                };
                let to_next = (AccountAsset {
                    balance: sat_add(to_prev.balance, amount),
                    ..to_prev
                });
                &&& final(self).account_asset(to_key) == to_next
                &&& from != to ==> final(self).account_asset(from_key) == mid
                &&& forall|k2: AssetKey|
                    k2 != from_key && k2 != to_key ==> final(self).account_asset(k2) == old(
                        self,
                    ).account_asset(k2)
                &&& final(self).balance_sum(asset_id, token_type) == old(self).balance_sum(
                    asset_id,
                    token_type,
                ) - from_prev.balance + (if from == to {
                    0
                } else {
                    mid.balance - to_prev.balance
                }) + to_next.balance
                &&& (from != to && amount <= from_prev.balance && to_prev.balance + amount
                    <= u128::MAX) ==> mid.balance + to_next.balance == from_prev.balance
                    + to_prev.balance
            }),
            forall|k2: AssetKey|
                final(self).account_asset(k2).cost == old(self).account_asset(k2).cost
                    && final(self).account_asset(k2).income == old(self).account_asset(k2).income,
            forall|aid2: AssetId, tt2: TokenType|
                !(aid2 == asset_id && tt2 == token_type) ==> final(self).balance_sum(aid2, tt2)
                    == old(self).balance_sum(aid2, tt2),
            final(self).ids_of(to) == (if old(self).ids_of(to).contains(asset_id) {
                old(self).ids_of(to)
            } else {
                old(self).ids_of(to).push(asset_id)
            }),
            forall|a2: AccountId| a2 != to ==> final(self).ids_of(a2) == old(self).ids_of(a2),
    {
        let from_key = AssetKey { asset_id, token_type, account: from };
        let to_key = AssetKey { asset_id, token_type, account: to };
        let from_prev = self.get(asset_id, token_type, from);
        let mid = AccountAsset {
            balance: from_prev.balance.saturating_sub(amount),
            cost: from_prev.cost,
            income: from_prev.income,
        };
        self.set_asset(from_key, mid);
        let to_prev = self.get(asset_id, token_type, to);
        let to_next = AccountAsset {
            balance: to_prev.balance.saturating_add(amount),
            cost: to_prev.cost,
            income: to_prev.income,
        };
        self.set_asset(to_key, to_next);
        self.register_asset(to, asset_id);
    }

    /// Returns the asset ids an account ever held, in first-held order.
    pub fn asset_ids(&self, account: AccountId) -> (r: Vec<AssetId>)
        requires
            self.wf(),
        ensures
            r@ == self.ids_of(account),
    {
        match self.find_index_slot(account) {
            Some(i) => {
                proof {
                    lemma_find_at_index(self.index_entries(), account, i as int);
                }
                clone_ids(&self.index[i].1)
            },
            None => {
                proof {
                    lemma_find_absent(self.index_entries(), account);
                }
                Vec::new()
            },
        }
    }
}

} // verus!
