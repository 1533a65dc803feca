//! The voucher ledger: an independent fixed-supply pool.  Per-account
//! voucher balances are paired with a global remaining counter, and the pool
//! invariant — remaining plus the sum of all balances equals the authorized
//! total — holds after every issue, destroy and reset.

use vstd::prelude::*;

use crate::alist::{
    distinct_keys, find_value, lemma_distinct_push, lemma_distinct_update, lemma_find_absent,
    lemma_find_at_index, lemma_find_index_of, lemma_find_push, lemma_find_update,
};
use crate::types::{AccountId, Balance};

verus! {

/// The voucher supply authorized at genesis: eighty million units of twelve
/// decimals each.
pub const INITIAL_VOUCHER_SUPPLY: Balance = 80_000_000_000_000_000_000;

/// A failure of a voucher operation: the amount exceeds what the pool, or
/// the account, still holds.
#[derive(Clone, Copy, Debug, PartialEq, Eq, Structural)]
pub enum VoucherError {
    TransferringTooBigBalance,
}

/// The sum of all recorded voucher balances.
pub open spec fn sum_vouchers(s: Seq<(AccountId, Balance)>) -> int
    decreases s.len(),
{
    if s.len() == 0 {
        0
    } else {
        s[0].1 + sum_vouchers(s.drop_first())
    }
}

/// A voucher sum is never negative.
pub proof fn lemma_voucher_sum_nonneg(s: Seq<(AccountId, Balance)>)
    ensures
        sum_vouchers(s) >= 0,
    decreases s.len(),
{
    if s.len() > 0 {
        lemma_voucher_sum_nonneg(s.drop_first());
    }
}

/// Replacing the entry at index `i` moves the sum by the difference of the
/// new and old balances.
pub proof fn lemma_voucher_sum_update(s: Seq<(AccountId, Balance)>, i: int, e: (AccountId, Balance))
    requires
        0 <= i < s.len(),
    ensures
        sum_vouchers(s.update(i, e)) == sum_vouchers(s) - s[i].1 + e.1,
    decreases s.len(),
{
    let t = s.update(i, e);
    if i == 0 {
        assert(t.drop_first() =~= s.drop_first());
    } else {
        assert(t[0] == s[0]);
        assert(t.drop_first() =~= s.drop_first().update(i - 1, e));
        assert(s.drop_first()[i - 1] == s[i]);
        lemma_voucher_sum_update(s.drop_first(), i - 1, e);
    }
}

/// Appending an entry adds exactly its balance to the sum.
pub proof fn lemma_voucher_sum_push(s: Seq<(AccountId, Balance)>, e: (AccountId, Balance))
    ensures
        sum_vouchers(s.push(e)) == sum_vouchers(s) + e.1,
    decreases s.len(),
{
    let t = s.push(e);
    if s.len() == 0 {
        assert(t.drop_first() =~= s);
    } else {
        assert(t[0] == s[0]);
        assert(t.drop_first() =~= s.drop_first().push(e));
        lemma_voucher_sum_push(s.drop_first(), e);
    }
}

/// No single entry holds more than the whole sum.
pub proof fn lemma_voucher_stored_le_sum(s: Seq<(AccountId, Balance)>, account: AccountId)
    ensures
        (match find_value(s, account) {
            Some(b) => b as int,
            None => 0,
        }) <= sum_vouchers(s),
    decreases s.len(),
{
    lemma_voucher_sum_nonneg(s);
    if s.len() > 0 {
        lemma_voucher_stored_le_sum(s.drop_first(), account);
        if s[0].0 == account {
            lemma_voucher_sum_nonneg(s.drop_first());
        }
    }
}

/// A list whose every balance is zero sums to zero.
pub proof fn lemma_voucher_sum_zero(s: Seq<(AccountId, Balance)>)
    requires
        forall|i: int| 0 <= i < s.len() ==> s[i].1 == 0,
    ensures
        sum_vouchers(s) == 0,
    decreases s.len(),
{
    if s.len() > 0 {
        lemma_voucher_sum_zero(s.drop_first());
    }
}

/// The voucher ledger: one balance per account ever issued to, the remaining
/// pool, and the total authorized at construction.
pub struct Voucher {
    balances: Vec<(AccountId, Balance)>,
    remaining: Balance,
    total: Balance,
}

impl Voucher {
    /// The recorded balances as an association list.
    pub closed spec fn entries(&self) -> Seq<(AccountId, Balance)> {
        self.balances@
    }

    /// What the pool still holds.
    pub closed spec fn spec_remaining(&self) -> Balance {
        self.remaining
    }

    /// The fixed supply authorized at genesis.
    pub closed spec fn spec_total(&self) -> Balance {
        self.total
    }

    /// An account's voucher balance, zero when never issued to.
    pub open spec fn balance_of(&self, account: AccountId) -> Balance {
        match find_value(self.entries(), account) {
            Some(b) => b,
            None => 0,
        }
    }

    /// The sum of all recorded balances.
    pub open spec fn voucher_sum(&self) -> int {
        sum_vouchers(self.entries())
    }

    /// The pool invariant: what remains plus what was handed out is exactly
    /// the authorized total.
    pub open spec fn pool_consistent(&self) -> bool {
        self.spec_remaining() + self.voucher_sum() == self.spec_total() as int
    }

    /// Well-formedness: one entry per account, and the pool invariant.
    pub open spec fn wf(&self) -> bool {
        &&& distinct_keys(self.entries())
        &&& self.pool_consistent()
    }

    /// A full pool: nothing handed out yet, everything remaining.
    pub fn new(total: Balance) -> (r: Self)
        ensures
            r.wf(),
            r.spec_total() == total,
            r.spec_remaining() == total,
            forall|account: AccountId| r.balance_of(account) == 0,
    {
        let r = Voucher { balances: Vec::new(), remaining: total, total };
        proof {
            assert forall|account: AccountId| r.balance_of(account) == 0 by {
                lemma_find_absent(r.entries(), account);
            }
        }
        r
    }

    /// The slot of an account's balance, or `None` when never issued to.
    fn find_slot(&self, account: AccountId) -> (r: Option<usize>)
        ensures
            match r {
                Some(i) => i < self.entries().len() && self.entries()[i as int].0 == account,
                None => forall|j: int|
                    0 <= j < self.entries().len() ==> self.entries()[j].0 != account,
            },
    {
        let n = self.balances.len();
        let mut i: usize = 0;
        while i < n
            invariant
                i <= n,
                n == self.balances@.len(),
                forall|j: int| 0 <= j < i ==> self.balances@[j].0 != account,
            decreases n - i,
        {
            if self.balances[i].0 == account {
                return Some(i);
            }
            i += 1;
        }
        None
    }

    /// An account's voucher balance, zero when never issued to.
    pub fn voucher(&self, account: AccountId) -> (r: Balance)
        requires
            self.wf(),
        ensures
            r == self.balance_of(account),
    {
        match self.find_slot(account) {
            Some(i) => {
                proof {
                    lemma_find_at_index(self.entries(), account, i as int);
                }
                self.balances[i].1
            },
            None => {
                proof {
                    lemma_find_absent(self.entries(), account);
                }
                0
            },
        }
    }

    /// What the pool still holds.
    pub fn remaining_voucher(&self) -> (r: Balance)
        ensures
            r == self.spec_remaining(),
    {
        self.remaining
    }

    /// The fixed supply authorized at genesis.
    pub fn total_supplied_voucher(&self) -> (r: Balance)
        ensures
            r == self.spec_total(),
    {
        self.total
    }

    /// Writes `value` as the balance of `account`, creating the entry when
    /// the account was never issued to.
    fn set_balance(&mut self, account: AccountId, value: Balance)
        requires
            old(self).wf(),
        ensures
            distinct_keys(final(self).entries()),
            final(self).balance_of(account) == value,
            forall|a2: AccountId|
                a2 != account ==> final(self).balance_of(a2) == old(self).balance_of(a2),
            final(self).voucher_sum() == old(self).voucher_sum() - old(self).balance_of(account)
                + value,
            final(self).spec_remaining() == old(self).spec_remaining(),
            final(self).spec_total() == old(self).spec_total(),
    {
        let ghost old_entries = self.entries();
        match self.find_slot(account) {
            Some(i) => {
                proof {
                    lemma_find_at_index(old_entries, account, i as int);
                }
                self.balances.set(i, (account, value));
                proof {
                    assert((account, value) == (old_entries[i as int].0, value));
                    lemma_distinct_update(old_entries, i as int, value);
                    lemma_voucher_sum_update(old_entries, i as int, (account, value));
                    assert forall|a2: AccountId| #[trigger]
                        find_value(self.entries(), a2) == (if a2 == account {
                            Some(value)
                        } else {
                            find_value(old_entries, a2)
                        }) by {
                        lemma_find_update(old_entries, i as int, value, a2);
                    }
                }
            },
            None => {
                self.balances.push((account, value));
                proof {
                    assert(self.entries() == old_entries.push((account, value)));
                    lemma_find_absent(old_entries, account);
                    lemma_distinct_push(old_entries, account, value);
                    lemma_voucher_sum_push(old_entries, (account, value));
                    assert forall|a2: AccountId| #[trigger]
                        find_value(self.entries(), a2) == (if a2 == account {
                            Some(value)
                        } else {
                            find_value(old_entries, a2)
                        }) by {
                        lemma_find_push(old_entries, account, value, a2);
                    }
                }
            },
        }
    }

    /// Hands `amount` vouchers from the pool to `dest`.  An amount above
    /// what remains is reported before any state is touched.  The pool
    /// invariant guarantees the new balance fits the numeric ceiling.
    pub fn issue(&mut self, dest: AccountId, amount: Balance) -> (r: Result<(), VoucherError>)
        requires
            old(self).wf(),
        ensures
            final(self).wf(),
            final(self).spec_total() == old(self).spec_total(),
            match r {
                Ok(_) => amount <= old(self).spec_remaining() && final(self).balance_of(dest)
                    == old(self).balance_of(dest) + amount && final(self).spec_remaining() == old(
                    self,
                ).spec_remaining() - amount,
                Err(e) => *final(self) == *old(self) && amount > old(self).spec_remaining() && e
                    == VoucherError::TransferringTooBigBalance,
            },
            forall|a2: AccountId|
                a2 != dest ==> final(self).balance_of(a2) == old(self).balance_of(a2),
    {
        if self.remaining < amount {
            return Err(VoucherError::TransferringTooBigBalance);
        }
        let balance = self.voucher(dest);
        proof {
            lemma_voucher_stored_le_sum(self.entries(), dest);
        }
        self.set_balance(dest, balance + amount);
        self.remaining = self.remaining - amount;
        Ok(())
    }

    /// Takes `amount` vouchers away from `dest` and returns them to the
    /// pool.  An amount above the account's balance is reported before any
    /// state is touched.  The return to the pool is clamped so the pool can
    /// never exceed its authorized total; under the pool invariant the clamp
    /// never triggers.
    pub fn destroy(&mut self, dest: AccountId, amount: Balance) -> (r: Result<(), VoucherError>)
        requires
            old(self).wf(),
        ensures
            final(self).wf(),
            final(self).spec_total() == old(self).spec_total(),
            match r {
                Ok(_) => amount <= old(self).balance_of(dest) && final(self).balance_of(dest)
                    == old(self).balance_of(dest) - amount && final(self).spec_remaining() == old(
                    self,
                ).spec_remaining() + amount,
                Err(e) => *final(self) == *old(self) && amount > old(self).balance_of(dest) && e
                    == VoucherError::TransferringTooBigBalance,
            },
            forall|a2: AccountId|
                a2 != dest ==> final(self).balance_of(a2) == old(self).balance_of(a2),
    {
        let balance = self.voucher(dest);
        if balance < amount {
            return Err(VoucherError::TransferringTooBigBalance);
        }
        proof {
            lemma_voucher_stored_le_sum(self.entries(), dest);
            lemma_voucher_sum_nonneg(self.entries());
        }
        self.set_balance(dest, balance - amount);
        if self.remaining + amount <= self.total {
            self.remaining = self.remaining + amount;
        }
        Ok(())
    }

    /// Restores the full pool in one administrative action: every balance
    /// ever recorded is zeroed — the entries stay, zero-valued — and the
    /// remaining counter is set back to the authorized total.  Idempotent.
    pub fn reset(&mut self)
        requires
            old(self).wf(),
        ensures
            final(self).wf(),
            final(self).spec_total() == old(self).spec_total(),
            final(self).spec_remaining() == final(self).spec_total(),
            forall|account: AccountId| final(self).balance_of(account) == 0,
            final(self).entries().len() == old(self).entries().len(),
            forall|i: int|
                0 <= i < old(self).entries().len() ==> final(self).entries()[i].0 == old(
                    self,
                ).entries()[i].0,
    {
        let ghost old_entries = self.entries();
        let n = self.balances.len();
        let mut i: usize = 0;
        while i < n
            invariant
                i <= n,
                n == self.balances@.len(),
                n == old_entries.len(),
                forall|j: int| 0 <= j < n ==> self.balances@[j].0 == old_entries[j].0,
                forall|j: int| 0 <= j < i ==> self.balances@[j].1 == 0,
                distinct_keys(old_entries),
                self.total == old(self).total,
            decreases n - i,
        {
            let account = self.balances[i].0;
            self.balances.set(i, (account, 0));
            i += 1;
        }
        self.remaining = self.total;
        proof {
            lemma_voucher_sum_zero(self.entries());
            assert forall|m: int, j: int| 0 <= m < j < self.entries().len() implies self.entries()[m].0
                != self.entries()[j].0 by {
                assert(old_entries[m].0 != old_entries[j].0);
            }
            assert forall|account: AccountId| self.balance_of(account) == 0 by {
                if find_value(self.entries(), account) is Some {
                    lemma_find_index_of(self.entries(), account);
                }
            }
        }
    }
}

} // verus!
