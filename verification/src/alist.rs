//! Specification of association lists: sequences of key/value pairs with
//! pairwise-distinct keys.  Every store of the ledger engine — the asset
//! registry, the account-asset records, the per-account asset index, the
//! price bookkeeping and the voucher balances — is modelled as such a list.

use vstd::prelude::*;

verus! {

/// No two entries of the list bind the same key.
pub open spec fn distinct_keys<K, V>(s: Seq<(K, V)>) -> bool {
    forall|i: int, j: int| 0 <= i < j < s.len() ==> s[i].0 != s[j].0
}

/// The value bound to `key`: the first binding of `key`, scanning from the
/// front, or `None` when the list holds no binding for it.
pub open spec fn find_value<K, V>(s: Seq<(K, V)>, key: K) -> Option<V>
    decreases s.len(),
{
    if s.len() == 0 {
        None
    } else if s[0].0 == key {
        Some(s[0].1)
    } else {
        find_value(s.drop_first(), key)
    }
}

/// A key that sits at index `i` of a duplicate-free list is found there.
pub proof fn lemma_find_at_index<K, V>(s: Seq<(K, V)>, key: K, i: int)
    requires
        distinct_keys(s),
        0 <= i < s.len(),
        s[i].0 == key,
    ensures
        find_value(s, key) == Some(s[i].1),
    decreases s.len(),
{
    if i > 0 {
        assert(s.drop_first()[i - 1] == s[i]);
        lemma_find_at_index(s.drop_first(), key, i - 1);
    }
}

/// A key that no entry binds is not found.
pub proof fn lemma_find_absent<K, V>(s: Seq<(K, V)>, key: K)
    requires
        forall|i: int| 0 <= i < s.len() ==> s[i].0 != key,
    ensures
        find_value(s, key) is None,
    decreases s.len(),
{
    if s.len() > 0 {
        lemma_find_absent(s.drop_first(), key);
    }
}

/// A key that is found is bound by some entry of the list.
pub proof fn lemma_find_index_of<K, V>(s: Seq<(K, V)>, key: K)
    requires
        find_value(s, key) is Some,
    ensures
        exists|i: int|
            0 <= i < s.len() && s[i].0 == key && find_value(s, key) == Some(s[i].1),
    decreases s.len(),
{
    if s[0].0 == key {
        assert(s[0].0 == key && find_value(s, key) == Some(s[0].1));
    } else {
        lemma_find_index_of(s.drop_first(), key);
        let j = choose|j: int|
            0 <= j < s.drop_first().len() && s.drop_first()[j].0 == key && find_value(
                s.drop_first(),
                key,
            ) == Some(s.drop_first()[j].1);
        assert(s[j + 1] == s.drop_first()[j]);
    }
}

/// Rebinding the key at index `i` keeps the keys distinct.
pub proof fn lemma_distinct_update<K, V>(s: Seq<(K, V)>, i: int, v: V)
    requires
        distinct_keys(s),
        0 <= i < s.len(),
    ensures
        distinct_keys(s.update(i, (s[i].0, v))),
{
    let t = s.update(i, (s[i].0, v));
    assert forall|m: int, n: int| 0 <= m < n < t.len() implies t[m].0 != t[n].0 by {
        assert(t[m].0 == s[m].0);
        assert(t[n].0 == s[n].0);
    }
}

/// Appending a binding for a key that no entry holds keeps the keys distinct.
pub proof fn lemma_distinct_push<K, V>(s: Seq<(K, V)>, key: K, v: V)
    requires
        distinct_keys(s),
        forall|i: int| 0 <= i < s.len() ==> s[i].0 != key,
    ensures
        distinct_keys(s.push((key, v))),
{
    let t = s.push((key, v));
    assert forall|m: int, n: int| 0 <= m < n < t.len() implies t[m].0 != t[n].0 by {
        assert(t[m] == s[m]);
        if n < s.len() {
            assert(t[n] == s[n]);
        }
    }
}

/// Rebinding the key at index `i` of a duplicate-free list changes what that
/// key is bound to, and the binding of no other key.
pub proof fn lemma_find_update<K, V>(s: Seq<(K, V)>, i: int, v: V, probe: K)
    requires
        distinct_keys(s),
        0 <= i < s.len(),
    ensures
        find_value(s.update(i, (s[i].0, v)), probe) == if probe == s[i].0 {
            Some(v)
        } else {
            find_value(s, probe)
        },
    decreases s.len(),
{
    let t = s.update(i, (s[i].0, v));
    if i == 0 {
        assert(t.drop_first() =~= s.drop_first());
    } else {
        assert(t[0] == s[0]);
        assert(t.drop_first() =~= s.drop_first().update(i - 1, (s[i].0, v)));
        assert(s.drop_first()[i - 1] == s[i]);
        lemma_find_update(s.drop_first(), i - 1, v, probe);
    }
}

/// Appending a binding for a fresh key binds that key, and changes the
/// binding of no other key.
pub proof fn lemma_find_push<K, V>(s: Seq<(K, V)>, key: K, v: V, probe: K)
    requires
        find_value(s, key) is None,
    ensures
        find_value(s.push((key, v)), probe) == if probe == key {
            Some(v)
        } else {
            find_value(s, probe)
        },
    decreases s.len(),
{
    let t = s.push((key, v));
    if s.len() == 0 {
        assert(t.drop_first() =~= s);
    } else {
        assert(t[0] == s[0]);
        assert(t.drop_first() =~= s.drop_first().push((key, v)));
        lemma_find_push(s.drop_first(), key, v, probe);
    }
}

} // verus!
