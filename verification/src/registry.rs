//! The asset registry: the mapping from asset id to its token-pair metadata
//! and the next-id allocator.  Three ids are reserved for the well-known
//! symbols; every other id is handed out sequentially and never reused.

use vstd::prelude::*;

use crate::alist::{
    distinct_keys, find_value, lemma_distinct_push, lemma_distinct_update, lemma_find_absent,
    lemma_find_at_index, lemma_find_push, lemma_find_update,
};
use crate::types::{
    clone_bytes, sat_add, sat_sub, AssetId, Balance, Token, TokenPair, TokenPairV, TokenType,
    TokenV,
};

verus! {

/// The number of asset ids reserved at genesis; allocation starts above them.
pub const RESERVED_ASSET_IDS: AssetId = 3;

// The ASCII bytes the three well-known symbols are spelled with.
pub const BYTE_D: u8 = 68;
pub const BYTE_E: u8 = 69;
pub const BYTE_K: u8 = 75;
pub const BYTE_M: u8 = 77;
pub const BYTE_O: u8 = 79;
pub const BYTE_S: u8 = 83;
pub const BYTE_T: u8 = 84;

/// The byte sequence of the first well-known symbol, "DOT".
pub open spec fn dot_symbol() -> Seq<u8> {
    seq![BYTE_D, BYTE_O, BYTE_T]
}

/// The byte sequence of the second well-known symbol, "KSM".
pub open spec fn ksm_symbol() -> Seq<u8> {
    seq![BYTE_K, BYTE_S, BYTE_M]
}

/// The byte sequence of the third well-known symbol, "EOS".
pub open spec fn eos_symbol() -> Seq<u8> {
    seq![BYTE_E, BYTE_O, BYTE_S]
}

/// The reserved asset id of a well-known symbol, or `None` for every other
/// symbol.
pub open spec fn reserved_id_of(symbol: Seq<u8>) -> Option<AssetId> {
    if symbol == dot_symbol() {
        Some(0)
    } else if symbol == ksm_symbol() {
        Some(1)
    } else if symbol == eos_symbol() {
        Some(2)
    } else {
        None
    }
}

/// Returns the reserved asset id of the symbol, or `None` for a symbol that
/// is not well known.
pub fn reserved_id(symbol: &Vec<u8>) -> (r: Option<AssetId>)
    ensures
        r == reserved_id_of(symbol@),
{
    if symbol.len() == 3 {
        let b0 = symbol[0];
        let b1 = symbol[1];
        let b2 = symbol[2];
        if b0 == BYTE_D && b1 == BYTE_O && b2 == BYTE_T {
            proof {
                assert(symbol@ =~= dot_symbol());
            }
            Some(0)
        } else if b0 == BYTE_K && b1 == BYTE_S && b2 == BYTE_M {
            proof {
                assert(symbol@ =~= ksm_symbol());
            }
            Some(1)
        } else if b0 == BYTE_E && b1 == BYTE_O && b2 == BYTE_S {
            proof {
                assert(symbol@ =~= eos_symbol());
            }
            Some(2)
        } else {
            None
        }
    } else {
        None
    }
}

/// The pair a registry holds for an id: the stored pair, or the zero-valued
/// default for an id that was never written.
pub open spec fn stored_pair(s: Seq<(AssetId, TokenPairV)>, asset_id: AssetId) -> TokenPairV {
    match find_value(s, asset_id) {
        Some(pair) => pair,
        None => TokenPairV::empty(),
    }
}

/// Returns a copy of a pair with the given variant's supply counter replaced.
fn pair_with_supply(pair: &TokenPair, token_type: TokenType, supply: Balance) -> (r: TokenPair)
    ensures
        r@ == pair@.with_supply(token_type, supply),
{
    match token_type {
        TokenType::Token => TokenPair {
            token: Token {
                symbol: clone_bytes(&pair.token.symbol),
                precision: pair.token.precision,
                total_supply: supply,
            },
            vtoken: pair.vtoken.clone(),
        },
        TokenType::VToken => TokenPair {
            token: pair.token.clone(),
            vtoken: Token {
                symbol: clone_bytes(&pair.vtoken.symbol),
                precision: pair.vtoken.precision,
                total_supply: supply,
            },
        },
    }
}

/// The asset registry: token-pair metadata by asset id, and the counter from
/// which fresh ids are allocated.
pub struct AssetRegistry {
    tokens: Vec<(AssetId, TokenPair)>,
    next: AssetId,
}

impl AssetRegistry {
    /// The registry's contents as an association list from asset id to the
    /// model of the stored pair.
    pub closed spec fn entries(&self) -> Seq<(AssetId, TokenPairV)> {
        Seq::new(self.tokens@.len(), |i: int| (self.tokens@[i].0, self.tokens@[i].1@))
    }

    /// The id the allocator hands out next.
    pub closed spec fn spec_next_id(&self) -> AssetId {
        self.next
    }

    /// Whether an entry for the id exists.
    pub closed spec fn spec_token_exists(&self, asset_id: AssetId) -> bool {
        find_value(self.entries(), asset_id) is Some
    }

    /// The pair recorded for an id, the zero-valued default when absent.
    pub closed spec fn pair_of(&self, asset_id: AssetId) -> TokenPairV {
        stored_pair(self.entries(), asset_id)
    }

    /// The total supply recorded for one variant of an asset.
    pub open spec fn supply_of(&self, asset_id: AssetId, token_type: TokenType) -> Balance {
        self.pair_of(asset_id).supply_of(token_type)
    }

    /// Well-formedness: each asset id has at most one entry.
    pub closed spec fn wf(&self) -> bool {
        distinct_keys(self.entries())
    }

    /// An empty registry; the allocator starts right above the reserved ids.
    pub fn new() -> (r: Self)
        ensures
            r.wf(),
            r.spec_next_id() == RESERVED_ASSET_IDS,
            forall|id: AssetId| !r.spec_token_exists(id),
            forall|id: AssetId| r.pair_of(id) == TokenPairV::empty(),
    {
        let r = AssetRegistry { tokens: Vec::new(), next: RESERVED_ASSET_IDS };
        proof {
            assert forall|id: AssetId| !r.spec_token_exists(id) && r.pair_of(id)
                == TokenPairV::empty() by {
                lemma_find_absent(r.entries(), id);
            }
        }
        r
    }

    /// The id the allocator hands out next.
    pub fn next_asset_id(&self) -> (r: AssetId)
        ensures
            r == self.spec_next_id(),
    {
        self.next
    }

    /// The index at which an id is stored, or `None` when it is absent.
    fn find_index(&self, asset_id: AssetId) -> (r: Option<usize>)
        ensures
            match r {
                Some(i) => i < self.entries().len() && self.entries()[i as int].0 == asset_id,
                None => forall|j: int|
                    0 <= j < self.entries().len() ==> self.entries()[j].0 != asset_id,
            },
    {
        let n = self.tokens.len();
        let mut i: usize = 0;
        while i < n
            invariant
                i <= n,
                n == self.tokens@.len(),
                forall|j: int| 0 <= j < i ==> self.entries()[j].0 != asset_id,
            decreases n - i,
        {
            if self.tokens[i].0 == asset_id {
                return Some(i);
            }
            i += 1;
        }
        None
    }

    /// Whether an asset with the given id has been created.
    pub fn token_exists(&self, asset_id: AssetId) -> (r: bool)
        requires
            self.wf(),
        ensures
            r == self.spec_token_exists(asset_id),
    {
        match self.find_index(asset_id) {
            Some(i) => {
                proof {
                    lemma_find_at_index(self.entries(), asset_id, i as int);
                }
                true
            },
            None => {
                proof {
                    lemma_find_absent(self.entries(), asset_id);
                }
                false
            },
        }
    }

    /// The pair recorded for an id; the zero-valued default pair when the id
    /// was never written.
    pub fn get_token(&self, asset_id: AssetId) -> (r: TokenPair)
        requires
            self.wf(),
        ensures
            r@ == self.pair_of(asset_id),
    {
        match self.find_index(asset_id) {
            Some(i) => {
                proof {
                    lemma_find_at_index(self.entries(), asset_id, i as int);
                }
                let entry = &self.tokens[i];
                entry.1.clone()
            },
            None => {
                proof {
                    lemma_find_absent(self.entries(), asset_id);
                }
                TokenPair::default()
            },
        }
    }

    /// Stores `pair` under `asset_id`, overwriting any earlier entry.
    fn insert(&mut self, asset_id: AssetId, pair: TokenPair)
        requires
            old(self).wf(),
        ensures
            final(self).wf(),
            final(self).spec_token_exists(asset_id),
            final(self).pair_of(asset_id) == pair@,
            forall|id2: AssetId|
                id2 != asset_id ==> final(self).pair_of(id2) == old(self).pair_of(id2)
                    && final(self).spec_token_exists(id2) == old(self).spec_token_exists(id2),
            final(self).spec_next_id() == old(self).spec_next_id(),
    {
        let ghost old_entries = self.entries();
        match self.find_index(asset_id) {
            Some(i) => {
                self.tokens.set(i, (asset_id, pair));
                proof {
                    assert(self.entries() =~= old_entries.update(
                        i as int,
                        (old_entries[i as int].0, self.tokens@[i as int].1@),
                    ));
                    lemma_distinct_update(old_entries, i as int, self.tokens@[i as int].1@);
                    assert forall|id2: AssetId| #[trigger]
                        find_value(self.entries(), id2) == (if id2 == asset_id {
                            Some(self.tokens@[i as int].1@)
                        } else {
                            find_value(old_entries, id2)
                        }) by {
                        lemma_find_update(
                            old_entries,
                            i as int,
                            self.tokens@[i as int].1@,
                            id2,
                        );
                    }
                }
            },
            None => {
                let ghost n = self.tokens@.len() as int;
                self.tokens.push((asset_id, pair));
                proof {
                    assert(self.entries() =~= old_entries.push((asset_id, self.tokens@[n].1@)));
                    lemma_find_absent(old_entries, asset_id);
                    lemma_distinct_push(old_entries, asset_id, self.tokens@[n].1@);
                    assert forall|id2: AssetId| #[trigger]
                        find_value(self.entries(), id2) == (if id2 == asset_id {
                            Some(self.tokens@[n].1@)
                        } else {
                            find_value(old_entries, id2)
                        }) by {
                        lemma_find_push(old_entries, asset_id, self.tokens@[n].1@, id2);
                    }
                }
            },
        }
    }

    /// Creates an asset: a well-known symbol takes its reserved id, any other
    /// symbol takes the next sequential id.  Both variants start with the
    /// given symbol and precision and a total supply of zero; the stored pair
    /// is returned beside the id.  The engine rejects bad symbols and
    /// precisions with a typed failure first; the registry re-enforces that
    /// validation as a hard contract and then never fails.
    pub fn create(&mut self, symbol: Vec<u8>, precision: u16) -> (r: (AssetId, TokenPair))
        requires
            old(self).wf(),
            0 < symbol@.len() <= 32,
            precision <= 16,
            reserved_id_of(symbol@) is None ==> old(self).spec_next_id() < AssetId::MAX,
        ensures
            final(self).wf(),
            ({
                let id = match reserved_id_of(symbol@) {
                    Some(rid) => rid,
                    None => old(self).spec_next_id(),
                };
                let pair = (TokenPairV {
                    token: TokenV { symbol: symbol@, precision, total_supply: 0 },
                    vtoken: TokenV { symbol: symbol@, precision, total_supply: 0 },
                });
                &&& r.0 == id
                &&& r.1@ == pair
                &&& final(self).spec_token_exists(id)
                &&& final(self).pair_of(id) == pair
                &&& forall|id2: AssetId|
                    id2 != id ==> final(self).pair_of(id2) == old(self).pair_of(id2)
                        && final(self).spec_token_exists(id2) == old(self).spec_token_exists(id2)
                &&& final(self).spec_next_id() == if reserved_id_of(symbol@) is Some {
                    old(self).spec_next_id()
                } else {
                    (old(self).spec_next_id() + 1) as AssetId
                }
            }),
    {
        let id = match reserved_id(&symbol) {
            Some(rid) => rid,
            None => {
                let id = self.next;
                self.next = self.next + 1;
                id
            },
        };
        let vtoken_symbol = clone_bytes(&symbol);
        let token = Token::new(symbol, precision, 0);
        let vtoken = Token::new(vtoken_symbol, precision, 0);
        let pair = TokenPair::new(token, vtoken);
        let returned = pair.clone();
        self.insert(id, pair);
        (id, returned)
    }

    /// Adds `amount`, saturating, to one variant's total supply.  An id that
    /// was never written is created as the zero-valued default pair first,
    /// matching the always-defined, lazily-populated storage model.
    pub fn add_supply(&mut self, asset_id: AssetId, token_type: TokenType, amount: Balance)
        requires
            old(self).wf(),
        ensures
            final(self).wf(),
            final(self).spec_token_exists(asset_id),
            final(self).pair_of(asset_id) == old(self).pair_of(asset_id).with_supply(
                token_type,
                sat_add(old(self).supply_of(asset_id, token_type), amount),
            ),
            forall|id2: AssetId|
                id2 != asset_id ==> final(self).pair_of(id2) == old(self).pair_of(id2)
                    && final(self).spec_token_exists(id2) == old(self).spec_token_exists(id2),
            final(self).spec_next_id() == old(self).spec_next_id(),
    {
        let pair = self.get_token(asset_id);
        let supply = match token_type {
            TokenType::Token => pair.token.total_supply,
            TokenType::VToken => pair.vtoken.total_supply,
        };
        let updated = pair_with_supply(&pair, token_type, supply.saturating_add(amount));
        self.insert(asset_id, updated);
    }

    /// Subtracts `amount`, saturating at zero, from one variant's total
    /// supply.  As with [`Self::add_supply`], an absent id is created as the
    /// default pair.
    pub fn sub_supply(&mut self, asset_id: AssetId, token_type: TokenType, amount: Balance)
        requires
            old(self).wf(),
        ensures
            final(self).wf(),
            final(self).spec_token_exists(asset_id),
            final(self).pair_of(asset_id) == old(self).pair_of(asset_id).with_supply(
                token_type,
                sat_sub(old(self).supply_of(asset_id, token_type), amount),
            ),
            forall|id2: AssetId|
                id2 != asset_id ==> final(self).pair_of(id2) == old(self).pair_of(id2)
                    && final(self).spec_token_exists(id2) == old(self).spec_token_exists(id2),
            final(self).spec_next_id() == old(self).spec_next_id(),
    {
        let pair = self.get_token(asset_id);
        let supply = match token_type {
            TokenType::Token => pair.token.total_supply,
            TokenType::VToken => pair.vtoken.total_supply,
        };
        let updated = pair_with_supply(&pair, token_type, supply.saturating_sub(amount));
        self.insert(asset_id, updated);
    }
}

} // verus!
