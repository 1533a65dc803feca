//! A ledger engine for fungible assets.
//!
//! Each asset has two variants, a base token and a derived vtoken, with
//! independent total-supply counters kept in an asset registry.  Per-account
//! holdings live in an account-asset ledger together with price-weighted
//! cost and income accumulators; issue, transfer, destroy and redeem are
//! atomic, invariant-preserving transitions over registry and ledger.  An
//! independent voucher ledger manages a fixed-supply pool whose remaining
//! counter plus all account balances always equals the authorized total.

pub mod alist;
pub mod assets;
pub mod ledger;
pub mod registry;
pub mod types;
pub mod voucher;
