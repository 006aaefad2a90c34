//! A verified marketplace ledger for digital assets, paired with the asset
//! registry it settles against.
//!
//! The marketplace lists assets for sale, gates every state-growing call on a
//! prepaid storage-rent balance, and settles purchases through a two-step
//! saga: the listing is removed synchronously, a transfer-and-payout request
//! is issued to the owning registry, and the eventual response is either
//! disbursed to the royalty recipients or refunded to the buyer.  The
//! registry owns per-asset ownership, approval and royalty state and computes
//! the royalty split.
//!
//! All host interaction (signers, attached deposits, scheduled transfers,
//! cross-contract calls) happens outside this crate: every function here maps
//! plain values and explicit store state to new state plus a description of
//! the payments or requests to perform.

pub mod codec;
pub mod effects;
pub mod errors;
pub mod market;
pub mod nft;
pub mod payout;
pub mod strkv;

pub use errors::ContractError;
