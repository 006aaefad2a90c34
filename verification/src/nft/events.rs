//! The events the registry emits when assets are minted or transferred.
//!
//! Operations return these as plain values; what publishes them (and in
//! which encoding) is the host's concern.

use vstd::prelude::*;

verus! {

/// The name of the event standard the registry follows.
pub const NFT_STANDARD_NAME: &'static str = "nep171";

/// The version of the metadata standard the registry follows.
pub const NFT_METADATA_SPEC: &'static str = "1.0.0";

/// One asset minting, as carried by a mint event.
pub struct NftMintLog {
    /// The minted asset's owner.
    pub owner_id: String,
    /// The minted asset ids.
    pub token_ids: Vec<String>,
    /// An optional message.
    pub memo: Option<String>,
}

/// One asset transfer, as carried by a transfer event.
pub struct NftTransferLog {
    /// The delegate that authorized the transfer, when the caller was not
    /// the owner.
    pub authorized_id: Option<String>,
    /// The owner before the transfer.
    pub old_owner_id: String,
    /// The owner after the transfer.
    pub new_owner_id: String,
    /// The transferred asset ids.
    pub token_ids: Vec<String>,
    /// An optional message.
    pub memo: Option<String>,
}

/// What kind of event happened, with its data.
pub enum EventLogVariant {
    /// Assets were minted.
    NftMint(Vec<NftMintLog>),
    /// Assets were transferred.
    NftTransfer(Vec<NftTransferLog>),
}

/// One event, tagged with the standard and version it follows.
pub struct EventLog {
    /// The standard's name.
    pub standard: String,
    /// The standard's version.
    pub version: String,
    /// The event itself.
    pub event: EventLogVariant,
}

} // verus!
