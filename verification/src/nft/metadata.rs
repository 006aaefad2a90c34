//! Asset records, their views, and the registry's descriptive metadata.

use vstd::prelude::*;
use crate::strkv::distinct_seqs;
use crate::strkv::StrMap;

verus! {

/// Descriptive metadata of the registry itself.
pub struct NFTContractMetadata {
    /// The metadata standard this registry follows.
    pub spec: String,
    /// The registry's display name.
    pub name: String,
    /// The registry's ticker symbol.
    pub symbol: String,
    /// A data URL for the registry's icon.
    pub icon: Option<String>,
    /// A gateway prefix for decentralized storage.
    pub base_uri: Option<String>,
    /// A URL to an off-chain document with more information.
    pub reference: Option<String>,
    /// A digest of the referenced document, encoded as text.
    pub reference_hash: Option<String>,
}

impl NFTContractMetadata {
    /// An owned copy of this metadata.
    pub fn duplicate(&self) -> (r: NFTContractMetadata)
        ensures
            r == *self,
    {
        NFTContractMetadata {
            spec: self.spec.clone(),
            name: self.name.clone(),
            symbol: self.symbol.clone(),
            icon: duplicate_opt(&self.icon),
            base_uri: duplicate_opt(&self.base_uri),
            reference: duplicate_opt(&self.reference),
            reference_hash: duplicate_opt(&self.reference_hash),
        }
    }
}

/// Descriptive metadata of one asset.
pub struct TokenMetadata {
    /// The asset's title.
    pub title: Option<String>,
    /// A free-form description.
    pub description: Option<String>,
    /// A URL to associated media.
    pub media: Option<String>,
    /// A digest of the media, encoded as text; set when `media` is.
    pub media_hash: Option<String>,
    /// How many copies of this metadata existed when minted.
    pub copies: Option<u64>,
    /// When the asset was issued, in epoch milliseconds.
    pub issued_at: Option<u64>,
    /// When the asset expires, in epoch milliseconds.
    pub expires_at: Option<u64>,
    /// When the asset starts being valid, in epoch milliseconds.
    pub starts_at: Option<u64>,
    /// When the asset was last updated, in epoch milliseconds.
    pub updated_at: Option<u64>,
    /// Anything extra to keep on chain.
    pub extra: Option<String>,
    /// A URL to an off-chain document with more information.
    pub reference: Option<String>,
    /// A digest of the referenced document, encoded as text.
    pub reference_hash: Option<String>,
}

impl View for TokenMetadata {
    type V = TokenMetadata;

    open spec fn view(&self) -> TokenMetadata {
        *self
    }
}

impl TokenMetadata {
    /// An owned copy of this metadata.
    pub fn duplicate(&self) -> (r: TokenMetadata)
        ensures
            r == *self,
    {
        TokenMetadata {
            title: duplicate_opt(&self.title),
            description: duplicate_opt(&self.description),
            media: duplicate_opt(&self.media),
            media_hash: duplicate_opt(&self.media_hash),
            copies: self.copies,
            issued_at: self.issued_at,
            expires_at: self.expires_at,
            starts_at: self.starts_at,
            updated_at: self.updated_at,
            extra: duplicate_opt(&self.extra),
            reference: duplicate_opt(&self.reference),
            reference_hash: duplicate_opt(&self.reference_hash),
        }
    }
}

/// An owned copy of an optional text.
fn duplicate_opt(s: &Option<String>) -> (r: Option<String>)
    ensures
        r == *s,
{
    match s {
        Some(v) => Some(v.clone()),
        None => None,
    }
}

/// One asset's ownership, approval and royalty record.
pub struct Token {
    /// The current owner.
    pub owner_id: String,
    /// Accounts approved to transfer the asset, each with the approval
    /// sequence number it was granted.
    pub approved_account_ids: StrMap<u64>,
    /// The next approval sequence number to grant; never decreases.
    pub next_approval_id: u64,
    /// The perpetual royalty table: recipient to basis points.
    pub royalty: StrMap<u16>,
}

/// The mathematical value of an asset record.
pub ghost struct TokenView {
    /// The current owner.
    pub owner_id: Seq<char>,
    /// The approval grants.
    pub approved: Map<Seq<char>, u64>,
    /// The approved accounts, in grant order.
    pub approved_keys: Seq<Seq<char>>,
    /// The next approval sequence number.
    pub next_approval_id: u64,
    /// The royalty table.
    pub royalty: Map<Seq<char>, u16>,
    /// The royalty recipients, in table order.
    pub royalty_keys: Seq<Seq<char>>,
}

impl View for Token {
    type V = TokenView;

    open spec fn view(&self) -> TokenView {
        TokenView {
            owner_id: self.owner_id@,
            approved: self.approved_account_ids@,
            approved_keys: self.approved_account_ids.key_seq(),
            next_approval_id: self.next_approval_id,
            royalty: self.royalty@,
            royalty_keys: self.royalty.key_seq(),
        }
    }
}

/// The prepaid-rent bytes a list of approved accounts occupies: each
/// account's characters plus a fixed overhead per grant.
pub open spec fn approvals_bytes(keys: Seq<Seq<char>>) -> int
    decreases keys.len(),
{
    if keys.len() == 0 {
        0
    } else {
        approvals_bytes(keys.drop_last()) + keys.last().len() + 12
    }
}

/// The total basis points a royalty table grants, over its keys in order.
pub open spec fn royalty_bps_sum(m: Map<Seq<char>, u16>, keys: Seq<Seq<char>>) -> int
    decreases keys.len(),
{
    if keys.len() == 0 {
        0
    } else {
        royalty_bps_sum(m, keys.drop_last()) + m[keys.last()]
    }
}

/// What a read-only view call returns for one asset.
pub struct JsonToken {
    /// The current owner.
    pub owner_id: String,
    /// For shared assets, the accounts holding the extra shares.
    pub shared_owners: Vec<String>,
    /// One admission flag per share.
    pub ticket_used: Vec<bool>,
    /// The asset's id.
    pub token_id: String,
    /// The asset's descriptive metadata.
    pub metadata: TokenMetadata,
    /// The approval grants.
    pub approved_account_ids: StrMap<u64>,
    /// The royalty table.
    pub royalty: StrMap<u16>,
}

/// Read access to the registry's own metadata.
pub trait NonFungibleTokenMetadata {
    /// The registry's descriptive metadata.
    fn nft_metadata(&self) -> NFTContractMetadata;
}

/// An asset record's invariant: distinct approval and royalty keys, every
/// granted sequence number below the next one, a royalty table of at most
/// six recipients summing to at most the whole (10000 basis points), and
/// approval storage that fits the rent arithmetic.
pub open spec fn token_view_wf(t: TokenView) -> bool {
    &&& distinct_seqs(t.approved_keys)
    &&& distinct_seqs(t.royalty_keys)
    &&& forall|k: Seq<char>| #[trigger] t.approved.contains_key(k) ==> t.approved[k]
        < t.next_approval_id
    &&& t.royalty_keys.len() <= 6
    &&& forall|i: int| 0 <= i < t.royalty_keys.len() ==> #[trigger] t.royalty.contains_key(
        t.royalty_keys[i],
    )
    &&& royalty_bps_sum(t.royalty, t.royalty_keys) <= 10000
    &&& approvals_bytes(t.approved_keys) <= u64::MAX
}

} // verus!
