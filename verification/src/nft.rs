//! The asset registry: per-asset ownership, approvals and royalties, and
//! the operations that mint, approve and transfer assets.

pub mod approval;
pub mod enumeration;
pub mod events;
pub mod internal;
pub mod metadata;
pub mod mint;
pub mod nft_core;
pub mod royalty;

use vstd::prelude::*;
use vstd::string::StringExecFns;
use crate::nft::metadata::token_view_wf;
use crate::nft::metadata::NFTContractMetadata;
use crate::nft::metadata::Token;
use crate::nft::metadata::TokenMetadata;
use crate::strkv::distinct_seqs;
use crate::strkv::StrMap;
use crate::strkv::StrSet;

verus! {

/// The asset registry's store.
pub struct Contract {
    /// The account that administers the registry.
    pub owner_id: String,
    /// For each account, the ids of the assets it owns.
    pub tokens_per_owner: StrMap<StrSet>,
    /// Every asset's ownership, approval and royalty record.
    pub tokens_by_id: StrMap<Token>,
    /// Every asset's descriptive metadata, in mint order.
    pub token_metadata_by_id: StrMap<TokenMetadata>,
    /// The registry's own metadata.
    pub metadata: NFTContractMetadata,
    /// For shared assets, the accounts holding the extra shares.
    pub share_nfts: StrMap<Vec<String>>,
    /// Per asset, one admission flag per share.
    pub ticket_used: StrMap<Vec<bool>>,
}

impl Contract {
    /// An asset is owned by this account.
    pub open spec fn token_owned(self, t: Seq<char>, o: Seq<char>) -> bool {
        self.tokens_by_id@.contains_key(t) && self.tokens_by_id@[t].owner_id == o
    }

    /// An asset's record is well formed and stands in its owner's index and
    /// in the side tables.
    pub open spec fn token_entry_ok(self, t: Seq<char>) -> bool {
        let tok = self.tokens_by_id@[t];
        &&& token_view_wf(tok)
        &&& self.tokens_per_owner@.contains_key(tok.owner_id)
        &&& self.tokens_per_owner@[tok.owner_id].contains(t)
        &&& self.token_metadata_by_id@.contains_key(t)
        &&& self.ticket_used@.contains_key(t)
        &&& self.ticket_used@[t].len() >= 1
        &&& self.ticket_used@[t].len() > 1 ==> self.share_nfts@.contains_key(t)
    }

    /// An owner-index entry is a nonempty, duplicate-free set of assets the
    /// account owns.
    pub open spec fn owner_tokens_ok(self, o: Seq<char>) -> bool {
        let ts = self.tokens_per_owner@[o];
        &&& ts.len() >= 1
        &&& distinct_seqs(ts)
        &&& forall|i: int| 0 <= i < ts.len() ==> #[trigger] self.token_owned(ts[i], o)
    }

    /// The registry's invariant.
    pub open spec fn wf(self) -> bool {
        &&& self.tokens_per_owner.wf()
        &&& self.tokens_by_id.wf()
        &&& self.token_metadata_by_id.wf()
        &&& self.share_nfts.wf()
        &&& self.ticket_used.wf()
        &&& forall|t: Seq<char>| #[trigger] self.tokens_by_id@.contains_key(t)
            ==> self.token_entry_ok(t)
        &&& forall|o: Seq<char>| #[trigger] self.tokens_per_owner@.contains_key(o)
            ==> self.owner_tokens_ok(o)
        &&& forall|t: Seq<char>| #[trigger] self.token_metadata_by_id@.contains_key(t)
            ==> self.tokens_by_id@.contains_key(t)
    }

    /// An empty registry carrying the given metadata.
    pub fn new(owner_id: String, metadata: NFTContractMetadata) -> (r: Contract)
        ensures
            r.wf(),
            r.owner_id == owner_id,
            r.metadata == metadata,
            r.tokens_by_id@ == Map::<Seq<char>, crate::nft::metadata::TokenView>::empty(),
            r.token_metadata_by_id@ == Map::<Seq<char>, TokenMetadata>::empty(),
            r.tokens_per_owner@ == Map::<Seq<char>, Seq<Seq<char>>>::empty(),
    {
        Contract {
            owner_id,
            tokens_per_owner: StrMap::new(),
            tokens_by_id: StrMap::new(),
            token_metadata_by_id: StrMap::new(),
            metadata,
            share_nfts: StrMap::new(),
            ticket_used: StrMap::new(),
        }
    }

    /// An empty registry with the stock metadata.
    pub fn new_default_meta(owner_id: String) -> (r: Contract)
        ensures
            r.wf(),
            r.owner_id == owner_id,
            r.tokens_by_id@ == Map::<Seq<char>, crate::nft::metadata::TokenView>::empty(),
    {
        Contract::new(
            owner_id,
            NFTContractMetadata {
                spec: String::from_str("nft-1.0.0"),
                name: String::from_str("NFT Tutorial Contract"),
                symbol: String::from_str("GONEAR"),
                icon: None,
                base_uri: None,
                reference: None,
                reference_hash: None,
            },
        )
    }
}

} // verus!
