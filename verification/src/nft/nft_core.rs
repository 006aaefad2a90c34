//! Transfers, the transfer-and-call saga, and the single-asset view.

use vstd::prelude::*;
use crate::codec::bool_text;
use crate::codec::parse_bool;
use crate::effects::Payment;
use crate::effects::STORAGE_PRICE_PER_BYTE;
use crate::errors::ContractError;
use crate::nft::events::EventLog;
use crate::nft::internal::refund_approved_account_ids;
use crate::nft::metadata::approvals_bytes;
use crate::nft::metadata::token_view_wf;
use crate::nft::metadata::JsonToken;
use crate::nft::metadata::TokenView;
use crate::nft::Contract;
use crate::strkv::StrMap;

verus! {

/// The receiver notification a transfer-and-call schedules, with the
/// context its resolution callback needs to revert or settle.
pub struct TransferCallRequest {
    /// The caller that initiated the transfer.
    pub sender_id: String,
    /// The receiver: the contract account to notify.
    pub receiver_id: String,
    /// The transferred asset.
    pub token_id: String,
    /// The opaque message for the receiver.
    pub msg: String,
    /// The delegate that authorized the transfer, when the caller was not
    /// the owner.
    pub authorized_id: Option<String>,
    /// The owner before the transfer.
    pub previous_owner_id: String,
    /// The approval grants the transfer cleared, for the rent refund.
    pub approved_account_ids: StrMap<u64>,
    /// An optional message for the eventual transfer log.
    pub memo: Option<String>,
}

/// The least deposit a share-table update must attach.
pub const SHARE_UPDATE_MIN_DEPOSIT: u128 = 100_000_000_000_000_000_000_000;

/// The rent bytes a share list occupies.
pub open spec fn shares_bytes(es: Seq<String>) -> int
    decreases es.len(),
{
    if es.len() == 0 {
        0
    } else {
        shares_bytes(es.drop_last()) + es.last()@.len() + 12
    }
}

/// Share-list prefix sums are monotone and not negative.
proof fn lemma_shares_bytes_prefix(es: Seq<String>, i: int)
    requires
        0 <= i <= es.len(),
    ensures
        0 <= shares_bytes(es.take(i)),
        shares_bytes(es.take(i)) <= shares_bytes(es),
    decreases es.len() - i,
{
    lemma_shares_bytes_nonneg(es.take(i));
    if i < es.len() {
        lemma_shares_bytes_prefix(es, i + 1);
        assert(es.take(i + 1).drop_last() =~= es.take(i));
        assert(es.take(i + 1).last() == es[i]);
    } else {
        assert(es.take(i) =~= es);
    }
}

/// Share storage is never negative.
proof fn lemma_shares_bytes_nonneg(es: Seq<String>)
    ensures
        shares_bytes(es) >= 0,
    decreases es.len(),
{
    if es.len() > 0 {
        lemma_shares_bytes_nonneg(es.drop_last());
    }
}

/// The rent bytes a share list occupies, computed.
fn shares_total_bytes(es: &Vec<String>) -> (r: u64)
    requires
        shares_bytes(es@) <= u64::MAX,
    ensures
        r == shares_bytes(es@),
{
    let mut total: u64 = 0;
    let mut i: usize = 0;
    while i < es.len()
        invariant
            0 <= i <= es@.len(),
            shares_bytes(es@) <= u64::MAX,
            total == shares_bytes(es@.take(i as int)),
        decreases es@.len() - i,
    {
        proof {
            lemma_shares_bytes_prefix(es@, i + 1);
            assert(es@.take(i + 1).drop_last() =~= es@.take(i as int));
            assert(es@.take(i + 1).last() == es@[i as int]);
        }
        total = total + (es[i].as_str().unicode_len() as u64) + 12;
        i += 1;
    }
    proof {
        assert(es@.take(es@.len() as int) =~= es@);
    }
    total
}

impl Contract {
    /// Replace the accounts holding a shared asset's extra shares.
    ///
    /// Only the owner of a sharable asset may call, replacing the share
    /// list with one of the same length; freed rent is refunded to the
    /// owner, grown rent is charged to the attached deposit.
    pub fn set_accounts(
        &mut self,
        token_id: &String,
        share_accounts: Vec<String>,
        caller: &String,
        attached_deposit: u128,
    ) -> (r: Result<Option<Payment>, ContractError>)
        requires
            old(self).wf(),
            attached_deposit >= SHARE_UPDATE_MIN_DEPOSIT,
            old(self).tokens_by_id@.contains_key(token_id@),
            old(self).tokens_by_id@[token_id@].owner_id == caller@,
            old(self).share_nfts@.contains_key(token_id@),
            old(self).share_nfts@[token_id@].len() == share_accounts@.len(),
            shares_bytes(share_accounts@) <= u64::MAX,
            shares_bytes(old(self).share_nfts@[token_id@]) <= u64::MAX,
        ensures
            final(self).wf(),
            match r {
                Ok(payment) => {
                    &&& final(self).share_nfts@ == old(self).share_nfts@.insert(
                        token_id@,
                        share_accounts@,
                    )
                    &&& final(self).tokens_by_id@ == old(self).tokens_by_id@
                    &&& ({
                        let ob = shares_bytes(old(self).share_nfts@[token_id@]);
                        let nb = shares_bytes(share_accounts@);
                        if ob > nb {
                            payment matches Some(p) && p@.to == caller@ && p@.amount == (ob - nb)
                                * STORAGE_PRICE_PER_BYTE
                        } else if nb > ob {
                            attached_deposit >= (nb - ob) * STORAGE_PRICE_PER_BYTE && (
                            match payment {
                                Some(p) => p@.to == caller@ && p@.amount == attached_deposit - (nb
                                    - ob) * STORAGE_PRICE_PER_BYTE && p@.amount > 1,
                                None => attached_deposit - (nb - ob) * STORAGE_PRICE_PER_BYTE
                                    <= 1,
                            })
                        } else {
                            payment is None
                        }
                    })
                },
                Err(e) => {
                    &&& *final(self) == *old(self)
                    &&& e == ContractError::InsufficientRent
                    &&& attached_deposit < (shares_bytes(share_accounts@) - shares_bytes(
                        old(self).share_nfts@[token_id@],
                    )) * STORAGE_PRICE_PER_BYTE
                },
            },
    {
        let ghost m0 = *old(self);
        let ghost tid = token_id@;
        let old_bytes: u64 = match self.share_nfts.get(token_id) {
            Some(stored) => shares_total_bytes(stored),
            None => {
                proof {
                    assert(false);
                }
                0
            },
        };
        let new_bytes: u64 = shares_total_bytes(&share_accounts);
        let payment: Option<Payment> = if old_bytes > new_bytes {
            Some(
                crate::nft::internal::refund_storage_to_owner(
                    caller.clone(),
                    old_bytes - new_bytes,
                ),
            )
        } else if new_bytes > old_bytes {
            match crate::nft::internal::refund_deposit(
                new_bytes - old_bytes,
                attached_deposit,
                caller,
            ) {
                Ok(p) => p,
                Err(e) => {
                    return Err(e);
                },
            }
        } else {
            None
        };
        self.share_nfts.insert(token_id.clone(), share_accounts);
        proof {
            let m1 = *self;
            assert forall|t: Seq<char>| #[trigger] m1.tokens_by_id@.contains_key(t)
                implies m1.token_entry_ok(t) by {
                assert(m0.token_entry_ok(t));
            }
            assert forall|o: Seq<char>| #[trigger] m1.tokens_per_owner@.contains_key(o)
                implies m1.owner_tokens_ok(o) by {
                assert(m0.owner_tokens_ok(o));
                let ks = m1.tokens_per_owner@[o];
                assert forall|i: int| 0 <= i < ks.len() implies #[trigger] m1.token_owned(
                    ks[i],
                    o,
                ) by {
                    assert(m0.token_owned(ks[i], o));
                }
            }
            assert forall|t: Seq<char>| #[trigger] m1.token_metadata_by_id@.contains_key(t)
                implies m1.tokens_by_id@.contains_key(t) by {
                assert(m0.token_metadata_by_id@.contains_key(t));
            }
        }
        Ok(payment)
    }

    /// Transfer an asset at a caller's request, refunding the previous
    /// owner the rent of the approvals the move cleared.
    pub fn nft_transfer(
        &mut self,
        receiver_id: &String,
        token_id: &String,
        approval_id: u64,
        memo: Option<String>,
        sender_id: &String,
    ) -> (r: Result<(Payment, EventLog), ContractError>)
        requires
            old(self).wf(),
        ensures
            final(self).wf(),
            match r {
                Ok((refund, event)) => {
                    &&& old(self).tokens_by_id@.contains_key(token_id@)
                    &&& ({
                        let prev = old(self).tokens_by_id@[token_id@];
                        &&& (sender_id@ == prev.owner_id || (prev.approved.contains_key(sender_id@)
                            && prev.approved[sender_id@] == approval_id))
                        &&& receiver_id@ != prev.owner_id
                        &&& final(self).tokens_by_id@ == old(self).tokens_by_id@.insert(
                            token_id@,
                            TokenView {
                                owner_id: receiver_id@,
                                approved: Map::empty(),
                                approved_keys: Seq::empty(),
                                next_approval_id: prev.next_approval_id,
                                royalty: prev.royalty,
                                royalty_keys: prev.royalty_keys,
                            },
                        )
                        &&& refund@.to == prev.owner_id
                        &&& refund@.amount == approvals_bytes(prev.approved_keys)
                            * STORAGE_PRICE_PER_BYTE
                        &&& (event.event matches crate::nft::events::EventLogVariant::NftTransfer(
                            logs,
                        ) && logs@.len() == 1 && logs@[0].old_owner_id@ == prev.owner_id
                            && logs@[0].new_owner_id@ == receiver_id@ && (
                        logs@[0].authorized_id matches Some(a) ==> a@ == sender_id@) && (
                        logs@[0].authorized_id is Some <==> sender_id@ != prev.owner_id))
                    })
                },
                Err(e) => {
                    &&& *final(self) == *old(self)
                    &&& if !old(self).tokens_by_id@.contains_key(token_id@) {
                        e == ContractError::NotFound
                    } else if sender_id@ != old(self).tokens_by_id@[token_id@].owner_id && !old(
                        self,
                    ).tokens_by_id@[token_id@].approved.contains_key(sender_id@) {
                        e == ContractError::Unauthorized
                    } else if sender_id@ != old(self).tokens_by_id@[token_id@].owner_id && old(
                        self,
                    ).tokens_by_id@[token_id@].approved[sender_id@] != approval_id {
                        e == ContractError::ApprovalMismatch
                    } else {
                        e == ContractError::SelfTransferRejected && receiver_id@ == old(
                            self,
                        ).tokens_by_id@[token_id@].owner_id
                    }
                },
            },
    {
        let (prev, event) = match self.internal_transfer(
            sender_id,
            receiver_id,
            token_id,
            Some(approval_id),
            memo,
        ) {
            Ok(x) => x,
            Err(e) => {
                return Err(e);
            },
        };
        proof {
            prev.approved_account_ids.lemma_wf_keys();
            assert(token_view_wf(prev@));
        }
        let refund = refund_approved_account_ids(prev.owner_id, &prev.approved_account_ids);
        Ok((refund, event))
    }

    /// Transfer an asset and describe the notification to send to the
    /// receiving contract, with the context the resolution callback needs.
    pub fn nft_transfer_call(
        &mut self,
        receiver_id: &String,
        token_id: &String,
        approval_id: u64,
        memo: Option<String>,
        msg: String,
        sender_id: &String,
    ) -> (r: Result<(TransferCallRequest, EventLog), ContractError>)
        requires
            old(self).wf(),
        ensures
            final(self).wf(),
            match r {
                Ok((req, event)) => {
                    &&& old(self).tokens_by_id@.contains_key(token_id@)
                    &&& ({
                        let prev = old(self).tokens_by_id@[token_id@];
                        &&& receiver_id@ != prev.owner_id
                        &&& final(self).tokens_by_id@ == old(self).tokens_by_id@.insert(
                            token_id@,
                            TokenView {
                                owner_id: receiver_id@,
                                approved: Map::empty(),
                                approved_keys: Seq::empty(),
                                next_approval_id: prev.next_approval_id,
                                royalty: prev.royalty,
                                royalty_keys: prev.royalty_keys,
                            },
                        )
                        &&& req.sender_id@ == sender_id@
                        &&& req.receiver_id@ == receiver_id@
                        &&& req.token_id@ == token_id@
                        &&& req.previous_owner_id@ == prev.owner_id
                        &&& req.approved_account_ids@ == prev.approved
                        &&& req.approved_account_ids.key_seq() == prev.approved_keys
                        &&& req.memo == memo
                        &&& (req.authorized_id matches Some(a) ==> a@ == sender_id@)
                        &&& (req.authorized_id is Some <==> sender_id@ != prev.owner_id)
                    })
                },
                Err(e) => {
                    &&& *final(self) == *old(self)
                    &&& if !old(self).tokens_by_id@.contains_key(token_id@) {
                        e == ContractError::NotFound
                    } else if sender_id@ != old(self).tokens_by_id@[token_id@].owner_id && !old(
                        self,
                    ).tokens_by_id@[token_id@].approved.contains_key(sender_id@) {
                        e == ContractError::Unauthorized
                    } else if sender_id@ != old(self).tokens_by_id@[token_id@].owner_id && old(
                        self,
                    ).tokens_by_id@[token_id@].approved[sender_id@] != approval_id {
                        e == ContractError::ApprovalMismatch
                    } else {
                        e == ContractError::SelfTransferRejected && receiver_id@ == old(
                            self,
                        ).tokens_by_id@[token_id@].owner_id
                    }
                },
            },
    {
        let (prev, event) = match self.internal_transfer(
            sender_id,
            receiver_id,
            token_id,
            Some(approval_id),
            memo.clone(),
        ) {
            Ok(x) => x,
            Err(e) => {
                return Err(e);
            },
        };
        let authorized_id: Option<String> = if !sender_id.eq(&prev.owner_id) {
            Some(sender_id.clone())
        } else {
            None
        };
        let req = TransferCallRequest {
            sender_id: sender_id.clone(),
            receiver_id: receiver_id.clone(),
            token_id: token_id.clone(),
            msg,
            authorized_id,
            previous_owner_id: prev.owner_id,
            approved_account_ids: prev.approved_account_ids,
            memo,
        };
        Ok((req, event))
    }

    /// Resolve a transfer-and-call from the receiver's response.
    ///
    /// Returns whether the asset stays with the receiver, the rent refund
    /// to perform, and the transfer event of a revert, if one happened.
    /// The asset goes back to its previous owner — in a fresh approval
    /// epoch — exactly when the receiver asked for its return (or the call
    /// failed or answered garbage) while still holding it.  A revert's event
    /// names the delegate that authorized the original move, as the
    /// transfer-and-call request carried it.
    pub fn nft_resolve_transfer(
        &mut self,
        authorized_id: Option<String>,
        owner_id: &String,
        receiver_id: &String,
        token_id: &String,
        approved_account_ids: StrMap<u64>,
        memo: Option<String>,
        receiver_response: Option<&String>,
    ) -> (r: (bool, Option<Payment>, Option<EventLog>))
        requires
            old(self).wf(),
            approved_account_ids.wf(),
            approvals_bytes(approved_account_ids.key_seq()) <= u64::MAX,
        ensures
            final(self).wf(),
            ({
                let keep = match receiver_response {
                    Some(s) => s@ == bool_text(false),
                    None => false,
                };
                let revertable = old(self).tokens_by_id@.contains_key(token_id@) && old(
                    self,
                ).tokens_by_id@[token_id@].owner_id == receiver_id@ && owner_id@ != receiver_id@;
                if keep || !revertable {
                    &&& r.0 == true
                    &&& *final(self) == *old(self)
                    &&& r.2 is None
                    &&& (r.1 matches Some(p) && p@.to == owner_id@ && p@.amount == approvals_bytes(
                        approved_account_ids.key_seq(),
                    ) * STORAGE_PRICE_PER_BYTE)
                } else {
                    &&& r.0 == false
                    &&& ({
                        let prev = old(self).tokens_by_id@[token_id@];
                        &&& final(self).tokens_by_id@ == old(self).tokens_by_id@.insert(
                            token_id@,
                            TokenView {
                                owner_id: owner_id@,
                                approved: Map::empty(),
                                approved_keys: Seq::empty(),
                                next_approval_id: prev.next_approval_id,
                                royalty: prev.royalty,
                                royalty_keys: prev.royalty_keys,
                            },
                        )
                        &&& (r.1 matches Some(p) && p@.to == receiver_id@ && p@.amount
                            == approvals_bytes(prev.approved_keys) * STORAGE_PRICE_PER_BYTE)
                        &&& (r.2 matches Some(event) && (
                        event.event matches crate::nft::events::EventLogVariant::NftTransfer(logs)
                            && logs@.len() == 1 && logs@[0].old_owner_id@ == receiver_id@
                            && logs@[0].new_owner_id@ == owner_id@ && logs@[0].authorized_id
                            == authorized_id && logs@[0].memo == memo))
                    })
                }
            }),
    {
        proof {
            reveal_strlit("true");
            reveal_strlit("false");
            assert("true"@.len() == 4);
            assert("false"@.len() == 5);
            assert(bool_text(true) != bool_text(false));
        }
        let keep = match receiver_response {
            Some(s) => {
                match parse_bool(s.as_str()) {
                    Some(false) => true,
                    _ => false,
                }
            },
            None => false,
        };
        let revertable = if keep {
            false
        } else {
            match self.tokens_by_id.get(token_id) {
                None => false,
                Some(tok) => tok.owner_id.eq(receiver_id) && !owner_id.eq(receiver_id),
            }
        };
        if keep || !revertable {
            // nothing to revert: the receiver keeps it, it moved on, or it
            // was burned; either way the cleared approvals' rent goes home
            let refund = refund_approved_account_ids(owner_id.clone(), &approved_account_ids);
            return (true, Some(refund), None);
        }
        // the receiver asked for (or forced) a return: move the asset back
        let (prev, moved) = match self.internal_transfer(
            receiver_id,
            owner_id,
            token_id,
            None,
            memo,
        ) {
            Ok(x) => x,
            Err(_) => {
                proof {
                    assert(false);
                }
                return (true, None, None);
            },
        };
        proof {
            prev.approved_account_ids.lemma_wf_keys();
            assert(token_view_wf(prev@));
        }
        let refund = refund_approved_account_ids(
            receiver_id.clone(),
            &prev.approved_account_ids,
        );
        // stamp the revert's log with the delegate the request named
        let EventLog { standard, version, event: moved_event } = moved;
        let event = match moved_event {
            crate::nft::events::EventLogVariant::NftTransfer(mut logs) => {
                let log = match logs.pop() {
                    Some(mut log) => {
                        log.authorized_id = authorized_id;
                        log
                    },
                    None => {
                        proof {
                            assert(false);
                        }
                        return (true, None, None);
                    },
                };
                EventLog {
                    standard,
                    version,
                    event: crate::nft::events::EventLogVariant::NftTransfer(vec![log]),
                }
            },
            _ => {
                proof {
                    assert(false);
                }
                return (true, None, None);
            },
        };
        (false, Some(refund), Some(event))
    }

    /// The full record of one asset, or `None` when it does not exist.
    pub fn nft_token(&self, token_id: &String) -> (r: Option<JsonToken>)
        requires
            self.wf(),
        ensures
            match r {
                Some(j) => {
                    &&& self.tokens_by_id@.contains_key(token_id@)
                    &&& ({
                        let tok = self.tokens_by_id@[token_id@];
                        &&& j.token_id@ == token_id@
                        &&& j.owner_id@ == tok.owner_id
                        &&& j.approved_account_ids@ == tok.approved
                        &&& j.royalty@ == tok.royalty
                        &&& j.metadata == self.token_metadata_by_id@[token_id@]
                        &&& j.ticket_used@ == self.ticket_used@[token_id@]
                        &&& (self.ticket_used@[token_id@].len() > 1 ==> j.shared_owners@.len()
                            == self.share_nfts@[token_id@].len() && forall|i: int|
                            0 <= i < j.shared_owners@.len() ==> (#[trigger] j.shared_owners@[i])@
                                == self.share_nfts@[token_id@][i]@)
                        &&& (self.ticket_used@[token_id@].len() <= 1 ==> j.shared_owners@.len()
                            == 0)
                    })
                },
                None => !self.tokens_by_id@.contains_key(token_id@),
            },
    {
        let token = match self.tokens_by_id.get(token_id) {
            None => {
                return None;
            },
            Some(t) => t,
        };
        proof {
            assert(self.token_entry_ok(token_id@));
            token.approved_account_ids.lemma_wf_keys();
            token.royalty.lemma_wf_keys();
        }
        let metadata = match self.token_metadata_by_id.get(token_id) {
            Some(m) => m.duplicate(),
            None => {
                proof {
                    assert(false);
                }
                return None;
            },
        };
        let tickets_stored = match self.ticket_used.get(token_id) {
            Some(t) => t,
            None => {
                proof {
                    assert(false);
                }
                return None;
            },
        };
        let mut ticket_used: Vec<bool> = Vec::new();
        let mut i: usize = 0;
        while i < tickets_stored.len()
            invariant
                0 <= i <= tickets_stored@.len(),
                ticket_used@.len() == i,
                forall|j: int| 0 <= j < i ==> ticket_used@[j] == tickets_stored@[j],
            decreases tickets_stored@.len() - i,
        {
            ticket_used.push(tickets_stored[i]);
            i += 1;
        }
        proof {
            assert(ticket_used@ =~= tickets_stored@);
        }
        let mut shared_owners: Vec<String> = Vec::new();
        if ticket_used.len() > 1 {
            let shares = match self.share_nfts.get(token_id) {
                Some(s) => s,
                None => {
                    proof {
                        assert(false);
                    }
                    return None;
                },
            };
            let mut k: usize = 0;
            while k < shares.len()
                invariant
                    0 <= k <= shares@.len(),
                    shared_owners@.len() == k,
                    forall|j: int|
                        0 <= j < k ==> (#[trigger] shared_owners@[j])@ == shares@[j]@,
                decreases shares@.len() - k,
            {
                shared_owners.push(shares[k].clone());
                k += 1;
            }
        }
        Some(
            JsonToken {
                owner_id: token.owner_id.clone(),
                shared_owners,
                ticket_used,
                token_id: token_id.clone(),
                metadata,
                approved_account_ids: token.approved_account_ids.duplicate(),
                royalty: token.royalty.duplicate(),
            },
        )
    }
}

} // verus!
