//! Approval grants: authorizing third parties to transfer an asset.

use vstd::prelude::*;
use crate::effects::Payment;
use crate::effects::STORAGE_PRICE_PER_BYTE;
use crate::errors::ContractError;
use crate::nft::internal::bytes_for_approved_account_id;
use crate::nft::internal::lemma_approvals_bytes_push;
use crate::nft::internal::lemma_approvals_bytes_removed;
use crate::nft::internal::refund_approved_account_ids;
use crate::nft::internal::refund_deposit;
use crate::nft::metadata::approvals_bytes;
use crate::nft::metadata::token_view_wf;
use crate::nft::metadata::TokenView;
use crate::nft::Contract;
use crate::strkv::StrMap;

verus! {

/// The cross-contract notification an approval with a message schedules:
/// the grantee is told it may now act on the asset.
pub struct ApprovalNotification {
    /// The grantee: the contract account to notify.
    pub account_id: String,
    /// The approved asset.
    pub token_id: String,
    /// The asset's owner.
    pub owner_id: String,
    /// The granted approval sequence number.
    pub approval_id: u64,
    /// The opaque message the caller attached.
    pub msg: String,
}

/// Whether an account holds a live approval on an asset record, optionally
/// enforcing an exact sequence number.
pub open spec fn is_approved_spec(tok: TokenView, acct: Seq<char>, enforced: Option<u64>) -> bool {
    tok.approved.contains_key(acct) && match enforced {
        Some(e) => tok.approved[acct] == e,
        None => true,
    }
}

/// Law: every transfer starts a fresh approval epoch.  Once an asset's
/// approvals are cleared — as `internal_transfer` ensures — no account
/// holds a live approval on it, whatever sequence number it remembers.
pub proof fn lemma_transfer_clears_approvals(post: Contract, token_id: Seq<char>)
    requires
        post.tokens_by_id@.contains_key(token_id),
        post.tokens_by_id@[token_id].approved == Map::<Seq<char>, u64>::empty(),
    ensures
        forall|acct: Seq<char>, enforced: Option<u64>|
            !#[trigger] is_approved_spec(post.tokens_by_id@[token_id], acct, enforced),
{
}

impl Contract {
    /// Grant an account the right to transfer an asset on the owner's
    /// behalf.
    ///
    /// Only the owner may call; the grant receives a fresh sequence number
    /// (re-approving an account re-numbers its grant), the attached deposit
    /// must cover the marginal storage the grant consumes, and any excess
    /// beyond one unit is refunded.  When a message is attached, the
    /// returned notification is to be delivered to the grantee.
    pub fn nft_approve(
        &mut self,
        token_id: &String,
        account_id: String,
        msg: Option<String>,
        caller: &String,
        attached_deposit: u128,
    ) -> (r: Result<(Option<Payment>, Option<ApprovalNotification>), ContractError>)
        requires
            old(self).wf(),
            account_id@.len() + 12 <= u64::MAX,
            old(self).tokens_by_id@.contains_key(token_id@) ==> approvals_bytes(
                old(self).tokens_by_id@[token_id@].approved_keys,
            ) + account_id@.len() + 12 <= u64::MAX,
            old(self).tokens_by_id@.contains_key(token_id@) ==> old(self).tokens_by_id@[token_id@].next_approval_id < u64::MAX,
        ensures
            final(self).wf(),
            match r {
                Ok((refund, notification)) => {
                    &&& attached_deposit >= 1
                    &&& old(self).tokens_by_id@.contains_key(token_id@)
                    &&& ({
                        let tok = old(self).tokens_by_id@[token_id@];
                        let granted = tok.next_approval_id;
                        let bytes: int = if tok.approved.contains_key(account_id@) {
                            0int
                        } else {
                            account_id@.len() + 12int
                        };
                        &&& caller@ == tok.owner_id
                        &&& attached_deposit >= bytes * STORAGE_PRICE_PER_BYTE
                        &&& final(self).tokens_by_id@.contains_key(token_id@)
                        &&& ({
                            let nt = final(self).tokens_by_id@[token_id@];
                            nt.owner_id == tok.owner_id && nt.approved == tok.approved.insert(
                                account_id@,
                                granted,
                            ) && nt.next_approval_id == granted + 1 && nt.royalty == tok.royalty
                                && nt.royalty_keys == tok.royalty_keys
                        })
                        &&& forall|t: Seq<char>|
                            t != token_id@ ==> final(self).tokens_by_id@.contains_key(t) == old(self).tokens_by_id@.contains_key(t) && (old(self).tokens_by_id@.contains_key(t) ==> final(self).tokens_by_id@[t]
                                == old(self).tokens_by_id@[t])
                        &&& match refund {
                            Some(p) => p@.to == caller@ && p@.amount == attached_deposit - bytes
                                * STORAGE_PRICE_PER_BYTE && p@.amount > 1,
                            None => attached_deposit - bytes * STORAGE_PRICE_PER_BYTE <= 1,
                        }
                        &&& match (msg, notification) {
                            (Some(m), Some(n)) => n.account_id@ == account_id@ && n.token_id@
                                == token_id@ && n.owner_id@ == tok.owner_id && n.approval_id
                                == granted && n.msg == m,
                            (None, None) => true,
                            _ => false,
                        }
                    })
                },
                Err(e) => {
                    &&& *final(self) == *old(self)
                    &&& if attached_deposit < 1 {
                        e == ContractError::InsufficientRent
                    } else if !old(self).tokens_by_id@.contains_key(token_id@) {
                        e == ContractError::NotFound
                    } else if caller@ != old(self).tokens_by_id@[token_id@].owner_id {
                        e == ContractError::Unauthorized
                    } else {
                        e == ContractError::InsufficientRent && attached_deposit < (if old(self).tokens_by_id@[token_id@].approved.contains_key(account_id@) {
                            0int
                        } else {
                            account_id@.len() + 12int
                        }) * STORAGE_PRICE_PER_BYTE
                    }
                },
            },
    {
        if attached_deposit < 1 {
            return Err(ContractError::InsufficientRent);
        }
        let ghost m0 = *old(self);
        let ghost tid = token_id@;
        // validate and size the grant before touching any state
        let (is_new, granted, storage_used) = match self.tokens_by_id.get(token_id) {
            None => {
                return Err(ContractError::NotFound);
            },
            Some(tok) => {
                proof {
                    assert(m0.token_entry_ok(tid));
                    tok.approved_account_ids.lemma_wf_keys();
                    tok.approved_account_ids.lemma_contains_key_seq();
                }
                if !tok.owner_id.eq(caller) {
                    return Err(ContractError::Unauthorized);
                }
                let is_new = !tok.approved_account_ids.contains_key(&account_id);
                let used: u64 = if is_new {
                    bytes_for_approved_account_id(&account_id)
                } else {
                    0
                };
                (is_new, tok.next_approval_id, used)
            },
        };
        let refund = match refund_deposit(storage_used, attached_deposit, caller) {
            Ok(p) => p,
            Err(e) => {
                return Err(e);
            },
        };
        let mut tok = match self.tokens_by_id.remove(token_id) {
            Some(t) => t,
            None => {
                proof {
                    assert(false);
                }
                return Err(ContractError::NotFound);
            },
        };
        let ghost tv = tok@;
        proof {
            assert(m0.token_entry_ok(tid));
            assert(token_view_wf(tv));
            tok.approved_account_ids.lemma_wf_keys();
            tok.approved_account_ids.lemma_contains_key_seq();
            if is_new {
                lemma_approvals_bytes_push(tv.approved_keys, account_id@);
            }
        }
        let owner_for_notification = if msg.is_some() {
            Some(tok.owner_id.clone())
        } else {
            None
        };
        tok.approved_account_ids.insert(account_id.clone(), granted);
        tok.next_approval_id = granted + 1;
        let ghost nv = tok@;
        self.tokens_by_id.insert(token_id.clone(), tok);
        let notification = match (msg, owner_for_notification) {
            (Some(m), Some(owner)) => Some(
                ApprovalNotification {
                    account_id,
                    token_id: token_id.clone(),
                    owner_id: owner,
                    approval_id: granted,
                    msg: m,
                },
            ),
            _ => None,
        };
        proof {
            let m1 = *self;
            assert(m1.tokens_by_id@ =~= m0.tokens_by_id@.insert(tid, nv));
            assert(token_view_wf(nv)) by {
                assert(token_view_wf(tv));
                assert(forall|k: Seq<char>| #[trigger] nv.approved.contains_key(k) ==> (k
                    == account_id@ || tv.approved.contains_key(k)));
            }
            assert forall|t: Seq<char>| #[trigger] m1.tokens_by_id@.contains_key(t)
                implies m1.token_entry_ok(t) by {
                if t == tid {
                    assert(m0.token_entry_ok(tid));
                    assert(nv.owner_id == tv.owner_id);
                } else {
                    assert(m0.token_entry_ok(t));
                }
            }
            assert forall|o: Seq<char>| #[trigger] m1.tokens_per_owner@.contains_key(o)
                implies m1.owner_tokens_ok(o) by {
                assert(m0.owner_tokens_ok(o));
                let ks = m1.tokens_per_owner@[o];
                assert forall|i: int| 0 <= i < ks.len() implies #[trigger] m1.token_owned(
                    ks[i],
                    o,
                ) by {
                    assert(m0.token_owned(ks[i], o));
                    if ks[i] == tid {
                        assert(nv.owner_id == tv.owner_id);
                    }
                }
            }
            assert forall|t: Seq<char>| #[trigger] m1.token_metadata_by_id@.contains_key(t)
                implies m1.tokens_by_id@.contains_key(t) by {
                assert(m0.token_metadata_by_id@.contains_key(t));
            }
        }
        Ok((refund, notification))
    }

    /// Whether an account may act on an asset; with a sequence number
    /// supplied, only an exact match counts.
    pub fn nft_is_approved(
        &self,
        token_id: &String,
        approved_account_id: &String,
        approval_id: Option<u64>,
    ) -> (r: Result<bool, ContractError>)
        requires
            self.wf(),
        ensures
            match r {
                Ok(b) => self.tokens_by_id@.contains_key(token_id@) && b == is_approved_spec(
                    self.tokens_by_id@[token_id@],
                    approved_account_id@,
                    approval_id,
                ),
                Err(e) => e == ContractError::NotFound && !self.tokens_by_id@.contains_key(
                    token_id@,
                ),
            },
    {
        let token = match self.tokens_by_id.get(token_id) {
            None => {
                return Err(ContractError::NotFound);
            },
            Some(t) => t,
        };
        proof {
            assert(self.token_entry_ok(token_id@));
            token.approved_account_ids.lemma_wf_keys();
        }
        match token.approved_account_ids.get(approved_account_id) {
            None => Ok(false),
            Some(actual) => match approval_id {
                Some(enforced) => Ok(*actual == enforced),
                None => Ok(true),
            },
        }
    }

    /// Withdraw one account's approval on an asset, refunding the rent its
    /// grant occupied.  A revocation of an account that holds no grant
    /// touches nothing and refunds nothing.
    pub fn nft_revoke(&mut self, token_id: &String, account_id: &String, caller: &String) -> (r:
        Result<Option<Payment>, ContractError>)
        requires
            old(self).wf(),
        ensures
            final(self).wf(),
            match r {
                Ok(refund) => {
                    &&& old(self).tokens_by_id@.contains_key(token_id@)
                    &&& ({
                        let tok = old(self).tokens_by_id@[token_id@];
                        &&& caller@ == tok.owner_id
                        &&& match refund {
                            Some(p) => {
                                &&& tok.approved.contains_key(account_id@)
                                &&& p@.to == caller@
                                &&& p@.amount == (account_id@.len() + 12)
                                    * STORAGE_PRICE_PER_BYTE
                                &&& final(self).tokens_by_id@.contains_key(token_id@)
                                &&& ({
                                    let nt = final(self).tokens_by_id@[token_id@];
                                    &&& nt.owner_id == tok.owner_id
                                    &&& nt.approved == tok.approved.remove(account_id@)
                                    &&& nt.next_approval_id == tok.next_approval_id
                                    &&& nt.royalty == tok.royalty
                                    &&& nt.royalty_keys == tok.royalty_keys
                                    &&& exists|i: int|
                                        0 <= i < tok.approved_keys.len() && tok.approved_keys[i]
                                            == account_id@ && nt.approved_keys
                                            == tok.approved_keys.remove(i)
                                })
                                &&& forall|t: Seq<char>|
                                    t != token_id@ ==> final(self).tokens_by_id@.contains_key(t)
                                        == old(self).tokens_by_id@.contains_key(t) && (old(self).tokens_by_id@.contains_key(t) ==> final(self).tokens_by_id@[t] == old(self).tokens_by_id@[t])
                            },
                            None => !tok.approved.contains_key(account_id@) && *final(self)
                                == *old(self),
                        }
                    })
                },
                Err(e) => {
                    &&& *final(self) == *old(self)
                    &&& if !old(self).tokens_by_id@.contains_key(token_id@) {
                        e == ContractError::NotFound
                    } else {
                        e == ContractError::Unauthorized && caller@ != old(self).tokens_by_id@[token_id@].owner_id
                    }
                },
            },
    {
        let ghost m0 = *old(self);
        let ghost tid = token_id@;
        match self.tokens_by_id.get(token_id) {
            None => {
                return Err(ContractError::NotFound);
            },
            Some(tok) => {
                if !tok.owner_id.eq(caller) {
                    return Err(ContractError::Unauthorized);
                }
                proof {
                    assert(m0.token_entry_ok(tid));
                    tok.approved_account_ids.lemma_wf_keys();
                }
                // no grant: nothing to revoke, and the store stays untouched
                if !tok.approved_account_ids.contains_key(account_id) {
                    return Ok(None);
                }
            },
        };
        let mut tok = match self.tokens_by_id.remove(token_id) {
            Some(t) => t,
            None => {
                proof {
                    assert(false);
                }
                return Err(ContractError::NotFound);
            },
        };
        let ghost tv = tok@;
        proof {
            assert(m0.token_entry_ok(tid));
            assert(token_view_wf(tv));
            tok.approved_account_ids.lemma_wf_keys();
        }
        let removed = tok.approved_account_ids.remove(account_id);
        let ghost nv = tok@;
        proof {
            tok.approved_account_ids.lemma_wf_keys();
            let i = choose|i: int|
                0 <= i < tv.approved_keys.len() && tv.approved_keys[i] == account_id@
                    && nv.approved_keys == tv.approved_keys.remove(i);
            lemma_approvals_bytes_removed(tv.approved_keys, i);
            crate::nft::internal::lemma_approvals_bytes_nonneg(nv.approved_keys);
            assert(account_id@.len() + 12 <= u64::MAX);
        }
        let refund = match removed {
            Some(_) => Some(refund_storage_amount(caller.clone(), account_id)),
            None => {
                proof {
                    assert(false);
                }
                None
            },
        };
        self.tokens_by_id.insert(token_id.clone(), tok);
        proof {
            let m1 = *self;
            assert(m1.tokens_by_id@ =~= m0.tokens_by_id@.insert(tid, nv));
            assert(token_view_wf(nv)) by {
                assert(token_view_wf(tv));
                assert(forall|k: Seq<char>| #[trigger] nv.approved.contains_key(k)
                    ==> tv.approved.contains_key(k));
                if !tv.approved.contains_key(account_id@) {
                    assert(nv.approved_keys == tv.approved_keys);
                }
            }
            assert forall|t: Seq<char>| #[trigger] m1.tokens_by_id@.contains_key(t)
                implies m1.token_entry_ok(t) by {
                if t == tid {
                    assert(m0.token_entry_ok(tid));
                    assert(nv.owner_id == tv.owner_id);
                } else {
                    assert(m0.token_entry_ok(t));
                }
            }
            assert forall|o: Seq<char>| #[trigger] m1.tokens_per_owner@.contains_key(o)
                implies m1.owner_tokens_ok(o) by {
                assert(m0.owner_tokens_ok(o));
                let ks = m1.tokens_per_owner@[o];
                assert forall|i: int| 0 <= i < ks.len() implies #[trigger] m1.token_owned(
                    ks[i],
                    o,
                ) by {
                    assert(m0.token_owned(ks[i], o));
                    if ks[i] == tid {
                        assert(nv.owner_id == tv.owner_id);
                    }
                }
            }
            assert forall|t: Seq<char>| #[trigger] m1.token_metadata_by_id@.contains_key(t)
                implies m1.tokens_by_id@.contains_key(t) by {
                assert(m0.token_metadata_by_id@.contains_key(t));
            }
        }
        Ok(refund)
    }

    /// Withdraw every approval on an asset, refunding all the rent the
    /// grants occupied.  Does nothing when no account is approved.
    pub fn nft_revoke_all(&mut self, token_id: &String, caller: &String) -> (r: Result<
        Option<Payment>,
        ContractError,
    >)
        requires
            old(self).wf(),
        ensures
            final(self).wf(),
            match r {
                Ok(refund) => {
                    &&& old(self).tokens_by_id@.contains_key(token_id@)
                    &&& ({
                        let tok = old(self).tokens_by_id@[token_id@];
                        &&& caller@ == tok.owner_id
                        &&& final(self).tokens_by_id@.contains_key(token_id@)
                        &&& ({
                            let nt = final(self).tokens_by_id@[token_id@];
                            nt.owner_id == tok.owner_id && nt.approved == Map::<
                                Seq<char>,
                                u64,
                            >::empty() && nt.next_approval_id == tok.next_approval_id
                                && nt.royalty == tok.royalty && nt.royalty_keys
                                == tok.royalty_keys
                        })
                        &&& forall|t: Seq<char>|
                            t != token_id@ ==> final(self).tokens_by_id@.contains_key(t) == old(self).tokens_by_id@.contains_key(t) && (old(self).tokens_by_id@.contains_key(t) ==> final(self).tokens_by_id@[t]
                                == old(self).tokens_by_id@[t])
                        &&& match refund {
                            Some(p) => tok.approved_keys.len() > 0 && p@.to == caller@
                                && p@.amount == approvals_bytes(tok.approved_keys)
                                * STORAGE_PRICE_PER_BYTE,
                            None => tok.approved_keys.len() == 0,
                        }
                    })
                },
                Err(e) => {
                    &&& *final(self) == *old(self)
                    &&& if !old(self).tokens_by_id@.contains_key(token_id@) {
                        e == ContractError::NotFound
                    } else {
                        e == ContractError::Unauthorized && caller@ != old(self).tokens_by_id@[token_id@].owner_id
                    }
                },
            },
    {
        let ghost m0 = *old(self);
        let ghost tid = token_id@;
        match self.tokens_by_id.get(token_id) {
            None => {
                return Err(ContractError::NotFound);
            },
            Some(tok) => {
                if !tok.owner_id.eq(caller) {
                    return Err(ContractError::Unauthorized);
                }
            },
        };
        let mut tok = match self.tokens_by_id.remove(token_id) {
            Some(t) => t,
            None => {
                proof {
                    assert(false);
                }
                return Err(ContractError::NotFound);
            },
        };
        let ghost tv = tok@;
        proof {
            assert(m0.token_entry_ok(tid));
            assert(token_view_wf(tv));
            tok.approved_account_ids.lemma_wf_keys();
        }
        let refund = if tok.approved_account_ids.len() > 0 {
            let p = refund_approved_account_ids(caller.clone(), &tok.approved_account_ids);
            tok.approved_account_ids = StrMap::new();
            Some(p)
        } else {
            None
        };
        let ghost nv = tok@;
        self.tokens_by_id.insert(token_id.clone(), tok);
        proof {
            let m1 = *self;
            assert(m1.tokens_by_id@ =~= m0.tokens_by_id@.insert(tid, nv));
            assert(token_view_wf(nv)) by {
                assert(token_view_wf(tv));
                if tv.approved_keys.len() == 0 {
                    assert(nv == tv);
                }
            }
            assert forall|t: Seq<char>| #[trigger] m1.tokens_by_id@.contains_key(t)
                implies m1.token_entry_ok(t) by {
                if t == tid {
                    assert(m0.token_entry_ok(tid));
                    assert(nv.owner_id == tv.owner_id);
                } else {
                    assert(m0.token_entry_ok(t));
                }
            }
            assert forall|o: Seq<char>| #[trigger] m1.tokens_per_owner@.contains_key(o)
                implies m1.owner_tokens_ok(o) by {
                assert(m0.owner_tokens_ok(o));
                let ks = m1.tokens_per_owner@[o];
                assert forall|i: int| 0 <= i < ks.len() implies #[trigger] m1.token_owned(
                    ks[i],
                    o,
                ) by {
                    assert(m0.token_owned(ks[i], o));
                    if ks[i] == tid {
                        assert(nv.owner_id == tv.owner_id);
                    }
                }
            }
            assert forall|t: Seq<char>| #[trigger] m1.token_metadata_by_id@.contains_key(t)
                implies m1.tokens_by_id@.contains_key(t) by {
                assert(m0.token_metadata_by_id@.contains_key(t));
            }
        }
        Ok(refund)
    }
}

/// The payment refunding the rent one released approval occupied.
fn refund_storage_amount(to: String, account_id: &String) -> (r: Payment)
    requires
        account_id@.len() + 12 <= u64::MAX,
    ensures
        r@.to == to@,
        r@.amount == (account_id@.len() + 12) * STORAGE_PRICE_PER_BYTE,
{
    let bytes = bytes_for_approved_account_id(account_id);
    crate::nft::internal::refund_storage_to_owner(to, bytes)
}

} // verus!
