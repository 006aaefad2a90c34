//! Rent arithmetic and the internal ownership moves behind every transfer.

use vstd::prelude::*;
use vstd::string::StrSliceExecFns;
use vstd::string::StringExecFns;
use crate::effects::Payment;
use crate::effects::STORAGE_PRICE_PER_BYTE;
use crate::errors::ContractError;
use crate::nft::events::EventLog;
use crate::nft::events::EventLogVariant;
use crate::nft::events::NftTransferLog;
use crate::nft::metadata::approvals_bytes;
use crate::nft::metadata::Token;
use crate::nft::metadata::TokenView;
use crate::nft::Contract;
use crate::strkv::distinct_seqs;
use crate::strkv::StrMap;
use crate::strkv::StrSet;

verus! {

/// No prefix of an approval list occupies more bytes than the whole.
pub proof fn lemma_approvals_bytes_prefix(keys: Seq<Seq<char>>, i: int)
    requires
        0 <= i <= keys.len(),
    ensures
        0 <= approvals_bytes(keys.take(i)),
        approvals_bytes(keys.take(i)) <= approvals_bytes(keys),
    decreases keys.len() - i,
{
    lemma_approvals_bytes_nonneg(keys.take(i));
    if i < keys.len() {
        lemma_approvals_bytes_prefix(keys, i + 1);
        assert(keys.take(i + 1).drop_last() =~= keys.take(i));
        assert(keys.take(i + 1).last() == keys[i]);
    } else {
        assert(keys.take(i) =~= keys);
    }
}

/// Removing one key releases exactly its bytes.
pub proof fn lemma_approvals_bytes_removed(keys: Seq<Seq<char>>, i: int)
    requires
        0 <= i < keys.len(),
    ensures
        approvals_bytes(keys.remove(i)) == approvals_bytes(keys) - keys[i].len() - 12,
    decreases keys.len(),
{
    if i == keys.len() - 1 {
        assert(keys.remove(i) =~= keys.drop_last());
    } else {
        lemma_approvals_bytes_removed(keys.drop_last(), i);
        assert(keys.remove(i).drop_last() =~= keys.drop_last().remove(i));
        assert(keys.remove(i).last() == keys.last());
        assert(keys.drop_last()[i] == keys[i]);
    }
}

/// Appending one key adds exactly its bytes.
pub proof fn lemma_approvals_bytes_push(keys: Seq<Seq<char>>, k: Seq<char>)
    ensures
        approvals_bytes(keys.push(k)) == approvals_bytes(keys) + k.len() + 12,
{
    assert(keys.push(k).drop_last() =~= keys);
    assert(keys.push(k).last() == k);
}

/// Approval storage is never negative.
pub proof fn lemma_approvals_bytes_nonneg(keys: Seq<Seq<char>>)
    ensures
        approvals_bytes(keys) >= 0,
    decreases keys.len(),
{
    if keys.len() > 0 {
        lemma_approvals_bytes_nonneg(keys.drop_last());
    }
}

/// How many prepaid-rent bytes one approved account occupies: its
/// characters plus a fixed overhead for the grant record.
pub fn bytes_for_approved_account_id(account_id: &String) -> (r: u64)
    requires
        account_id@.len() + 12 <= u64::MAX,
    ensures
        r == account_id@.len() + 12,
{
    account_id.as_str().unicode_len() as u64 + 12
}

/// The prepaid-rent bytes a whole approval table occupies.
pub fn approvals_total_bytes(approved: &StrMap<u64>) -> (r: u64)
    requires
        approved.wf(),
        approvals_bytes(approved.key_seq()) <= u64::MAX,
    ensures
        r == approvals_bytes(approved.key_seq()),
{
    let ghost keys = approved.key_seq();
    let n = approved.len();
    let mut total: u64 = 0;
    let mut i: usize = 0;
    while i < n
        invariant
            approved.wf(),
            keys == approved.key_seq(),
            n == keys.len(),
            0 <= i <= n,
            approvals_bytes(keys) <= u64::MAX,
            total == approvals_bytes(keys.take(i as int)),
        decreases n - i,
    {
        let (key, _) = approved.entry_at(i);
        proof {
            lemma_approvals_bytes_prefix(keys, i + 1);
            assert(keys.take(i + 1).drop_last() =~= keys.take(i as int));
            assert(keys.take(i + 1).last() == keys[i as int]);
        }
        total = total + (key.as_str().unicode_len() as u64) + 12;
        i += 1;
    }
    proof {
        assert(keys.take(n as int) =~= keys);
    }
    total
}

/// The payment refunding the rent an approval table's storage occupied.
///
/// The rent freed by a released approval goes back to the account passed in.
pub fn refund_approved_account_ids(account_id: String, approved: &StrMap<u64>) -> (r: Payment)
    requires
        approved.wf(),
        approvals_bytes(approved.key_seq()) <= u64::MAX,
    ensures
        r@.to == account_id@,
        r@.amount == approvals_bytes(approved.key_seq()) * STORAGE_PRICE_PER_BYTE,
{
    let released = approvals_total_bytes(approved);
    refund_storage_to_owner(account_id, released)
}

/// The payment refunding a number of freed storage bytes.
pub fn refund_storage_to_owner(owner_id: String, storage_released: u64) -> (r: Payment)
    ensures
        r@.to == owner_id@,
        r@.amount == storage_released * STORAGE_PRICE_PER_BYTE,
{
    proof {
        assert((storage_released as u128) * STORAGE_PRICE_PER_BYTE <= u128::MAX)
            by (nonlinear_arith)
            requires
                storage_released <= u64::MAX,
        ;
    }
    let amount = (storage_released as u128) * STORAGE_PRICE_PER_BYTE;
    Payment { to: owner_id, amount }
}

/// Charge an attached deposit for the storage an operation grew.
///
/// Fails with `InsufficientRent` when the deposit does not cover the bytes
/// used; otherwise returns the payment refunding the excess, when that
/// excess is worth returning (more than one unit).
pub fn refund_deposit(storage_used: u64, attached_deposit: u128, refund_to: &String) -> (r:
    Result<Option<Payment>, ContractError>)
    ensures
        match r {
            Ok(refund) => {
                &&& attached_deposit >= storage_used * STORAGE_PRICE_PER_BYTE
                &&& match refund {
                    Some(p) => p@.to == refund_to@ && p@.amount == attached_deposit - storage_used
                        * STORAGE_PRICE_PER_BYTE && p@.amount > 1,
                    None => attached_deposit - storage_used * STORAGE_PRICE_PER_BYTE <= 1,
                }
            },
            Err(e) => e == ContractError::InsufficientRent && attached_deposit < storage_used
                * STORAGE_PRICE_PER_BYTE,
        },
{
    proof {
        assert((storage_used as u128) * STORAGE_PRICE_PER_BYTE <= u128::MAX) by (nonlinear_arith)
            requires
                storage_used <= u64::MAX,
        ;
    }
    let required = (storage_used as u128) * STORAGE_PRICE_PER_BYTE;
    if required > attached_deposit {
        return Err(ContractError::InsufficientRent);
    }
    let refund = attached_deposit - required;
    if refund > 1 {
        Ok(Some(Payment { to: refund_to.clone(), amount: refund }))
    } else {
        Ok(None)
    }
}

impl Contract {
    /// Add an asset to an account's ownership index.
    pub fn internal_add_token_to_owner(&mut self, account_id: &String, token_id: &String)
        requires
            old(self).tokens_per_owner.wf(),
            old(self).tokens_per_owner@.contains_key(account_id@) ==> distinct_seqs(
                old(self).tokens_per_owner@[account_id@],
            ),
        ensures
            final(self).tokens_per_owner.wf(),
            final(self).tokens_per_owner@.contains_key(account_id@),
            ({
                let ks0 = if old(self).tokens_per_owner@.contains_key(account_id@) {
                    old(self).tokens_per_owner@[account_id@]
                } else {
                    Seq::<Seq<char>>::empty()
                };
                &&& final(self).tokens_per_owner@[account_id@] == if ks0.contains(token_id@) {
                    ks0
                } else {
                    ks0.push(token_id@)
                }
                &&& distinct_seqs(final(self).tokens_per_owner@[account_id@])
            }),
            forall|o: Seq<char>|
                o != account_id@ ==> (final(self).tokens_per_owner@.contains_key(o) == old(
                    self,
                ).tokens_per_owner@.contains_key(o) && (old(self).tokens_per_owner@.contains_key(o)
                    ==> final(self).tokens_per_owner@[o] == old(self).tokens_per_owner@[o])),
            final(self).tokens_by_id == old(self).tokens_by_id,
            final(self).token_metadata_by_id == old(self).token_metadata_by_id,
            final(self).share_nfts == old(self).share_nfts,
            final(self).ticket_used == old(self).ticket_used,
            final(self).owner_id == old(self).owner_id,
            final(self).metadata == old(self).metadata,
    {
        let mut ks = match self.tokens_per_owner.get(account_id) {
            Some(s) => s.duplicate(),
            None => StrSet::new(),
        };
        ks.insert(token_id.clone());
        self.tokens_per_owner.insert(account_id.clone(), ks);
    }

    /// Remove an asset from an account's ownership index, dropping the
    /// whole entry when it empties.
    pub fn internal_remove_token_from_owner(&mut self, account_id: &String, token_id: &String)
        requires
            old(self).tokens_per_owner.wf(),
            old(self).tokens_per_owner@.contains_key(account_id@),
            distinct_seqs(old(self).tokens_per_owner@[account_id@]),
            old(self).tokens_per_owner@[account_id@].contains(token_id@),
        ensures
            final(self).tokens_per_owner.wf(),
            ({
                let ks0 = old(self).tokens_per_owner@[account_id@];
                if ks0.len() == 1 {
                    !final(self).tokens_per_owner@.contains_key(account_id@)
                } else {
                    &&& final(self).tokens_per_owner@.contains_key(account_id@)
                    &&& distinct_seqs(final(self).tokens_per_owner@[account_id@])
                    &&& final(self).tokens_per_owner@[account_id@].len() == ks0.len() - 1
                    &&& forall|x: Seq<char>|
                        #[trigger] final(self).tokens_per_owner@[account_id@].contains(x) <==> (
                        ks0.contains(x) && x != token_id@)
                }
            }),
            forall|o: Seq<char>|
                o != account_id@ ==> (final(self).tokens_per_owner@.contains_key(o) == old(
                    self,
                ).tokens_per_owner@.contains_key(o) && (old(self).tokens_per_owner@.contains_key(o)
                    ==> final(self).tokens_per_owner@[o] == old(self).tokens_per_owner@[o])),
            final(self).tokens_by_id == old(self).tokens_by_id,
            final(self).token_metadata_by_id == old(self).token_metadata_by_id,
            final(self).share_nfts == old(self).share_nfts,
            final(self).ticket_used == old(self).ticket_used,
            final(self).owner_id == old(self).owner_id,
            final(self).metadata == old(self).metadata,
    {
        let mut ks = match self.tokens_per_owner.get(account_id) {
            Some(s) => s.duplicate(),
            None => {
                proof {
                    assert(false);
                }
                StrSet::new()
            },
        };
        ks.remove(token_id);
        if ks.is_empty() {
            self.tokens_per_owner.remove(account_id);
        } else {
            self.tokens_per_owner.insert(account_id.clone(), ks);
        }
        proof {
            let ks0 = old(self).tokens_per_owner@[account_id@];
            if ks0.len() != 1 {
                assert(final(self).tokens_per_owner@[account_id@].len() == ks0.len() - 1);
            }
        }
    }

    /// Move an asset from its owner to a receiver.
    ///
    /// The caller must be the owner or hold a live approval; a supplied
    /// sequence number must match a delegate's grant exactly; the receiver
    /// must differ from the owner.  On success all approvals are cleared —
    /// a fresh approval epoch — and the pre-transfer record is returned
    /// beside the transfer event, so the caller can account (royalties,
    /// rent refunds) against the state as it was.  The event's authorized-by
    /// field is set exactly when the caller was a delegate, not the owner.
    pub fn internal_transfer(
        &mut self,
        sender_id: &String,
        receiver_id: &String,
        token_id: &String,
        approval_id: Option<u64>,
        memo: Option<String>,
    ) -> (r: Result<(Token, EventLog), ContractError>)
        requires
            old(self).wf(),
        ensures
            final(self).wf(),
            match r {
                Ok((prev, event)) => {
                    &&& old(self).tokens_by_id@.contains_key(token_id@)
                    &&& prev@ == old(self).tokens_by_id@[token_id@]
                    &&& (sender_id@ == prev@.owner_id || prev@.approved.contains_key(sender_id@))
                    &&& (approval_id is Some && sender_id@ != prev@.owner_id
                        ==> prev@.approved[sender_id@] == approval_id->0)
                    &&& receiver_id@ != prev@.owner_id
                    &&& final(self).tokens_by_id@ == old(self).tokens_by_id@.insert(
                        token_id@,
                        TokenView {
                            owner_id: receiver_id@,
                            approved: Map::empty(),
                            approved_keys: Seq::empty(),
                            next_approval_id: prev@.next_approval_id,
                            royalty: prev@.royalty,
                            royalty_keys: prev@.royalty_keys,
                        },
                    )
                    &&& final(self).token_metadata_by_id@ == old(self).token_metadata_by_id@
                    &&& event.standard@ == "nep171"@
                    &&& event.version@ == "1.0.0"@
                    &&& (event.event matches EventLogVariant::NftTransfer(logs) && logs@.len()
                        == 1 && logs@[0].old_owner_id@ == prev@.owner_id && logs@[0].new_owner_id@
                        == receiver_id@ && logs@[0].token_ids@.len() == 1
                        && logs@[0].token_ids@[0]@ == token_id@ && logs@[0].memo == memo && (
                    logs@[0].authorized_id matches Some(a) ==> a@ == sender_id@) && (
                    logs@[0].authorized_id is Some <==> sender_id@ != prev@.owner_id))
                },
                Err(e) => {
                    &&& *final(self) == *old(self)
                    &&& if !old(self).tokens_by_id@.contains_key(token_id@) {
                        e == ContractError::NotFound
                    } else if sender_id@ != old(self).tokens_by_id@[token_id@].owner_id && !old(
                        self,
                    ).tokens_by_id@[token_id@].approved.contains_key(sender_id@) {
                        e == ContractError::Unauthorized
                    } else if sender_id@ != old(self).tokens_by_id@[token_id@].owner_id
                        && approval_id is Some && old(
                        self,
                    ).tokens_by_id@[token_id@].approved[sender_id@] != approval_id->0 {
                        e == ContractError::ApprovalMismatch
                    } else {
                        e == ContractError::SelfTransferRejected && receiver_id@ == old(
                            self,
                        ).tokens_by_id@[token_id@].owner_id
                    }
                },
            },
    {
        let ghost m0 = *old(self);
        let ghost tid = token_id@;
        // validate before any mutation
        match self.tokens_by_id.get(token_id) {
            None => {
                return Err(ContractError::NotFound);
            },
            Some(tok) => {
                proof {
                    assert(m0.token_entry_ok(tid));
                    tok.approved_account_ids.lemma_wf_keys();
                }
                if !tok.owner_id.eq(sender_id) {
                    match tok.approved_account_ids.get(sender_id) {
                        None => {
                            return Err(ContractError::Unauthorized);
                        },
                        Some(actual) => {
                            match approval_id {
                                Some(enforced) => {
                                    if *actual != enforced {
                                        return Err(ContractError::ApprovalMismatch);
                                    }
                                },
                                None => {},
                            }
                        },
                    }
                }
                if tok.owner_id.eq(receiver_id) {
                    return Err(ContractError::SelfTransferRejected);
                }
            },
        };
        let prev = match self.tokens_by_id.remove(token_id) {
            Some(t) => t,
            None => {
                proof {
                    assert(false);
                }
                return Err(ContractError::NotFound);
            },
        };
        let ghost pv = prev@;
        proof {
            assert(m0.token_entry_ok(tid));
            assert(m0.owner_tokens_ok(pv.owner_id));
        }
        self.internal_remove_token_from_owner(&prev.owner_id, token_id);
        let ghost p1 = self.tokens_per_owner@;
        proof {
            if self.tokens_per_owner@.contains_key(receiver_id@) {
                assert(m0.owner_tokens_ok(receiver_id@));
                if p1[receiver_id@].contains(tid) {
                    let ks = m0.tokens_per_owner@[receiver_id@];
                    assert(ks.contains(tid));
                    let j = choose|j: int| 0 <= j < ks.len() && ks[j] == tid;
                    assert(m0.token_owned(ks[j], receiver_id@));
                    assert(false);
                }
            }
        }
        self.internal_add_token_to_owner(receiver_id, token_id);
        let new_token = Token {
            owner_id: receiver_id.clone(),
            approved_account_ids: StrMap::new(),
            next_approval_id: prev.next_approval_id,
            royalty: prev.royalty.duplicate(),
        };
        let ghost nv = new_token@;
        self.tokens_by_id.insert(token_id.clone(), new_token);
        let authorized_id: Option<String> = if prev.owner_id.eq(sender_id) {
            None
        } else {
            Some(sender_id.clone())
        };
        let event = EventLog {
            standard: String::from_str("nep171"),
            version: String::from_str("1.0.0"),
            event: EventLogVariant::NftTransfer(
                vec![
                    NftTransferLog {
                        authorized_id,
                        old_owner_id: prev.owner_id.clone(),
                        new_owner_id: receiver_id.clone(),
                        token_ids: vec![token_id.clone()],
                        memo,
                    },
                ],
            ),
        };
        proof {
            let m1 = *self;
            assert(nv.approved =~= Map::<Seq<char>, u64>::empty());
            assert(nv.approved_keys =~= Seq::<Seq<char>>::empty());
            assert(m1.tokens_by_id@ =~= m0.tokens_by_id@.insert(tid, nv));
            assert(crate::nft::metadata::token_view_wf(nv)) by {
                assert(crate::nft::metadata::token_view_wf(pv));
                assert(crate::nft::metadata::approvals_bytes(Seq::<Seq<char>>::empty()) == 0);
            }
            // every asset record agrees with the indices
            assert forall|t: Seq<char>| #[trigger] m1.tokens_by_id@.contains_key(t)
                implies m1.token_entry_ok(t) by {
                if t == tid {
                    assert(m1.tokens_by_id@[t] == nv);
                    assert(m1.tokens_per_owner@.contains_key(receiver_id@));
                    assert(m1.tokens_per_owner@[receiver_id@].contains(tid)) by {
                        let ks1 = m1.tokens_per_owner@[receiver_id@];
                        if p1.contains_key(receiver_id@) {
                            assert(ks1 == p1[receiver_id@].push(tid));
                            assert(ks1[p1[receiver_id@].len() as int] == tid);
                        } else {
                            assert(ks1 == Seq::<Seq<char>>::empty().push(tid));
                            assert(ks1[0] == tid);
                        }
                    }
                    assert(m0.token_entry_ok(tid));
                } else {
                    assert(m0.tokens_by_id@.contains_key(t));
                    assert(m0.token_entry_ok(t));
                    let tok = m1.tokens_by_id@[t];
                    assert(tok == m0.tokens_by_id@[t]);
                    let o = tok.owner_id;
                    if o == pv.owner_id {
                        let ks0 = m0.tokens_per_owner@[o];
                        assert(ks0.contains(t));
                        assert(ks0.len() != 1) by {
                            if ks0.len() == 1 {
                                let i = choose|i: int| 0 <= i < ks0.len() && ks0[i] == t;
                                let j = choose|j: int| 0 <= j < ks0.len() && ks0[j] == tid;
                                assert(i == 0 && j == 0);
                                assert(false);
                            }
                        }
                        assert(p1.contains_key(o));
                        assert(p1[o].contains(t));
                        if o == receiver_id@ {
                            assert(false);
                        }
                        assert(m1.tokens_per_owner@[o] == p1[o]);
                    } else if o == receiver_id@ {
                        let ksr = if p1.contains_key(receiver_id@) {
                            p1[receiver_id@]
                        } else {
                            Seq::<Seq<char>>::empty()
                        };
                        assert(p1.contains_key(o) == m0.tokens_per_owner@.contains_key(o));
                        assert(m0.tokens_per_owner@[o].contains(t));
                        assert(p1[o] == m0.tokens_per_owner@[o]);
                        assert(m1.tokens_per_owner@[o] == ksr.push(tid));
                        let j = choose|j: int| 0 <= j < ksr.len() && ksr[j] == t;
                        assert(ksr.push(tid)[j] == t);
                        assert(m1.tokens_per_owner@[o].contains(t));
                    } else {
                        assert(p1.contains_key(o) == m0.tokens_per_owner@.contains_key(o));
                        assert(p1[o] == m0.tokens_per_owner@[o]);
                        assert(m1.tokens_per_owner@[o] == p1[o]);
                    }
                }
            }
            // every ownership-index entry lists assets of that owner
            assert forall|o: Seq<char>| #[trigger] m1.tokens_per_owner@.contains_key(o)
                implies m1.owner_tokens_ok(o) by {
                let ks = m1.tokens_per_owner@[o];
                if o == receiver_id@ {
                    let ksr = if p1.contains_key(receiver_id@) {
                        p1[receiver_id@]
                    } else {
                        Seq::<Seq<char>>::empty()
                    };
                    assert(ks == ksr.push(tid));
                    assert forall|i: int| 0 <= i < ks.len() implies #[trigger] m1.token_owned(
                        ks[i],
                        o,
                    ) by {
                        if i == ksr.len() {
                            assert(ks[i] == tid);
                            assert(m1.tokens_by_id@[tid] == nv);
                        } else {
                            assert(ks[i] == ksr[i]);
                            assert(p1.contains_key(receiver_id@));
                            assert(m0.tokens_per_owner@.contains_key(o));
                            assert(m0.owner_tokens_ok(o));
                            assert(m0.tokens_per_owner@[o] == ksr);
                            assert(m0.token_owned(ksr[i], o));
                            assert(ksr[i] != tid);
                        }
                    }
                } else if o == pv.owner_id {
                    assert(ks == p1[o]);
                    let ks0 = m0.tokens_per_owner@[o];
                    assert forall|i: int| 0 <= i < ks.len() implies #[trigger] m1.token_owned(
                        ks[i],
                        o,
                    ) by {
                        assert(ks.contains(ks[i]));
                        assert(ks0.contains(ks[i]) && ks[i] != tid);
                        let j = choose|j: int| 0 <= j < ks0.len() && ks0[j] == ks[i];
                        assert(m0.owner_tokens_ok(o));
                        assert(m0.token_owned(ks0[j], o));
                    }
                } else {
                    assert(p1.contains_key(o) == m0.tokens_per_owner@.contains_key(o));
                    assert(ks == m0.tokens_per_owner@[o]);
                    assert(m0.owner_tokens_ok(o));
                    assert forall|i: int| 0 <= i < ks.len() implies #[trigger] m1.token_owned(
                        ks[i],
                        o,
                    ) by {
                        assert(m0.token_owned(ks[i], o));
                        assert(ks[i] != tid);
                    }
                }
            }
            // metadata keys still name live assets
            assert forall|t: Seq<char>| #[trigger] m1.token_metadata_by_id@.contains_key(t)
                implies m1.tokens_by_id@.contains_key(t) by {
                assert(m0.token_metadata_by_id@.contains_key(t));
            }
        }
        Ok((prev, event))
    }
}

} // verus!
