//! Minting: creating an asset with its owner and royalty table.

use vstd::prelude::*;
use vstd::string::StringExecFns;
use crate::effects::Payment;
use crate::effects::STORAGE_PRICE_PER_BYTE;
use crate::errors::ContractError;
use crate::nft::events::EventLog;
use crate::nft::events::EventLogVariant;
use crate::nft::events::NftMintLog;
use crate::nft::internal::refund_deposit;
use crate::nft::metadata::royalty_bps_sum;
use crate::nft::metadata::token_view_wf;
use crate::nft::metadata::Token;
use crate::nft::metadata::TokenMetadata;
use crate::nft::metadata::TokenView;
use crate::nft::Contract;
use crate::strkv::StrMap;

verus! {

/// The key views of a royalty list, in list order.
pub open spec fn rl_keys(es: Seq<(String, u16)>) -> Seq<Seq<char>> {
    Seq::new(es.len(), |i: int| es[i].0@)
}

/// The map a royalty list denotes (keys assumed distinct).
pub open spec fn rl_map(es: Seq<(String, u16)>) -> Map<Seq<char>, u16>
    decreases es.len(),
{
    if es.len() == 0 {
        Map::empty()
    } else {
        rl_map(es.drop_last()).insert(es.last().0@, es.last().1)
    }
}

/// The total basis points a royalty list grants.
pub open spec fn rl_bps_sum(es: Seq<(String, u16)>) -> int
    decreases es.len(),
{
    if es.len() == 0 {
        0
    } else {
        rl_bps_sum(es.drop_last()) + es.last().1
    }
}

/// The rent bytes a royalty list occupies.
pub open spec fn rl_bytes(es: Seq<(String, u16)>) -> int
    decreases es.len(),
{
    if es.len() == 0 {
        0
    } else {
        rl_bytes(es.drop_last()) + es.last().0@.len() + 12
    }
}

/// The rent bytes minting an asset grows: the asset id, the owner record,
/// the royalty table, and a flat overhead for the rest of the record.
pub open spec fn mint_bytes(
    token_id: Seq<char>,
    receiver_id: Seq<char>,
    royalties: Seq<(String, u16)>,
) -> int {
    token_id.len() + receiver_id.len() + 12 + rl_bytes(royalties) + 128
}

/// Royalty-list prefix sums are monotone and not negative.
proof fn lemma_rl_prefix(es: Seq<(String, u16)>, i: int)
    requires
        0 <= i <= es.len(),
    ensures
        0 <= rl_bps_sum(es.take(i)),
        rl_bps_sum(es.take(i)) <= rl_bps_sum(es) || i < es.len(),
        0 <= rl_bytes(es.take(i)),
        rl_bytes(es.take(i)) <= rl_bytes(es),
        rl_bps_sum(es.take(i)) <= i * 65535,
    decreases es.len() - i,
{
    lemma_rl_nonneg(es.take(i));
    lemma_rl_sum_bound(es.take(i));
    assert(es.take(i).len() == i);
    if i < es.len() {
        lemma_rl_prefix(es, i + 1);
        assert(es.take(i + 1).drop_last() =~= es.take(i));
        assert(es.take(i + 1).last() == es[i]);
    } else {
        assert(es.take(i) =~= es);
    }
}

/// A royalty list's sums are not negative, and bounded by its length.
proof fn lemma_rl_nonneg(es: Seq<(String, u16)>)
    ensures
        rl_bps_sum(es) >= 0,
        rl_bytes(es) >= 0,
    decreases es.len(),
{
    if es.len() > 0 {
        lemma_rl_nonneg(es.drop_last());
    }
}

/// Each basis-point value is at most its type's maximum.
proof fn lemma_rl_sum_bound(es: Seq<(String, u16)>)
    ensures
        rl_bps_sum(es) <= es.len() * 65535,
    decreases es.len(),
{
    if es.len() > 0 {
        lemma_rl_sum_bound(es.drop_last());
        assert(rl_bps_sum(es) == rl_bps_sum(es.drop_last()) + es.last().1);
        assert(es.len() * 65535 == (es.len() - 1) * 65535 + 65535) by (nonlinear_arith);
    }
}

/// Inserting a fresh key leaves the sum over the old keys unchanged.
proof fn lemma_bps_sum_insert_fresh(
    m: Map<Seq<char>, u16>,
    keys: Seq<Seq<char>>,
    k: Seq<char>,
    v: u16,
)
    requires
        !keys.contains(k),
    ensures
        royalty_bps_sum(m.insert(k, v), keys) == royalty_bps_sum(m, keys),
    decreases keys.len(),
{
    if keys.len() > 0 {
        assert(keys.contains(keys.last()));
        assert(forall|i: int| 0 <= i < keys.drop_last().len() ==> keys.drop_last()[i] == keys[i]);
        assert forall|x: Seq<char>| keys.drop_last().contains(x) implies keys.contains(x) by {
            let i = choose|i: int| 0 <= i < keys.drop_last().len() && keys.drop_last()[i] == x;
            assert(keys[i] == x);
        }
        lemma_bps_sum_insert_fresh(m, keys.drop_last(), k, v);
        assert(keys.last() != k);
    }
}

impl Contract {
    /// Mint an asset.
    ///
    /// The royalty list must name at most six distinct recipients and grant
    /// at most the whole (10000 basis points); the asset id must be fresh;
    /// and the attached deposit must cover the storage the record grows,
    /// with the excess refunded to the designated account (the caller, when
    /// none is designated).
    pub fn nft_mint(
        &mut self,
        token_id: String,
        metadata: TokenMetadata,
        receiver_id: String,
        perpetual_royalties: Option<Vec<(String, u16)>>,
        size: Option<usize>,
        refund_to_signer: Option<String>,
        caller: &String,
        attached_deposit: u128,
    ) -> (r: Result<(Option<Payment>, EventLog), ContractError>)
        requires
            old(self).wf(),
            ({
                let rl = match perpetual_royalties {
                    Some(rl) => rl@,
                    None => Seq::empty(),
                };
                &&& crate::strkv::distinct_seqs(rl_keys(rl))
                &&& mint_bytes(token_id@, receiver_id@, rl) <= u64::MAX
            }),
            size matches Some(s) ==> s >= 1,
        ensures
            final(self).wf(),
            ({
                let rl = match perpetual_royalties {
                    Some(rl) => rl@,
                    None => Seq::empty(),
                };
                let refund_target = match refund_to_signer {
                    Some(a) => a@,
                    None => caller@,
                };
                match r {
                    Ok((refund, event)) => {
                        &&& rl.len() <= 6
                        &&& rl_bps_sum(rl) <= 10000
                        &&& !old(self).tokens_by_id@.contains_key(token_id@)
                        &&& attached_deposit >= mint_bytes(token_id@, receiver_id@, rl)
                            * STORAGE_PRICE_PER_BYTE
                        &&& final(self).tokens_by_id@.contains_key(token_id@)
                        &&& ({
                            let nt = final(self).tokens_by_id@[token_id@];
                            nt.owner_id == receiver_id@ && nt.approved == Map::<
                                Seq<char>,
                                u64,
                            >::empty() && nt.next_approval_id == 0 && nt.royalty == rl_map(rl)
                                && nt.royalty_keys == rl_keys(rl)
                        })
                        &&& forall|t: Seq<char>|
                            t != token_id@ ==> final(self).tokens_by_id@.contains_key(t) == old(
                                self,
                            ).tokens_by_id@.contains_key(t) && (old(
                                self,
                            ).tokens_by_id@.contains_key(t) ==> final(self).tokens_by_id@[t]
                                == old(self).tokens_by_id@[t])
                        &&& final(self).token_metadata_by_id@ == old(
                            self,
                        ).token_metadata_by_id@.insert(token_id@, metadata)
                        &&& match refund {
                            Some(p) => p@.to == refund_target && p@.amount == attached_deposit
                                - mint_bytes(token_id@, receiver_id@, rl)
                                * STORAGE_PRICE_PER_BYTE && p@.amount > 1,
                            None => attached_deposit - mint_bytes(token_id@, receiver_id@, rl)
                                * STORAGE_PRICE_PER_BYTE <= 1,
                        }
                        &&& (event.event matches EventLogVariant::NftMint(logs) && logs@.len()
                            == 1 && logs@[0].owner_id@ == receiver_id@ && logs@[0].token_ids@.len()
                            == 1 && logs@[0].token_ids@[0]@ == token_id@ && logs@[0].memo is None)
                    },
                    Err(e) => {
                        &&& *final(self) == *old(self)
                        &&& if rl.len() > 6 {
                            e == ContractError::TooManyRecipients
                        } else if rl_bps_sum(rl) > 10000 {
                            e == ContractError::InvalidRoyalty
                        } else if old(self).tokens_by_id@.contains_key(token_id@) {
                            e == ContractError::AlreadyExists
                        } else {
                            e == ContractError::InsufficientRent && attached_deposit < mint_bytes(
                                token_id@,
                                receiver_id@,
                                rl,
                            ) * STORAGE_PRICE_PER_BYTE
                        }
                    },
                }
            }),
    {
        let ghost m0 = *old(self);
        let ghost tid = token_id@;
        let ghost rl: Seq<(String, u16)> = match perpetual_royalties {
            Some(ref v) => v@,
            None => Seq::empty(),
        };
        // build and validate the royalty table
        let mut royalty: StrMap<u16> = StrMap::new();
        let mut bps_total: u32 = 0;
        let mut bytes_total: u64 = 0;
        match perpetual_royalties {
            Some(list) => {
                if list.len() > 6 {
                    return Err(ContractError::TooManyRecipients);
                }
                let mut i: usize = 0;
                while i < list.len()
                    invariant
                        0 <= i <= list@.len(),
                        list@ == rl,
                        rl.len() <= 6,
                        crate::strkv::distinct_seqs(rl_keys(rl)),
                        mint_bytes(tid, receiver_id@, rl) <= u64::MAX,
                        royalty.wf(),
                        royalty@ == rl_map(rl.take(i as int)),
                        royalty.key_seq() == rl_keys(rl.take(i as int)),
                        bps_total == rl_bps_sum(rl.take(i as int)),
                        bytes_total == rl_bytes(rl.take(i as int)),
                    decreases list@.len() - i,
                {
                    let (account, amount) = (list[i].0.clone(), list[i].1);
                    proof {
                        lemma_rl_prefix(rl, i + 1);
                        lemma_rl_prefix(rl, i as int);
                        assert(rl.take(i + 1).drop_last() =~= rl.take(i as int));
                        assert(rl.take(i + 1).last() == rl[i as int]);
                        assert(rl_bps_sum(rl.take(i + 1)) <= 6 * 65535);
                        assert(rl_bytes(rl.take(i + 1)) <= u64::MAX) by {
                            lemma_rl_nonneg(rl);
                        }
                        // the fresh key keeps the key order a plain push
                        royalty.lemma_contains_key_seq();
                        assert(!royalty@.contains_key(account@)) by {
                            if royalty.key_seq().contains(account@) {
                                let j = choose|j: int|
                                    0 <= j < i && rl_keys(rl.take(i as int))[j] == account@;
                                assert(rl_keys(rl)[j] == rl_keys(rl)[i as int]);
                            }
                        }
                        assert(rl_keys(rl.take(i + 1)) =~= rl_keys(rl.take(i as int)).push(
                            account@,
                        ));
                    }
                    royalty.insert(account, amount);
                    bps_total = bps_total + amount as u32;
                    bytes_total = bytes_total + (list[i].0.as_str().unicode_len() as u64) + 12;
                    proof {
                        assert(rl_bytes(rl.take(i + 1)) == rl_bytes(rl.take(i as int)) + rl[
                            i as int].0@.len() + 12);
                    }
                    i += 1;
                }
                proof {
                    assert(rl.take(list@.len() as int) =~= rl);
                }
                if bps_total > 10000 {
                    return Err(ContractError::InvalidRoyalty);
                }
            },
            None => {
                proof {
                    assert(rl_map(rl) =~= Map::<Seq<char>, u16>::empty());
                    assert(rl_keys(rl) =~= Seq::<Seq<char>>::empty());
                }
            },
        }
        if self.tokens_by_id.contains_key(&token_id) {
            return Err(ContractError::AlreadyExists);
        }
        // charge rent for the grown record before writing anything
        let used: u64 = (token_id.as_str().unicode_len() as u64) + (
        receiver_id.as_str().unicode_len() as u64) + 12 + bytes_total + 128;
        proof {
            lemma_rl_nonneg(rl);
        }
        let refund = match refund_deposit(
            used,
            attached_deposit,
            match refund_to_signer {
                Some(ref a) => a,
                None => caller,
            },
        ) {
            Ok(p) => p,
            Err(e) => {
                return Err(e);
            },
        };
        // write the record, its metadata, the owner index and the side tables
        let ghost rmap = royalty@;
        let ghost rkeys = royalty.key_seq();
        proof {
            royalty.lemma_contains_key_seq();
            assert(forall|k: Seq<char>| #[trigger] rmap.contains_key(k) <==> rkeys.contains(k));
        }
        let token = Token {
            owner_id: receiver_id.clone(),
            approved_account_ids: StrMap::new(),
            next_approval_id: 0,
            royalty,
        };
        let ghost nv = token@;
        self.tokens_by_id.insert(token_id.clone(), token);
        self.token_metadata_by_id.insert(token_id.clone(), metadata);
        let ghost p0 = self.tokens_per_owner@;
        proof {
            if self.tokens_per_owner@.contains_key(receiver_id@) {
                assert(m0.owner_tokens_ok(receiver_id@));
                if p0[receiver_id@].contains(tid) {
                    let ks = m0.tokens_per_owner@[receiver_id@];
                    let j = choose|j: int| 0 <= j < ks.len() && ks[j] == tid;
                    assert(m0.token_owned(ks[j], receiver_id@));
                    assert(false);
                }
            }
        }
        self.internal_add_token_to_owner(&receiver_id, &token_id);
        match size {
            Some(s) => {
                let mut shares: Vec<String> = Vec::new();
                let mut j: usize = 0;
                while j < s - 1
                    invariant
                        0 <= j <= s - 1,
                        s >= 1,
                    decreases s - 1 - j,
                {
                    shares.push(receiver_id.clone());
                    j += 1;
                }
                self.share_nfts.insert(token_id.clone(), shares);
                let mut tickets: Vec<bool> = Vec::new();
                let mut j2: usize = 0;
                while j2 < s
                    invariant
                        0 <= j2 <= s,
                        tickets@.len() == j2,
                    decreases s - j2,
                {
                    tickets.push(false);
                    j2 += 1;
                }
                self.ticket_used.insert(token_id.clone(), tickets);
            },
            None => {
                let mut tickets: Vec<bool> = Vec::new();
                tickets.push(false);
                self.ticket_used.insert(token_id.clone(), tickets);
            },
        }
        let event = EventLog {
            standard: String::from_str("nep171"),
            version: String::from_str("1.0.0"),
            event: EventLogVariant::NftMint(
                vec![
                    NftMintLog {
                        owner_id: receiver_id.clone(),
                        token_ids: vec![token_id.clone()],
                        memo: None,
                    },
                ],
            ),
        };
        proof {
            let m1 = *self;
            assert(nv.approved =~= Map::<Seq<char>, u64>::empty());
            assert(nv.approved_keys =~= Seq::<Seq<char>>::empty());
            assert(m1.tokens_by_id@ =~= m0.tokens_by_id@.insert(tid, nv));
            assert(token_view_wf(nv)) by {
                assert(nv.royalty == rl_map(rl));
                assert(nv.royalty_keys == rl_keys(rl));
                lemma_rl_sums_match(rl);
                assert(royalty_bps_sum(nv.royalty, nv.royalty_keys) <= 10000);
                assert forall|i: int| 0 <= i < nv.royalty_keys.len()
                    implies #[trigger] nv.royalty.contains_key(nv.royalty_keys[i]) by {
                    assert(rkeys.contains(rkeys[i]));
                    assert(rmap.contains_key(rkeys[i]));
                }
                assert(crate::nft::metadata::approvals_bytes(Seq::<Seq<char>>::empty()) == 0);
            }
            assert forall|t: Seq<char>| #[trigger] m1.tokens_by_id@.contains_key(t)
                implies m1.token_entry_ok(t) by {
                if t == tid {
                    assert(m1.tokens_per_owner@[receiver_id@].contains(tid)) by {
                        let ksr = if p0.contains_key(receiver_id@) {
                            p0[receiver_id@]
                        } else {
                            Seq::<Seq<char>>::empty()
                        };
                        assert(m1.tokens_per_owner@[receiver_id@] == ksr.push(tid));
                        assert(ksr.push(tid)[ksr.len() as int] == tid);
                    }
                    assert(m1.ticket_used@.contains_key(tid));
                    assert(m1.ticket_used@[tid].len() >= 1);
                } else {
                    assert(m0.tokens_by_id@.contains_key(t));
                    assert(m0.token_entry_ok(t));
                    let tok = m1.tokens_by_id@[t];
                    assert(tok == m0.tokens_by_id@[t]);
                    if tok.owner_id == receiver_id@ {
                        let ksr = if p0.contains_key(receiver_id@) {
                            p0[receiver_id@]
                        } else {
                            Seq::<Seq<char>>::empty()
                        };
                        assert(p0[tok.owner_id].contains(t));
                        let j = choose|j: int| 0 <= j < ksr.len() && ksr[j] == t;
                        assert(ksr.push(tid)[j] == t);
                        assert(m1.tokens_per_owner@[tok.owner_id].contains(t));
                    } else {
                        assert(m1.tokens_per_owner@[tok.owner_id] == p0[tok.owner_id]);
                    }
                }
            }
            assert forall|o: Seq<char>| #[trigger] m1.tokens_per_owner@.contains_key(o)
                implies m1.owner_tokens_ok(o) by {
                let ks = m1.tokens_per_owner@[o];
                if o == receiver_id@ {
                    let ksr = if p0.contains_key(receiver_id@) {
                        p0[receiver_id@]
                    } else {
                        Seq::<Seq<char>>::empty()
                    };
                    assert(ks == ksr.push(tid));
                    assert forall|i: int| 0 <= i < ks.len() implies #[trigger] m1.token_owned(
                        ks[i],
                        o,
                    ) by {
                        if i == ksr.len() {
                            assert(ks[i] == tid);
                        } else {
                            assert(ks[i] == ksr[i]);
                            assert(p0.contains_key(o));
                            assert(m0.owner_tokens_ok(o));
                            assert(m0.token_owned(ksr[i], o));
                            assert(ksr[i] != tid);
                        }
                    }
                } else {
                    assert(p0.contains_key(o) == m0.tokens_per_owner@.contains_key(o));
                    assert(ks == m0.tokens_per_owner@[o]);
                    assert(m0.owner_tokens_ok(o));
                    assert forall|i: int| 0 <= i < ks.len() implies #[trigger] m1.token_owned(
                        ks[i],
                        o,
                    ) by {
                        assert(m0.token_owned(ks[i], o));
                        assert(ks[i] != tid);
                    }
                }
            }
            assert forall|t: Seq<char>| #[trigger] m1.token_metadata_by_id@.contains_key(t)
                implies m1.tokens_by_id@.contains_key(t) by {
                if t != tid {
                    assert(m0.token_metadata_by_id@.contains_key(t));
                }
            }
        }
        Ok((refund, event))
    }
}

/// A royalty list's sum equals the table sum of the map and keys it builds.
proof fn lemma_rl_sums_match(rl: Seq<(String, u16)>)
    requires
        crate::strkv::distinct_seqs(rl_keys(rl)),
    ensures
        royalty_bps_sum(rl_map(rl), rl_keys(rl)) == rl_bps_sum(rl),
    decreases rl.len(),
{
    if rl.len() > 0 {
        let head = rl.drop_last();
        assert(rl_keys(head) =~= rl_keys(rl).drop_last());
        assert forall|i: int, j: int| 0 <= i < j < rl_keys(head).len() implies rl_keys(head)[i]
            != rl_keys(head)[j] by {
            assert(rl_keys(rl)[i] == rl_keys(head)[i]);
            assert(rl_keys(rl)[j] == rl_keys(head)[j]);
        }
        lemma_rl_sums_match(head);
        let k = rl.last().0@;
        let v = rl.last().1;
        assert(!rl_keys(head).contains(k)) by {
            if rl_keys(head).contains(k) {
                let i = choose|i: int| 0 <= i < rl_keys(head).len() && rl_keys(head)[i] == k;
                assert(rl_keys(rl)[i] == k);
                assert(rl_keys(rl)[rl.len() - 1] == k);
            }
        }
        lemma_bps_sum_insert_fresh(rl_map(head), rl_keys(head), k, v);
        assert(rl_keys(rl) =~= rl_keys(head).push(k));
        assert(rl_keys(rl).drop_last() =~= rl_keys(head));
        assert(rl_keys(rl).last() == k);
        assert(royalty_bps_sum(rl_map(rl), rl_keys(rl)) == royalty_bps_sum(
            rl_map(rl),
            rl_keys(head),
        ) + rl_map(rl)[k]);
    }
}

} // verus!
