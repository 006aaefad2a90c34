//! The royalty split calculator and the transfer-and-payout entry points.

use vstd::prelude::*;
use crate::effects::Payment;
use crate::errors::ContractError;
use crate::nft::events::EventLog;
use crate::nft::internal::refund_approved_account_ids;
use crate::nft::metadata::TokenView;
use crate::nft::Contract;
use crate::payout::payout_sum;
use crate::payout::Payout;
use crate::strkv::StrMap;

verus! {

/// The floor share a basis-point weight grants of a balance.
pub open spec fn share_of(bps: int, balance: int) -> int {
    bps * balance / 10000
}

/// A royalty table as an entry sequence, in table order.
pub open spec fn royalty_entries(m: Map<Seq<char>, u16>, keys: Seq<Seq<char>>) -> Seq<
    (Seq<char>, u16),
> {
    Seq::new(keys.len(), |i: int| (keys[i], m[keys[i]]))
}

/// The basis points granted to recipients other than the owner.
pub open spec fn nonowner_bps(es: Seq<(Seq<char>, u16)>, owner: Seq<char>) -> int
    decreases es.len(),
{
    if es.len() == 0 {
        0
    } else {
        nonowner_bps(es.drop_last(), owner) + (if es.last().0 == owner {
            0int
        } else {
            es.last().1 as int
        })
    }
}

/// How many table entries name someone other than the owner.
pub open spec fn nonowner_count(es: Seq<(Seq<char>, u16)>, owner: Seq<char>) -> int
    decreases es.len(),
{
    if es.len() == 0 {
        0
    } else {
        nonowner_count(es.drop_last(), owner) + (if es.last().0 == owner {
            0int
        } else {
            1int
        })
    }
}

/// The non-owner payout entries of a split, in table order.
pub open spec fn split_entries(es: Seq<(Seq<char>, u16)>, owner: Seq<char>, balance: int) -> Seq<
    (Seq<char>, u128),
>
    decreases es.len(),
{
    if es.len() == 0 {
        Seq::empty()
    } else {
        let rest = split_entries(es.drop_last(), owner, balance);
        if es.last().0 == owner {
            rest
        } else {
            rest.push((es.last().0, share_of(es.last().1 as int, balance) as u128))
        }
    }
}

/// The whole payout a split produces: the non-owner shares, then the owner
/// absorbing everything the table did not grant away.
pub open spec fn split_payout(es: Seq<(Seq<char>, u16)>, owner: Seq<char>, balance: int) -> Seq<
    (Seq<char>, u128),
> {
    split_entries(es, owner, balance).push(
        (owner, share_of(10000 - nonowner_bps(es, owner), balance) as u128),
    )
}

/// The sum of a table's basis points, over its keys in order.
pub open spec fn entries_bps_sum(es: Seq<(Seq<char>, u16)>) -> int
    decreases es.len(),
{
    if es.len() == 0 {
        0
    } else {
        entries_bps_sum(es.drop_last()) + es.last().1
    }
}

/// Basis-point prefix sums are monotone and bound each element.
pub proof fn lemma_bps_prefix(es: Seq<(Seq<char>, u16)>, i: int)
    requires
        0 <= i <= es.len(),
    ensures
        0 <= entries_bps_sum(es.take(i)),
        entries_bps_sum(es.take(i)) <= entries_bps_sum(es),
    decreases es.len() - i,
{
    lemma_bps_nonneg(es.take(i));
    if i < es.len() {
        lemma_bps_prefix(es, i + 1);
        assert(es.take(i + 1).drop_last() =~= es.take(i));
        assert(es.take(i + 1).last() == es[i]);
    } else {
        assert(es.take(i) =~= es);
    }
}

/// A table's basis points are not negative.
pub proof fn lemma_bps_nonneg(es: Seq<(Seq<char>, u16)>)
    ensures
        entries_bps_sum(es) >= 0,
    decreases es.len(),
{
    if es.len() > 0 {
        lemma_bps_nonneg(es.drop_last());
    }
}

/// The non-owner basis points never exceed the table's total.
pub proof fn lemma_nonowner_le_total(es: Seq<(Seq<char>, u16)>, owner: Seq<char>)
    ensures
        0 <= nonowner_bps(es, owner),
        nonowner_bps(es, owner) <= entries_bps_sum(es),
        0 <= nonowner_count(es, owner),
        nonowner_count(es, owner) <= es.len(),
    decreases es.len(),
{
    if es.len() > 0 {
        lemma_nonowner_le_total(es.drop_last(), owner);
    }
}

/// A split has one payout entry per non-owner table entry.
pub proof fn lemma_split_len(es: Seq<(Seq<char>, u16)>, owner: Seq<char>, balance: int)
    ensures
        split_entries(es, owner, balance).len() == nonowner_count(es, owner),
    decreases es.len(),
{
    if es.len() > 0 {
        lemma_split_len(es.drop_last(), owner, balance);
    }
}

/// Royalty split conservation: with a table of at most 10000 basis points,
/// the full payout — every non-owner share plus the owner's remainder —
/// never exceeds the balance, and falls short of it by at most one unit per
/// rounded share (at most the number of non-owner recipients).
pub proof fn lemma_royalty_split_bounds(es: Seq<(Seq<char>, u16)>, owner: Seq<char>, balance: int)
    requires
        balance >= 0,
        balance <= u128::MAX / 10000,
        entries_bps_sum(es) <= 10000,
    ensures
        payout_sum(split_payout(es, owner, balance)) <= balance,
        balance - nonowner_count(es, owner) <= payout_sum(split_payout(es, owner, balance)),
        split_payout(es, owner, balance).len() == nonowner_count(es, owner) + 1,
{
    lemma_nonowner_le_total(es, owner);
    lemma_split_len(es, owner, balance);
    lemma_split_sum_bounds(es, owner, balance);
    let nb = nonowner_bps(es, owner);
    let nc = nonowner_count(es, owner);
    let ssum = payout_sum(split_entries(es, owner, balance));
    let own_bps = 10000 - nb;
    let own_share = share_of(own_bps, balance);
    assert(0 <= own_bps <= 10000);
    assert(10000 * own_share <= own_bps * balance && own_bps * balance < 10000 * own_share
        + 10000) by (nonlinear_arith)
        requires
            own_share == own_bps * balance / 10000,
            balance >= 0,
            own_bps >= 0,
    ;
    assert(own_share >= 0) by (nonlinear_arith)
        requires
            own_share == own_bps * balance / 10000,
            own_bps >= 0,
            balance >= 0,
    ;
    assert(own_share <= balance) by (nonlinear_arith)
        requires
            10000 * own_share <= own_bps * balance,
            own_bps <= 10000,
            balance >= 0,
    ;
    assert(own_share <= u128::MAX);
    assert(own_share as u128 == own_share);
    let ps = split_payout(es, owner, balance);
    assert(ps.drop_last() =~= split_entries(es, owner, balance));
    assert(ps.last() == (owner, own_share as u128));
    assert(payout_sum(ps) == ssum + own_share);
    // both directions of the conservation bound
    assert(10000 * payout_sum(ps) <= (nb + own_bps) * balance) by (nonlinear_arith)
        requires
            payout_sum(ps) == ssum + own_share,
            10000 * ssum <= nb * balance,
            10000 * own_share <= own_bps * balance,
    ;
    assert((nb + own_bps) * balance == 10000 * balance) by (nonlinear_arith)
        requires
            nb + own_bps == 10000,
    ;
    assert(payout_sum(ps) <= balance);
    assert(10000 * balance <= 10000 * payout_sum(ps) + (nc + 1) * 9999) by (nonlinear_arith)
        requires
            payout_sum(ps) == ssum + own_share,
            nb * balance <= 10000 * ssum + nc * 9999,
            own_bps * balance <= 10000 * own_share + 9999,
            (nb + own_bps) * balance == 10000 * balance,
    ;
    assert(balance - nc <= payout_sum(ps)) by (nonlinear_arith)
        requires
            10000 * balance <= 10000 * payout_sum(ps) + (nc + 1) * 9999,
            nc >= 0,
    ;
}

/// The non-owner shares together stay within their basis points' worth of
/// the balance, to within one unit per share.
pub proof fn lemma_split_sum_bounds(es: Seq<(Seq<char>, u16)>, owner: Seq<char>, balance: int)
    requires
        balance >= 0,
        balance <= u128::MAX / 10000,
    ensures
        0 <= payout_sum(split_entries(es, owner, balance)),
        10000 * payout_sum(split_entries(es, owner, balance)) <= nonowner_bps(es, owner)
            * balance,
        nonowner_bps(es, owner) * balance <= 10000 * payout_sum(split_entries(es, owner, balance))
            + nonowner_count(es, owner) * 9999,
    decreases es.len(),
{
    if es.len() == 0 {
    } else {
        lemma_split_sum_bounds(es.drop_last(), owner, balance);
        let rest = split_entries(es.drop_last(), owner, balance);
        let rsum = payout_sum(rest);
        let rbps = nonowner_bps(es.drop_last(), owner);
        let rcnt = nonowner_count(es.drop_last(), owner);
        if es.last().0 == owner {
            assert(split_entries(es, owner, balance) == rest);
            assert(nonowner_bps(es, owner) == rbps);
            assert(nonowner_count(es, owner) == rcnt);
        } else {
            let bps = es.last().1 as int;
            let share = share_of(bps, balance);
            assert(10000 * share <= bps * balance && bps * balance < 10000 * share + 10000 && 0
                <= share) by (nonlinear_arith)
                requires
                    share == bps * balance / 10000,
                    balance >= 0,
                    bps >= 0,
            ;
            assert(share <= u128::MAX) by (nonlinear_arith)
                requires
                    10000 * share <= bps * balance,
                    bps <= 65535,
                    0 <= balance <= u128::MAX / 10000,
            ;
            assert(share as u128 == share);
            let full = split_entries(es, owner, balance);
            assert(full == rest.push((es.last().0, share as u128)));
            assert(full.drop_last() =~= rest);
            assert(full.last() == (es.last().0, share as u128));
            assert(payout_sum(full) == rsum + share);
            assert(nonowner_bps(es, owner) == rbps + bps);
            assert(nonowner_count(es, owner) == rcnt + 1);
            assert((rbps + bps) * balance == rbps * balance + bps * balance) by (nonlinear_arith);
            assert((rcnt + 1) * 9999 == rcnt * 9999 + 9999) by (nonlinear_arith);
            assert(bps * balance <= 10000 * share + 9999);
        }
    }
}

/// A royalty table's basis points sum the same whether taken from its
/// entry sequence or from its map and key order.
pub proof fn lemma_royalty_sums_agree(m: Map<Seq<char>, u16>, keys: Seq<Seq<char>>)
    ensures
        entries_bps_sum(royalty_entries(m, keys)) == crate::nft::metadata::royalty_bps_sum(
            m,
            keys,
        ),
    decreases keys.len(),
{
    if keys.len() > 0 {
        lemma_royalty_sums_agree(m, keys.drop_last());
        assert(royalty_entries(m, keys).drop_last() =~= royalty_entries(m, keys.drop_last()));
        assert(royalty_entries(m, keys).last() == (keys.last(), m[keys.last()]));
    }
}

/// The floor share of a basis-point weight, as the split grants it.
pub fn royalty_to_payout(royalty_percentage: u16, amount_to_pay: u128) -> (r: u128)
    requires
        royalty_percentage <= 10000,
        amount_to_pay <= u128::MAX / 10000,
    ensures
        r == share_of(royalty_percentage as int, amount_to_pay as int),
{
    proof {
        assert((royalty_percentage as u128) * amount_to_pay <= u128::MAX) by (nonlinear_arith)
            requires
                royalty_percentage <= 10000,
                amount_to_pay <= u128::MAX / 10000,
        ;
    }
    (royalty_percentage as u128) * amount_to_pay / 10000
}

/// Split a balance over a royalty table.
///
/// Every recipient but the owner receives the floor of its basis-point
/// share; the owner absorbs all remaining basis points and so all rounding
/// loss.  Fails with `TooManyRecipients` when the table exceeds the cap.
pub fn compute_payout(
    royalty: &StrMap<u16>,
    owner_id: &String,
    balance: u128,
    max_len_payout: u16,
) -> (r: Result<Payout, ContractError>)
    requires
        royalty.wf(),
        balance <= u128::MAX / 10000,
        entries_bps_sum(royalty_entries(royalty@, royalty.key_seq())) <= 10000,
        forall|i: int| 0 <= i < royalty.key_seq().len() ==> #[trigger] royalty@.contains_key(
            royalty.key_seq()[i],
        ),
    ensures
        ({
            let es = royalty_entries(royalty@, royalty.key_seq());
            match r {
                Ok(p) => es.len() <= max_len_payout && p.entries() == split_payout(
                    es,
                    owner_id@,
                    balance as int,
                ),
                Err(e) => e == ContractError::TooManyRecipients && es.len() > max_len_payout,
            }
        }),
{
    let ghost es = royalty_entries(royalty@, royalty.key_seq());
    let n = royalty.len();
    if n as u64 > max_len_payout as u64 {
        return Err(ContractError::TooManyRecipients);
    }
    let mut payout = Payout::new();
    let mut total_perpetual: u16 = 0;
    let mut i: usize = 0;
    while i < n
        invariant
            royalty.wf(),
            balance <= u128::MAX / 10000,
            es == royalty_entries(royalty@, royalty.key_seq()),
            entries_bps_sum(es) <= 10000,
            forall|j: int| 0 <= j < royalty.key_seq().len() ==> #[trigger] royalty@.contains_key(
                royalty.key_seq()[j],
            ),
            n == royalty.key_seq().len(),
            0 <= i <= n,
            total_perpetual == nonowner_bps(es.take(i as int), owner_id@),
            payout.entries() == split_entries(es.take(i as int), owner_id@, balance as int),
        decreases n - i,
    {
        let (key, bps) = royalty.entry_at(i);
        let ghost pe0 = payout.entries();
        proof {
            let ghost ki = royalty.key_seq()[i as int];
            assert(es[i as int] == (ki, royalty@[ki]));
            assert(es.take(i + 1).drop_last() =~= es.take(i as int));
            assert(es.take(i + 1).last() == es[i as int]);
            lemma_bps_prefix(es, i + 1);
            lemma_bps_prefix(es, i as int);
            lemma_nonowner_le_total(es.take(i + 1), owner_id@);
            lemma_nonowner_le_total(es.take(i as int), owner_id@);
            assert(entries_bps_sum(es.take(i + 1)) == entries_bps_sum(es.take(i as int))
                + es[i as int].1);
            assert(es[i as int].1 <= 10000) by {
                lemma_bps_nonneg(es.take(i as int));
            }
        }
        if !key.eq(owner_id) {
            let share = royalty_to_payout(*bps, balance);
            payout.payout.push((key.clone(), share));
            proof {
                assert(payout.entries() =~= pe0.push((key@, share)));
            }
            total_perpetual = total_perpetual + *bps;
        }
        i += 1;
    }
    proof {
        assert(es.take(n as int) =~= es);
        lemma_nonowner_le_total(es, owner_id@);
    }
    let ghost pe0 = payout.entries();
    let owner_share = royalty_to_payout(10000 - total_perpetual, balance);
    payout.payout.push((owner_id.clone(), owner_share));
    proof {
        assert(payout.entries() =~= pe0.push((owner_id@, owner_share)));
    }
    Ok(payout)
}

impl Contract {
    /// Preview the payout a sale of this asset would distribute for a
    /// balance, without touching any state.
    pub fn nft_payout(&self, token_id: &String, balance: u128, max_len_payout: u16) -> (r: Result<
        Payout,
        ContractError,
    >)
        requires
            self.wf(),
            balance <= u128::MAX / 10000,
        ensures
            match r {
                Ok(p) => {
                    &&& self.tokens_by_id@.contains_key(token_id@)
                    &&& ({
                        let tok = self.tokens_by_id@[token_id@];
                        tok.royalty_keys.len() <= max_len_payout && p.entries() == split_payout(
                            royalty_entries(tok.royalty, tok.royalty_keys),
                            tok.owner_id,
                            balance as int,
                        )
                    })
                },
                Err(e) => {
                    if !self.tokens_by_id@.contains_key(token_id@) {
                        e == ContractError::NotFound
                    } else {
                        e == ContractError::TooManyRecipients
                            && self.tokens_by_id@[token_id@].royalty_keys.len() > max_len_payout
                    }
                },
            },
    {
        let token = match self.tokens_by_id.get(token_id) {
            None => {
                return Err(ContractError::NotFound);
            },
            Some(t) => t,
        };
        proof {
            assert(self.token_entry_ok(token_id@));
            token.royalty.lemma_wf_keys();
            lemma_royalty_sums_agree(token.royalty@, token.royalty.key_seq());
            assert(crate::nft::metadata::token_view_wf(token@));
            assert forall|i: int| 0 <= i < token.royalty.key_seq().len()
                implies #[trigger] token.royalty@.contains_key(token.royalty.key_seq()[i]) by {
                assert(token@.royalty.contains_key(token@.royalty_keys[i]));
            }
        }
        compute_payout(&token.royalty, &token.owner_id, balance, max_len_payout)
    }

    /// Transfer an asset to a buyer and return the payout to distribute,
    /// the previous owner's rent refund for the cleared approvals, and the
    /// transfer event.
    ///
    /// The split is computed against the record as it was immediately
    /// before the move: the previous owner receives the remainder share.
    pub fn nft_transfer_payout(
        &mut self,
        sender_id: &String,
        receiver_id: &String,
        token_id: &String,
        approval_id: u64,
        memo: String,
        balance: u128,
        max_len_payout: u16,
    ) -> (r: Result<(Payout, Payment, EventLog), ContractError>)
        requires
            old(self).wf(),
            balance <= u128::MAX / 10000,
        ensures
            final(self).wf(),
            match r {
                Ok((p, refund, event)) => {
                    &&& old(self).tokens_by_id@.contains_key(token_id@)
                    &&& ({
                        let prev = old(self).tokens_by_id@[token_id@];
                        &&& prev.royalty_keys.len() <= max_len_payout
                        &&& p.entries() == split_payout(
                            royalty_entries(prev.royalty, prev.royalty_keys),
                            prev.owner_id,
                            balance as int,
                        )
                        &&& refund@.to == prev.owner_id
                        &&& refund@.amount == crate::nft::metadata::approvals_bytes(
                            prev.approved_keys,
                        ) * crate::effects::STORAGE_PRICE_PER_BYTE
                        &&& final(self).tokens_by_id@ == old(self).tokens_by_id@.insert(
                            token_id@,
                            TokenView {
                                owner_id: receiver_id@,
                                approved: Map::empty(),
                                approved_keys: Seq::empty(),
                                next_approval_id: prev.next_approval_id,
                                royalty: prev.royalty,
                                royalty_keys: prev.royalty_keys,
                            },
                        )
                        &&& (event.event matches crate::nft::events::EventLogVariant::NftTransfer(
                            logs,
                        ) && logs@.len() == 1 && logs@[0].old_owner_id@ == prev.owner_id
                            && logs@[0].new_owner_id@ == receiver_id@ && (
                        logs@[0].authorized_id matches Some(a) ==> a@ == sender_id@) && (
                        logs@[0].authorized_id is Some <==> sender_id@ != prev.owner_id))
                    })
                },
                Err(e) => *final(self) == *old(self) && (if !old(
                    self,
                ).tokens_by_id@.contains_key(token_id@) {
                    e == ContractError::NotFound
                } else if old(self).tokens_by_id@[token_id@].royalty_keys.len()
                    > max_len_payout {
                    e == ContractError::TooManyRecipients
                } else if sender_id@ != old(self).tokens_by_id@[token_id@].owner_id && !old(
                    self,
                ).tokens_by_id@[token_id@].approved.contains_key(sender_id@) {
                    e == ContractError::Unauthorized
                } else if sender_id@ != old(self).tokens_by_id@[token_id@].owner_id && old(
                    self,
                ).tokens_by_id@[token_id@].approved[sender_id@] != approval_id {
                    e == ContractError::ApprovalMismatch
                } else {
                    e == ContractError::SelfTransferRejected && receiver_id@ == old(
                        self,
                    ).tokens_by_id@[token_id@].owner_id
                }),
            },
    {
        let payout = match self.nft_payout(token_id, balance, max_len_payout) {
            Ok(p) => p,
            Err(e) => {
                return Err(e);
            },
        };
        let (prev, event) = match self.internal_transfer(
            sender_id,
            receiver_id,
            token_id,
            Some(approval_id),
            Some(memo),
        ) {
            Ok(x) => x,
            Err(e) => {
                return Err(e);
            },
        };
        proof {
            prev.approved_account_ids.lemma_wf_keys();
            assert(crate::nft::metadata::token_view_wf(prev@));
        }
        let refund = refund_approved_account_ids(prev.owner_id, &prev.approved_account_ids);
        Ok((payout, refund, event))
    }
}

} // verus!
