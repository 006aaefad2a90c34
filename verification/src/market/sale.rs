//! Listings, and the purchase settlement saga.

use vstd::prelude::*;
use vstd::string::StringExecFns;
use crate::codec::lemma_payout_text_injective;
use crate::codec::payout_text;
use crate::codec::valid_accounts;
use crate::effects::payments_entries;
use crate::effects::Payment;
use crate::errors::ContractError;
use crate::market::combined;
use crate::market::lemma_combined_injective;
use crate::market::no_delim;
use crate::market::sale_key;
use crate::market::Contract;
use crate::market::STORAGE_PER_SALE;
use crate::payout::payout_ok;
use crate::payout::Payout;
use crate::strkv::StrSet;

verus! {

/// An active sale record for one asset at one price.
pub struct Sale {
    /// The seller: the asset's owner when the listing was made.
    pub owner_id: String,
    /// The approval sequence number the seller granted the marketplace.
    pub approval_id: u64,
    /// The registry that owns the asset.
    pub nft_contract_id: String,
    /// The asset's id within its registry.
    pub token_id: String,
    /// The asking price, in the smallest native unit.
    pub sale_conditions: u128,
}

/// The mathematical value of a listing.
pub ghost struct SaleView {
    /// The seller.
    pub owner_id: Seq<char>,
    /// The approval sequence number granted to the marketplace.
    pub approval_id: u64,
    /// The owning registry.
    pub nft_contract_id: Seq<char>,
    /// The asset id.
    pub token_id: Seq<char>,
    /// The asking price.
    pub sale_conditions: u128,
}

impl View for Sale {
    type V = SaleView;

    open spec fn view(&self) -> SaleView {
        SaleView {
            owner_id: self.owner_id@,
            approval_id: self.approval_id,
            nft_contract_id: self.nft_contract_id@,
            token_id: self.token_id@,
            sale_conditions: self.sale_conditions,
        }
    }
}

impl Sale {
    /// An owned copy of this listing.
    pub fn duplicate(&self) -> (r: Sale)
        ensures
            r@ == self@,
    {
        Sale {
            owner_id: self.owner_id.clone(),
            approval_id: self.approval_id,
            nft_contract_id: self.nft_contract_id.clone(),
            token_id: self.token_id.clone(),
            sale_conditions: self.sale_conditions,
        }
    }
}

impl Contract {
    /// Remove a listing and its two index entries in one logical step.
    ///
    /// Returns the removed listing, or `NotFound` (and an untouched store)
    /// if the pair has no active listing.
    pub fn internal_remove_sale(&mut self, nft_contract_id: &String, token_id: &String) -> (r:
        Result<Sale, ContractError>)
        requires
            old(self).wf(),
            no_delim(nft_contract_id@),
        ensures
            final(self).wf(),
            match r {
                Ok(sale) => old(self).sales@.contains_key(combined(nft_contract_id@, token_id@))
                    && sale@ == old(self).sales@[combined(nft_contract_id@, token_id@)]
                    && sale@.nft_contract_id == nft_contract_id@ && sale@.token_id == token_id@
                    && final(self).sales@ == old(self).sales@.remove(
                    combined(nft_contract_id@, token_id@),
                ) && final(self).storage_deposits@ == old(self).storage_deposits@ && final(self).owner_id == old(self).owner_id && final(self).sale_count_of(sale@.owner_id) == old(
                    self,
                ).sale_count_of(sale@.owner_id) - 1 && (forall|o: Seq<char>|
                    o != sale@.owner_id ==> final(self).sale_count_of(o) == old(
                        self,
                    ).sale_count_of(o)),
                Err(e) => e == ContractError::NotFound && !old(self).sales@.contains_key(
                    combined(nft_contract_id@, token_id@),
                ) && *final(self) == *old(self),
            },
    {
        let key = sale_key(nft_contract_id, token_id);
        let ghost m0 = *old(self);
        let ghost kk = combined(nft_contract_id@, token_id@);
        let sale = match self.sales.remove(&key) {
            Some(s) => s,
            None => {
                return Err(ContractError::NotFound);
            },
        };
        let ghost sv = m0.sales@[kk];
        proof {
            assert(m0.sale_entry_ok(kk));
            lemma_combined_injective(
                sv.nft_contract_id,
                sv.token_id,
                nft_contract_id@,
                token_id@,
            );
        }
        // shrink the owner index
        let mut ks = match self.by_owner_id.get(&sale.owner_id) {
            Some(s) => s.duplicate(),
            None => {
                proof {
                    assert(false);
                }
                StrSet::new()
            },
        };
        let ghost ks0 = ks@;
        ks.remove(&key);
        let ghost ks1 = ks@;
        if ks.is_empty() {
            self.by_owner_id.remove(&sale.owner_id);
        } else {
            self.by_owner_id.insert(sale.owner_id.clone(), ks);
        }
        // shrink the registry index
        let mut ts = match self.by_nft_contract_id.get(&sale.nft_contract_id) {
            Some(s) => s.duplicate(),
            None => {
                proof {
                    assert(false);
                }
                StrSet::new()
            },
        };
        let ghost ts0 = ts@;
        ts.remove(&sale.token_id);
        let ghost ts1 = ts@;
        if ts.is_empty() {
            self.by_nft_contract_id.remove(&sale.nft_contract_id);
        } else {
            self.by_nft_contract_id.insert(sale.nft_contract_id.clone(), ts);
        }
        proof {
            let m1 = *self;
            assert(ks0 == m0.by_owner_id@[sv.owner_id]);
            assert(ts0 == m0.by_nft_contract_id@[sv.nft_contract_id]);
            // the primary map lost exactly this key
            assert(m1.sales@ == m0.sales@.remove(kk));
            // every remaining listing still agrees with its indices
            assert forall|k: Seq<char>| #[trigger] m1.sales@.contains_key(k)
                implies m1.sale_entry_ok(k) by {
                assert(m0.sales@.contains_key(k) && k != kk);
                assert(m0.sale_entry_ok(k));
                let s = m1.sales@[k];
                assert(s == m0.sales@[k]);
                if s.owner_id == sv.owner_id {
                    assert(ks0.contains(k));
                    assert(ks1.contains(k));
                    assert(ks1.len() >= 1);
                } else {
                    assert(m1.by_owner_id@.contains_key(s.owner_id));
                    assert(m1.by_owner_id@[s.owner_id] == m0.by_owner_id@[s.owner_id]);
                }
                if s.nft_contract_id == sv.nft_contract_id {
                    assert(ts0.contains(s.token_id));
                    if s.token_id == sv.token_id {
                        assert(k == combined(sv.nft_contract_id, sv.token_id));
                        assert(false);
                    }
                    assert(ts1.contains(s.token_id));
                    assert(ts1.len() >= 1);
                } else {
                    assert(m1.by_nft_contract_id@.contains_key(s.nft_contract_id));
                    assert(m1.by_nft_contract_id@[s.nft_contract_id]
                        == m0.by_nft_contract_id@[s.nft_contract_id]);
                }
            }
            // every owner-index entry still lists live sales of that owner
            assert forall|o: Seq<char>| #[trigger] m1.by_owner_id@.contains_key(o)
                implies m1.owner_entry_ok(o) by {
                assert(m0.by_owner_id@.contains_key(o));
                assert(m0.owner_entry_ok(o));
                let ks = m1.by_owner_id@[o];
                assert forall|i: int| 0 <= i < ks.len() implies #[trigger] m1.sales_has_owned(
                    ks[i],
                    o,
                ) by {
                    let x = ks[i];
                    if o == sv.owner_id {
                        assert(ks == ks1);
                        assert(ks1.contains(x));
                        assert(ks0.contains(x) && x != kk);
                        let j = choose|j: int| 0 <= j < ks0.len() && ks0[j] == x;
                        assert(m0.sales_has_owned(ks0[j], o));
                    } else {
                        assert(ks == m0.by_owner_id@[o]);
                        assert(m0.sales_has_owned(x, o));
                        assert(m0.sales@[x].owner_id == o);
                        assert(m0.sales@[kk].owner_id == sv.owner_id);
                        assert(x != kk);
                    }
                }
                if o == sv.owner_id {
                    assert(ks == ks1);
                    assert(crate::market::set_distinct(ks1));
                } else {
                    assert(ks == m0.by_owner_id@[o]);
                }
            }
            // every registry-index entry still lists live listings
            assert forall|c: Seq<char>| #[trigger] m1.by_nft_contract_id@.contains_key(c)
                implies m1.registry_entry_ok(c) by {
                assert(m0.by_nft_contract_id@.contains_key(c));
                assert(m0.registry_entry_ok(c));
                let ts = m1.by_nft_contract_id@[c];
                assert forall|i: int| 0 <= i < ts.len() implies #[trigger] m1.registry_entry_live(
                    c,
                    ts[i],
                ) by {
                    let t = ts[i];
                    if c == sv.nft_contract_id {
                        assert(ts == ts1);
                        assert(ts1.contains(t));
                        assert(ts0.contains(t) && t != sv.token_id);
                        let j = choose|j: int| 0 <= j < ts0.len() && ts0[j] == t;
                        assert(m0.registry_entry_live(c, ts0[j]));
                        assert(combined(c, t) != kk);
                    } else {
                        assert(ts == m0.by_nft_contract_id@[c]);
                        assert(m0.registry_entry_live(c, t));
                        if combined(c, t) == kk {
                            lemma_combined_injective(c, t, sv.nft_contract_id, sv.token_id);
                            assert(false);
                        }
                    }
                }
            }
            // rent cover only loosens when a listing goes away
            assert forall|o: Seq<char>| #[trigger] m1.by_owner_id@.contains_key(o)
                implies m1.by_owner_id@[o].len() * STORAGE_PER_SALE <= m1.deposit_of(o) by {
                assert(m0.by_owner_id@.contains_key(o));
                assert(m0.by_owner_id@[o].len() * STORAGE_PER_SALE <= m0.deposit_of(o));
                if o == sv.owner_id {
                    assert(ks0.contains(kk));
                    assert(m1.by_owner_id@[o].len() == ks0.len() - 1);
                }
            }
        }
        Ok(sale)
    }

    /// Remove a listing at its owner's request.
    ///
    /// Fails with `NotFound` if the pair has no listing, and with
    /// `Unauthorized` if the caller is not the listing's owner; either way
    /// the store is untouched.
    pub fn remove_sale(&mut self, nft_contract_id: &String, token_id: &String, caller: &String)
        -> (r: Result<Sale, ContractError>)
        requires
            old(self).wf(),
            no_delim(nft_contract_id@),
        ensures
            final(self).wf(),
            match r {
                Ok(sale) => old(self).sales@.contains_key(combined(nft_contract_id@, token_id@))
                    && sale@ == old(self).sales@[combined(nft_contract_id@, token_id@)]
                    && sale@.owner_id == caller@ && final(self).sales@ == old(self).sales@.remove(combined(nft_contract_id@, token_id@)) && final(self).storage_deposits@ == old(self).storage_deposits@,
                Err(e) => *final(self) == *old(self) && (if !old(self).sales@.contains_key(
                    combined(nft_contract_id@, token_id@),
                ) {
                    e == ContractError::NotFound
                } else {
                    e == ContractError::Unauthorized && old(self).sales@[combined(
                        nft_contract_id@,
                        token_id@,
                    )].owner_id != caller@
                }),
            },
    {
        let key = sale_key(nft_contract_id, token_id);
        let authorized = match self.sales.get(&key) {
            None => {
                return Err(ContractError::NotFound);
            },
            Some(sale) => sale.owner_id.eq(caller),
        };
        if !authorized {
            return Err(ContractError::Unauthorized);
        }
        self.internal_remove_sale(nft_contract_id, token_id)
    }

    /// Update a listing's price in place, at its owner's request.
    pub fn update_price(
        &mut self,
        nft_contract_id: &String,
        token_id: &String,
        price: u128,
        caller: &String,
    ) -> (r: Result<(), ContractError>)
        requires
            old(self).wf(),
            no_delim(nft_contract_id@),
        ensures
            final(self).wf(),
            match r {
                Ok(()) => old(self).sales@.contains_key(combined(nft_contract_id@, token_id@))
                    && old(self).sales@[combined(nft_contract_id@, token_id@)].owner_id == caller@
                    && final(self).sales@ == old(self).sales@.insert(
                    combined(nft_contract_id@, token_id@),
                    SaleView {
                        sale_conditions: price,
                        ..old(self).sales@[combined(nft_contract_id@, token_id@)]
                    },
                ) && final(self).by_owner_id@ == old(self).by_owner_id@ && final(self).by_nft_contract_id@ == old(self).by_nft_contract_id@ && final(self).storage_deposits@ == old(self).storage_deposits@,
                Err(e) => *final(self) == *old(self) && (if !old(self).sales@.contains_key(
                    combined(nft_contract_id@, token_id@),
                ) {
                    e == ContractError::NotFound
                } else {
                    e == ContractError::Unauthorized && old(self).sales@[combined(
                        nft_contract_id@,
                        token_id@,
                    )].owner_id != caller@
                }),
            },
    {
        let key = sale_key(nft_contract_id, token_id);
        let ghost m0 = *old(self);
        let ghost kk = combined(nft_contract_id@, token_id@);
        let mut sale = match self.sales.get(&key) {
            None => {
                return Err(ContractError::NotFound);
            },
            Some(sale) => sale.duplicate(),
        };
        if !sale.owner_id.eq(caller) {
            return Err(ContractError::Unauthorized);
        }
        sale.sale_conditions = price;
        self.sales.insert(key, sale);
        proof {
            let m1 = *self;
            assert(m0.sale_entry_ok(kk));
            assert forall|k: Seq<char>| #[trigger] m1.sales@.contains_key(k)
                implies m1.sale_entry_ok(k) by {
                assert(m0.sales@.contains_key(k));
                assert(m0.sale_entry_ok(k));
                assert(m1.sales@[k].owner_id == m0.sales@[k].owner_id);
                assert(m1.sales@[k].nft_contract_id == m0.sales@[k].nft_contract_id);
                assert(m1.sales@[k].token_id == m0.sales@[k].token_id);
            }
            assert forall|o: Seq<char>| #[trigger] m1.by_owner_id@.contains_key(o)
                implies m1.owner_entry_ok(o) by {
                assert(m0.owner_entry_ok(o));
                let ks = m1.by_owner_id@[o];
                assert forall|i: int| 0 <= i < ks.len() implies #[trigger] m1.sales_has_owned(
                    ks[i],
                    o,
                ) by {
                    assert(m0.sales_has_owned(ks[i], o));
                }
            }
            assert forall|c: Seq<char>| #[trigger] m1.by_nft_contract_id@.contains_key(c)
                implies m1.registry_entry_ok(c) by {
                assert(m0.registry_entry_ok(c));
                let ts = m1.by_nft_contract_id@[c];
                assert forall|i: int| 0 <= i < ts.len() implies #[trigger] m1.registry_entry_live(
                    c,
                    ts[i],
                ) by {
                    assert(m0.registry_entry_live(c, ts[i]));
                }
            }
        }
        Ok(())
    }
}

/// The remote transfer-and-payout request an accepted offer schedules, with
/// the context its resolution callback needs.
pub struct PurchaseRequest {
    /// The registry to call.
    pub nft_contract_id: String,
    /// The asset to transfer.
    pub token_id: String,
    /// The approval sequence number the seller granted the marketplace.
    pub approval_id: u64,
    /// The memo carried by the transfer.
    pub memo: String,
    /// The offered amount: the royalty-split base, and the refund on failure.
    pub price: u128,
    /// The hard cap on payout recipients.
    pub max_len_payout: u32,
    /// The buyer: receiver of the asset and of any refund.
    pub buyer_id: String,
}

/// How a purchase attempt ends once the registry has responded.
pub enum Settlement {
    /// The payout held: pay every recipient its listed amount.
    Settled {
        /// One payment per payout recipient, in payout order.
        payments: Vec<Payment>,
    },
    /// The response was missing, unparsable or in breach of the payout
    /// invariant: return the full offered amount to the buyer.
    Refunded {
        /// The buyer's refund.
        payment: Payment,
    },
}

impl Contract {
    /// Remove the listing and describe the transfer-and-payout request to
    /// send to the owning registry.
    pub fn process_purchase(
        &mut self,
        nft_contract_id: &String,
        token_id: &String,
        price: u128,
        buyer_id: &String,
    ) -> (r: Result<PurchaseRequest, ContractError>)
        requires
            old(self).wf(),
            no_delim(nft_contract_id@),
        ensures
            final(self).wf(),
            match r {
                Ok(req) => {
                    &&& old(self).sales@.contains_key(combined(nft_contract_id@, token_id@))
                    &&& final(self).sales@ == old(self).sales@.remove(
                        combined(nft_contract_id@, token_id@),
                    )
                    &&& final(self).storage_deposits@ == old(self).storage_deposits@
                    &&& req.nft_contract_id@ == nft_contract_id@
                    &&& req.token_id@ == token_id@
                    &&& req.approval_id == old(self).sales@[combined(
                        nft_contract_id@,
                        token_id@,
                    )].approval_id
                    &&& req.memo@ == "payout from market"@
                    &&& req.price == price
                    &&& req.max_len_payout == 10
                    &&& req.buyer_id@ == buyer_id@
                },
                Err(e) => e == ContractError::NotFound && !old(self).sales@.contains_key(
                    combined(nft_contract_id@, token_id@),
                ) && *final(self) == *old(self),
            },
    {
        let sale = match self.internal_remove_sale(nft_contract_id, token_id) {
            Ok(sale) => sale,
            Err(e) => {
                return Err(e);
            },
        };
        Ok(
            PurchaseRequest {
                nft_contract_id: sale.nft_contract_id,
                token_id: sale.token_id,
                approval_id: sale.approval_id,
                memo: String::from_str("payout from market"),
                price,
                max_len_payout: 10,
                buyer_id: buyer_id.clone(),
            },
        )
    }

    /// Place an offer on a listing.
    ///
    /// Rejects a missing listing, a buyer who is the seller, and a zero
    /// attachment or one below the asking price, leaving the store
    /// untouched.  On success the listing is removed at once — the same pair
    /// cannot be bought twice: any later offer on it fails with `NotFound` —
    /// and the returned request is handed to the registry.
    pub fn offer(
        &mut self,
        nft_contract_id: &String,
        token_id: &String,
        deposit: u128,
        buyer_id: &String,
    ) -> (r: Result<PurchaseRequest, ContractError>)
        requires
            old(self).wf(),
            no_delim(nft_contract_id@),
        ensures
            final(self).wf(),
            ({
                let key = combined(nft_contract_id@, token_id@);
                match r {
                    Ok(req) => {
                        &&& deposit > 0
                        &&& old(self).sales@.contains_key(key)
                        &&& old(self).sales@[key].owner_id != buyer_id@
                        &&& deposit >= old(self).sales@[key].sale_conditions
                        &&& final(self).sales@ == old(self).sales@.remove(key)
                        &&& !final(self).sales@.contains_key(key)
                        &&& final(self).storage_deposits@ == old(self).storage_deposits@
                        &&& req.nft_contract_id@ == nft_contract_id@
                        &&& req.token_id@ == token_id@
                        &&& req.approval_id == old(self).sales@[key].approval_id
                        &&& req.memo@ == "payout from market"@
                        &&& req.price == deposit
                        &&& req.max_len_payout == 10
                        &&& req.buyer_id@ == buyer_id@
                    },
                    Err(e) => {
                        &&& *final(self) == *old(self)
                        &&& if !old(self).sales@.contains_key(key) {
                            e == ContractError::NotFound
                        } else if old(self).sales@[key].owner_id == buyer_id@ {
                            e == ContractError::SelfPurchaseRejected
                        } else {
                            e == ContractError::InsufficientOffer && (deposit == 0 || deposit
                                < old(self).sales@[key].sale_conditions)
                        }
                    },
                }
            }),
    {
        let key = sale_key(nft_contract_id, token_id);
        let (self_purchase, price) = match self.sales.get(&key) {
            None => {
                return Err(ContractError::NotFound);
            },
            Some(sale) => (sale.owner_id.eq(buyer_id), sale.sale_conditions),
        };
        if self_purchase {
            return Err(ContractError::SelfPurchaseRejected);
        }
        if deposit == 0 || deposit < price {
            return Err(ContractError::InsufficientOffer);
        }
        self.process_purchase(nft_contract_id, token_id, deposit, buyer_id)
    }

    /// Resolve a purchase attempt from the registry's response.
    ///
    /// Settles — paying each payout recipient its listed amount — exactly
    /// when the response is the canonical text of a payout that satisfies
    /// the payout invariant for the offered amount; otherwise refunds the
    /// buyer in full.  The asset transfer the registry already performed is
    /// not rolled back either way.
    pub fn resolve_purchase(
        &self,
        buyer_id: &String,
        price: u128,
        remote_result: Option<&String>,
    ) -> (r: Settlement)
        ensures
            match r {
                Settlement::Settled { payments } => {
                    &&& valid_accounts(payments_entries(payments@))
                    &&& payout_ok(payments_entries(payments@), price as int)
                    &&& match remote_result {
                        Some(s) => s@ == payout_text(payments_entries(payments@)),
                        None => false,
                    }
                },
                Settlement::Refunded { payment } => {
                    &&& payment.to@ == buyer_id@
                    &&& payment.amount == price
                    &&& match remote_result {
                        None => true,
                        Some(s) => forall|es: Seq<(Seq<char>, u128)>|
                            valid_accounts(es) && payout_ok(es, price as int) ==> s@
                                != payout_text(es),
                    }
                },
            },
    {
        let response = match remote_result {
            None => {
                return Settlement::Refunded {
                    payment: Payment { to: buyer_id.clone(), amount: price },
                };
            },
            Some(s) => s,
        };
        let parsed = match Payout::parse(response.as_str()) {
            None => {
                return Settlement::Refunded {
                    payment: Payment { to: buyer_id.clone(), amount: price },
                };
            },
            Some(p) => p,
        };
        if !parsed.check(price) {
            proof {
                assert forall|es: Seq<(Seq<char>, u128)>|
                    valid_accounts(es) && payout_ok(es, price as int) implies response@
                    != payout_text(es) by {
                    if response@ == payout_text(es) {
                        lemma_payout_text_injective(es, parsed.entries());
                    }
                }
            }
            return Settlement::Refunded {
                payment: Payment { to: buyer_id.clone(), amount: price },
            };
        }
        let mut payments: Vec<Payment> = Vec::new();
        let mut i: usize = 0;
        while i < parsed.payout.len()
            invariant
                0 <= i <= parsed.payout@.len(),
                payments@.len() == i,
                forall|j: int|
                    0 <= j < i ==> (#[trigger] payments@[j]).to@ == parsed.payout@[j].0@
                        && payments@[j].amount == parsed.payout@[j].1,
            decreases parsed.payout@.len() - i,
        {
            let to = parsed.payout[i].0.clone();
            let amount = parsed.payout[i].1;
            payments.push(Payment { to, amount });
            i += 1;
        }
        proof {
            assert(payments_entries(payments@) =~= parsed.entries());
        }
        Settlement::Settled { payments }
    }
}

/// Law: once an offer has removed a listing, the pair has no listing, so a
/// second `offer` on the same pair — whatever its attachment — must return
/// `NotFound` with the store untouched, by `offer`'s contract, which returns
/// `NotFound` exactly when the key is absent.
pub proof fn lemma_no_double_sale(
    pre: Contract,
    mid: Contract,
    nft_contract_id: Seq<char>,
    token_id: Seq<char>,
)
    requires
        mid.sales@ == pre.sales@.remove(combined(nft_contract_id, token_id)),
    ensures
        !mid.sales@.contains_key(combined(nft_contract_id, token_id)),
{
}

} // verus!
