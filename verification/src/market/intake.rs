//! Listing approval intake: the notification a registry sends when a seller
//! approves the marketplace on an asset.

use vstd::prelude::*;
use crate::codec::parse_sale_args;
use crate::codec::sale_args_text;
use crate::errors::ContractError;
use crate::market::combined;
use crate::market::no_delim;
use crate::market::sale::Sale;
use crate::market::sale::SaleView;
use crate::market::sale_key;
use crate::market::Contract;
use crate::market::STORAGE_PER_SALE;
use crate::strkv::StrSet;

verus! {

/// The sale parameters a seller attaches to an approval.
pub struct SaleArgs {
    /// The asking price, in the smallest native unit.
    pub sale_conditions: u128,
}

impl SaleArgs {
    /// Parse a sale-parameters payload; `None` exactly when no price has
    /// this text.
    pub fn parse(msg: &str) -> (r: Option<SaleArgs>)
        ensures
            match r {
                Some(args) => msg@ == sale_args_text(args.sale_conditions),
                None => forall|price: u128| msg@ != sale_args_text(price),
            },
    {
        match parse_sale_args(msg) {
            Some(price) => Some(SaleArgs { sale_conditions: price }),
            None => None,
        }
    }
}

impl Contract {
    /// Publish a listing from a registry's "grant received" notification.
    ///
    /// The notification must arrive cross-contract (the registry and the
    /// signer are distinct accounts), the claimed owner must be the signer,
    /// the signer's prepaid rent must cover one listing beyond their current
    /// count, and the payload must parse; any failure leaves the store
    /// untouched.  On success the pair's listing — replacing a previous one,
    /// if any — carries the claimed owner, the granted approval sequence
    /// number and the payload's price.
    pub fn nft_on_approve(
        &mut self,
        token_id: String,
        owner_id: String,
        approval_id: u64,
        msg: &String,
        nft_contract_id: &String,
        signer_id: &String,
    ) -> (r: Result<(), ContractError>)
        requires
            old(self).wf(),
            no_delim(nft_contract_id@),
        ensures
            final(self).wf(),
            ({
                let key = combined(nft_contract_id@, token_id@);
                match r {
                    Ok(()) => {
                        &&& nft_contract_id@ != signer_id@
                        &&& owner_id@ == signer_id@
                        &&& old(self).deposit_of(signer_id@) >= (old(self).sale_count_of(
                            signer_id@,
                        ) + 1) * STORAGE_PER_SALE
                        &&& exists|price: u128|
                            msg@ == sale_args_text(price) && final(self).sales@ == old(
                                self,
                            ).sales@.insert(
                                key,
                                SaleView {
                                    owner_id: owner_id@,
                                    approval_id,
                                    nft_contract_id: nft_contract_id@,
                                    token_id: token_id@,
                                    sale_conditions: price,
                                },
                            )
                        &&& final(self).storage_deposits@ == old(self).storage_deposits@
                    },
                    Err(e) => {
                        &&& *final(self) == *old(self)
                        &&& if nft_contract_id@ == signer_id@ {
                            e == ContractError::DirectCallRejected
                        } else if owner_id@ != signer_id@ {
                            e == ContractError::OwnerMismatch
                        } else if old(self).deposit_of(signer_id@) < (old(self).sale_count_of(
                            signer_id@,
                        ) + 1) * STORAGE_PER_SALE {
                            e == ContractError::InsufficientRent
                        } else {
                            e == ContractError::MalformedSaleArgs && forall|price: u128|
                                msg@ != sale_args_text(price)
                        }
                    },
                }
            }),
    {
        if nft_contract_id.eq(signer_id) {
            return Err(ContractError::DirectCallRejected);
        }
        if !owner_id.eq(signer_id) {
            return Err(ContractError::OwnerMismatch);
        }
        // the signer must have prepaid rent for one extra listing
        let owner_paid_storage = self.storage_balance_of(signer_id);
        let current: usize = match self.by_owner_id.get(signer_id) {
            Some(s) => s.len(),
            None => 0,
        };
        let required = match (current as u128).checked_add(1) {
            Some(n) => n.checked_mul(STORAGE_PER_SALE),
            None => None,
        };
        let required = match required {
            Some(req) => req,
            None => {
                return Err(ContractError::InsufficientRent);
            },
        };
        if owner_paid_storage < required {
            return Err(ContractError::InsufficientRent);
        }
        // fail closed on the payload before touching any state
        let price = match parse_sale_args(msg.as_str()) {
            Some(price) => price,
            None => {
                return Err(ContractError::MalformedSaleArgs);
            },
        };
        let key = sale_key(nft_contract_id, &token_id);
        let ghost m0 = *old(self);
        let ghost kk = combined(nft_contract_id@, token_id@);
        // a fresh listing replaces any previous listing of the same pair
        if self.sales.contains_key(&key) {
            let removed = self.internal_remove_sale(nft_contract_id, &token_id);
            proof {
                assert(removed is Ok);
            }
        }
        let ghost mid = *self;
        let mut ks = match self.by_owner_id.get(&owner_id) {
            Some(s) => s.duplicate(),
            None => StrSet::new(),
        };
        let ghost ks0 = ks@;
        proof {
            if mid.by_owner_id@.contains_key(owner_id@) {
                assert(mid.owner_entry_ok(owner_id@));
                if ks0.contains(kk) {
                    let j = choose|j: int| 0 <= j < ks0.len() && ks0[j] == kk;
                    assert(mid.sales_has_owned(ks0[j], owner_id@));
                    assert(false);
                }
            }
            assert(!ks0.contains(kk));
        }
        ks.insert(key.clone());
        let ghost ks1 = ks@;
        self.by_owner_id.insert(owner_id.clone(), ks);
        let mut ts = match self.by_nft_contract_id.get(nft_contract_id) {
            Some(s) => s.duplicate(),
            None => StrSet::new(),
        };
        let ghost ts0 = ts@;
        proof {
            if mid.by_nft_contract_id@.contains_key(nft_contract_id@) {
                assert(mid.registry_entry_ok(nft_contract_id@));
                if ts0.contains(token_id@) {
                    let j = choose|j: int| 0 <= j < ts0.len() && ts0[j] == token_id@;
                    assert(mid.registry_entry_live(nft_contract_id@, ts0[j]));
                    assert(false);
                }
            }
            assert(!ts0.contains(token_id@));
        }
        ts.insert(token_id.clone());
        let ghost ts1 = ts@;
        self.by_nft_contract_id.insert(nft_contract_id.clone(), ts);
        let sale = Sale {
            owner_id,
            approval_id,
            nft_contract_id: nft_contract_id.clone(),
            token_id,
            sale_conditions: price,
        };
        let ghost sv = sale@;
        self.sales.insert(key, sale);
        proof {
            let m1 = *self;
            assert(m1.sales@ == mid.sales@.insert(kk, sv));
            assert(!mid.sales@.contains_key(kk));
            assert(m1.sales@ == m0.sales@.insert(kk, sv)) by {
                assert(m1.sales@ =~= m0.sales@.insert(kk, sv));
            }
            // every listing agrees with its indices
            assert forall|k: Seq<char>| #[trigger] m1.sales@.contains_key(k)
                implies m1.sale_entry_ok(k) by {
                if k == kk {
                    assert(m1.sales@[k] == sv);
                    assert(m1.by_owner_id@.contains_key(sv.owner_id));
                    assert(m1.by_owner_id@[sv.owner_id] == ks1);
                    assert(ks1 == ks0.push(kk));
                    assert(ks1[ks0.len() as int] == kk);
                    assert(ks1.contains(kk));
                    assert(m1.by_nft_contract_id@[sv.nft_contract_id] == ts1);
                    assert(ts1 == ts0.push(sv.token_id));
                    assert(ts1[ts0.len() as int] == sv.token_id);
                    assert(ts1.contains(sv.token_id));
                } else {
                    assert(mid.sales@.contains_key(k));
                    assert(mid.sale_entry_ok(k));
                    let s = m1.sales@[k];
                    assert(s == mid.sales@[k]);
                    if s.owner_id == sv.owner_id {
                        assert(mid.by_owner_id@[s.owner_id].contains(k));
                        assert(ks0 == mid.by_owner_id@[s.owner_id]);
                        let j = choose|j: int| 0 <= j < ks0.len() && ks0[j] == k;
                        assert(ks1[j] == k);
                        assert(ks1.contains(k));
                    } else {
                        assert(m1.by_owner_id@[s.owner_id] == mid.by_owner_id@[s.owner_id]);
                    }
                    if s.nft_contract_id == sv.nft_contract_id {
                        assert(mid.by_nft_contract_id@[s.nft_contract_id].contains(s.token_id));
                        assert(ts0 == mid.by_nft_contract_id@[s.nft_contract_id]);
                        let j = choose|j: int| 0 <= j < ts0.len() && ts0[j] == s.token_id;
                        assert(ts1[j] == s.token_id);
                        assert(ts1.contains(s.token_id));
                    } else {
                        assert(m1.by_nft_contract_id@[s.nft_contract_id]
                            == mid.by_nft_contract_id@[s.nft_contract_id]);
                    }
                }
            }
            // every owner-index entry lists live sales of that owner
            assert forall|o: Seq<char>| #[trigger] m1.by_owner_id@.contains_key(o)
                implies m1.owner_entry_ok(o) by {
                let ks = m1.by_owner_id@[o];
                if o == sv.owner_id {
                    assert(ks == ks1);
                    assert(crate::market::set_distinct(ks1));
                    assert forall|i: int| 0 <= i < ks.len() implies #[trigger] m1.sales_has_owned(
                        ks[i],
                        o,
                    ) by {
                        if ks[i] == kk {
                            assert(m1.sales@[kk] == sv);
                        } else {
                            assert(i < ks0.len());
                            assert(ks0[i] == ks[i]);
                            assert(ks0.contains(ks[i]));
                            assert(mid.by_owner_id@.contains_key(o));
                            assert(mid.owner_entry_ok(o));
                            assert(mid.sales_has_owned(ks0[i], o));
                        }
                    }
                } else {
                    assert(mid.by_owner_id@.contains_key(o));
                    assert(mid.owner_entry_ok(o));
                    assert(ks == mid.by_owner_id@[o]);
                    assert forall|i: int| 0 <= i < ks.len() implies #[trigger] m1.sales_has_owned(
                        ks[i],
                        o,
                    ) by {
                        assert(mid.sales_has_owned(ks[i], o));
                        assert(ks[i] != kk);
                    }
                }
            }
            // every registry-index entry lists live listings
            assert forall|c: Seq<char>| #[trigger] m1.by_nft_contract_id@.contains_key(c)
                implies m1.registry_entry_ok(c) by {
                let ts = m1.by_nft_contract_id@[c];
                if c == sv.nft_contract_id {
                    assert(ts == ts1);
                    assert forall|i: int| 0 <= i
                        < ts.len() implies #[trigger] m1.registry_entry_live(c, ts[i]) by {
                        if ts[i] == sv.token_id {
                            assert(m1.sales@[kk] == sv);
                        } else {
                            assert(i < ts0.len());
                            assert(ts0[i] == ts[i]);
                            assert(ts0.contains(ts[i]));
                            assert(mid.by_nft_contract_id@.contains_key(c));
                            assert(mid.registry_entry_ok(c));
                            assert(mid.registry_entry_live(c, ts0[i]));
                            assert(combined(c, ts[i]) != kk) by {
                                if combined(c, ts[i]) == kk {
                                    crate::market::lemma_combined_injective(
                                        c,
                                        ts[i],
                                        sv.nft_contract_id,
                                        sv.token_id,
                                    );
                                }
                            }
                        }
                    }
                } else {
                    assert(mid.by_nft_contract_id@.contains_key(c));
                    assert(mid.registry_entry_ok(c));
                    assert(ts == mid.by_nft_contract_id@[c]);
                    assert forall|i: int| 0 <= i
                        < ts.len() implies #[trigger] m1.registry_entry_live(c, ts[i]) by {
                        assert(mid.registry_entry_live(c, ts[i]));
                        assert(combined(c, ts[i]) != kk) by {
                            if combined(c, ts[i]) == kk {
                                crate::market::lemma_combined_injective(
                                    c,
                                    ts[i],
                                    sv.nft_contract_id,
                                    sv.token_id,
                                );
                            }
                        }
                    }
                }
            }
            // the signer prepaid rent for the grown count; others are unchanged
            assert forall|o: Seq<char>| #[trigger] m1.by_owner_id@.contains_key(o)
                implies m1.by_owner_id@[o].len() * STORAGE_PER_SALE <= m1.deposit_of(o) by {
                assert(m1.deposit_of(o) == mid.deposit_of(o));
                assert(mid.deposit_of(o) == m0.deposit_of(o));
                if o == sv.owner_id {
                    assert(m1.by_owner_id@[o] == ks1);
                    assert(ks1.len() == ks0.len() + 1);
                    assert(ks0.len() == mid.sale_count_of(o));
                    assert(mid.sale_count_of(o) <= m0.sale_count_of(o));
                    assert((m0.sale_count_of(o) + 1) * STORAGE_PER_SALE <= m0.deposit_of(o));
                    assert(ks1.len() * STORAGE_PER_SALE <= (m0.sale_count_of(o) + 1)
                        * STORAGE_PER_SALE) by (nonlinear_arith)
                        requires
                            ks1.len() <= m0.sale_count_of(o) + 1,
                            STORAGE_PER_SALE > 0,
                    ;
                } else {
                    assert(mid.by_owner_id@.contains_key(o));
                    assert(m1.by_owner_id@[o] == mid.by_owner_id@[o]);
                    assert(mid.by_owner_id@[o].len() * STORAGE_PER_SALE <= mid.deposit_of(o));
                }
            }
        }
        Ok(())
    }
}

} // verus!
