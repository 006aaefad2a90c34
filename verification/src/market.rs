//! The marketplace ledger: active listings, their two secondary indices,
//! and the prepaid storage-rent balances that gate every state-growing call.

pub mod intake;
pub mod sale;
pub mod views;

use vstd::prelude::*;
use vstd::string::StringExecFns;
use crate::effects::STORAGE_PRICE_PER_BYTE;
use crate::effects::Payment;
use crate::errors::ContractError;
use crate::market::sale::Sale;
use crate::market::sale::SaleView;
use crate::strkv::StrMap;
use crate::strkv::StrSet;

verus! {

/// The rent one active listing must keep prepaid.
pub const STORAGE_PER_SALE: u128 = 1000 * STORAGE_PRICE_PER_BYTE;

/// The reserved separator between a registry id and an asset id inside a
/// listing's primary key.  No valid registry id contains it.
pub open spec fn delim() -> Seq<char> {
    seq!['_']
}

/// A listing's primary key: the registry id, the separator, the asset id.
pub open spec fn combined(c: Seq<char>, t: Seq<char>) -> Seq<char> {
    c + delim() + t
}

/// Whether a text is free of the reserved separator.
pub open spec fn no_delim(s: Seq<char>) -> bool {
    forall|i: int| 0 <= i < s.len() ==> s[i] != '_'
}

/// Separator-free registry ids make the primary key injective.
pub proof fn lemma_combined_injective(c1: Seq<char>, t1: Seq<char>, c2: Seq<char>, t2: Seq<char>)
    requires
        no_delim(c1),
        no_delim(c2),
        combined(c1, t1) == combined(c2, t2),
    ensures
        c1 == c2,
        t1 == t2,
{
    let s = combined(c1, t1);
    assert(s[c1.len() as int] == '_');
    assert(combined(c2, t2)[c2.len() as int] == '_');
    if c1.len() < c2.len() {
        assert(combined(c2, t2)[c1.len() as int] == c2[c1.len() as int]);
        assert(false);
    }
    if c2.len() < c1.len() {
        assert(s[c2.len() as int] == c1[c2.len() as int]);
        assert(false);
    }
    assert forall|j: int| 0 <= j < c1.len() implies c1[j] == c2[j] by {
        assert(s[j] == c1[j]);
        assert(combined(c2, t2)[j] == c2[j]);
    }
    assert(c1 =~= c2);
    assert(combined(c1, t1).len() == c1.len() + 1 + t1.len());
    assert(combined(c2, t2).len() == c2.len() + 1 + t2.len());
    assert(t1.len() == t2.len());
    assert forall|j: int| 0 <= j < t1.len() implies t1[j] == t2[j] by {
        assert(s[c1.len() + 1 + j] == t1[j]);
        assert(combined(c2, t2)[c2.len() + 1 + j] == t2[j]);
    }
    assert(t1 =~= t2);
}

/// Build a listing's primary key.
pub fn sale_key(nft_contract_id: &String, token_id: &String) -> (r: String)
    ensures
        r@ == combined(nft_contract_id@, token_id@),
{
    proof {
        reveal_strlit("_");
    }
    let mut k = nft_contract_id.clone();
    k.append("_");
    k.append(token_id.as_str());
    proof {
        assert("_"@ =~= delim());
        assert(k@ =~= combined(nft_contract_id@, token_id@));
    }
    k
}

/// Whether a sequence holds pairwise-distinct elements.
pub open spec fn set_distinct(s: Seq<Seq<char>>) -> bool {
    forall|i: int, j: int| 0 <= i < j < s.len() ==> s[i] != s[j]
}

/// The marketplace ledger.
pub struct Contract {
    /// The account that administers the marketplace.
    pub owner_id: String,
    /// Active listings, keyed by registry id, separator, asset id.
    pub sales: StrMap<Sale>,
    /// For each seller, the primary keys of their active listings.
    pub by_owner_id: StrMap<StrSet>,
    /// For each registry, the asset ids it has listed here.
    pub by_nft_contract_id: StrMap<StrSet>,
    /// Prepaid storage rent per account.
    pub storage_deposits: StrMap<u128>,
}

impl Contract {
    /// A live sale under this key belongs to this owner.
    pub open spec fn sales_has_owned(self, k: Seq<char>, o: Seq<char>) -> bool {
        self.sales@.contains_key(k) && self.sales@[k].owner_id == o
    }

    /// The prepaid rent of an account, zero if it never deposited.
    pub open spec fn deposit_of(self, a: Seq<char>) -> int {
        if self.storage_deposits@.contains_key(a) {
            self.storage_deposits@[a] as int
        } else {
            0
        }
    }

    /// How many active listings an account has.
    pub open spec fn sale_count_of(self, a: Seq<char>) -> int {
        if self.by_owner_id@.contains_key(a) {
            self.by_owner_id@[a].len() as int
        } else {
            0
        }
    }

    /// A listing's record agrees with its key and stands in both indices.
    pub open spec fn sale_entry_ok(self, k: Seq<char>) -> bool {
        let s = self.sales@[k];
        &&& no_delim(s.nft_contract_id)
        &&& k == combined(s.nft_contract_id, s.token_id)
        &&& self.by_owner_id@.contains_key(s.owner_id)
        &&& self.by_owner_id@[s.owner_id].contains(k)
        &&& self.by_nft_contract_id@.contains_key(s.nft_contract_id)
        &&& self.by_nft_contract_id@[s.nft_contract_id].contains(s.token_id)
    }

    /// An owner-index entry is a nonempty, duplicate-free set of that
    /// owner's live listings.
    pub open spec fn owner_entry_ok(self, o: Seq<char>) -> bool {
        let ks = self.by_owner_id@[o];
        &&& ks.len() >= 1
        &&& set_distinct(ks)
        &&& forall|i: int| 0 <= i < ks.len() ==> #[trigger] self.sales_has_owned(ks[i], o)
    }

    /// The listing of one registry's asset, as the registry index claims it.
    pub open spec fn registry_entry_live(self, c: Seq<char>, t: Seq<char>) -> bool {
        &&& self.sales@.contains_key(combined(c, t))
        &&& self.sales@[combined(c, t)].nft_contract_id == c
        &&& self.sales@[combined(c, t)].token_id == t
    }

    /// A registry-index entry is a nonempty, duplicate-free set of asset ids
    /// whose listings are live.
    pub open spec fn registry_entry_ok(self, c: Seq<char>) -> bool {
        let ts = self.by_nft_contract_id@[c];
        &&& ts.len() >= 1
        &&& set_distinct(ts)
        &&& no_delim(c)
        &&& forall|i: int| 0 <= i < ts.len() ==> #[trigger] self.registry_entry_live(c, ts[i])
    }

    /// The store's invariant: unique keys everywhere, the primary map and
    /// both indices in exact agreement, and every owner's rent balance
    /// covering their active listings.
    pub open spec fn wf(self) -> bool {
        &&& self.sales.wf()
        &&& self.by_owner_id.wf()
        &&& self.by_nft_contract_id.wf()
        &&& self.storage_deposits.wf()
        &&& forall|k: Seq<char>| #[trigger] self.sales@.contains_key(k) ==> self.sale_entry_ok(k)
        &&& forall|o: Seq<char>| #[trigger] self.by_owner_id@.contains_key(o)
            ==> self.owner_entry_ok(o)
        &&& forall|c: Seq<char>| #[trigger] self.by_nft_contract_id@.contains_key(c)
            ==> self.registry_entry_ok(c)
        &&& forall|o: Seq<char>| #[trigger] self.by_owner_id@.contains_key(o)
            ==> self.by_owner_id@[o].len() * STORAGE_PER_SALE <= self.deposit_of(o)
    }

    /// A change that touches only the rent balances keeps the invariant,
    /// provided every owner's listings stay covered.
    pub proof fn lemma_wf_deposits_changed(a: Contract, b: Contract)
        requires
            a.wf(),
            b.sales == a.sales,
            b.by_owner_id == a.by_owner_id,
            b.by_nft_contract_id == a.by_nft_contract_id,
            b.storage_deposits.wf(),
            forall|o: Seq<char>| #[trigger] b.by_owner_id@.contains_key(o)
                ==> b.by_owner_id@[o].len() * STORAGE_PER_SALE <= b.deposit_of(o),
        ensures
            b.wf(),
    {
        assert forall|k: Seq<char>| #[trigger] b.sales@.contains_key(k) implies b.sale_entry_ok(
            k,
        ) by {
            assert(a.sale_entry_ok(k));
        }
        assert forall|o: Seq<char>| #[trigger] b.by_owner_id@.contains_key(o)
            implies b.owner_entry_ok(o) by {
            assert(a.owner_entry_ok(o));
            let ks = b.by_owner_id@[o];
            assert forall|i: int| 0 <= i < ks.len() implies #[trigger] b.sales_has_owned(
                ks[i],
                o,
            ) by {
                assert(a.sales_has_owned(ks[i], o));
            }
        }
        assert forall|c: Seq<char>| #[trigger] b.by_nft_contract_id@.contains_key(c)
            implies b.registry_entry_ok(c) by {
            assert(a.registry_entry_ok(c));
            let ts = b.by_nft_contract_id@[c];
            assert forall|i: int| 0 <= i < ts.len() implies #[trigger] b.registry_entry_live(
                c,
                ts[i],
            ) by {
                assert(a.registry_entry_live(c, ts[i]));
            }
        }
    }

    /// An empty marketplace.
    pub fn new(owner_id: String) -> (r: Contract)
        ensures
            r.wf(),
            r.owner_id == owner_id,
            r.sales@ == Map::<Seq<char>, SaleView>::empty(),
            r.by_owner_id@ == Map::<Seq<char>, Seq<Seq<char>>>::empty(),
            r.by_nft_contract_id@ == Map::<Seq<char>, Seq<Seq<char>>>::empty(),
            r.storage_deposits@ == Map::<Seq<char>, u128>::empty(),
    {
        Contract {
            owner_id,
            sales: StrMap::new(),
            by_owner_id: StrMap::new(),
            by_nft_contract_id: StrMap::new(),
            storage_deposits: StrMap::new(),
        }
    }

    /// Prepay storage rent for an account.
    ///
    /// Rejects a deposit below one listing's rent, as too small to be of
    /// use; otherwise adds the whole deposit to the account's balance.
    pub fn storage_deposit(&mut self, storage_account_id: String, deposit: u128) -> (r: Result<
        (),
        ContractError,
    >)
        requires
            old(self).wf(),
            old(self).deposit_of(storage_account_id@) + deposit <= u128::MAX,
        ensures
            final(self).wf(),
            deposit < STORAGE_PER_SALE ==> r == Err::<(), ContractError>(
                ContractError::InsufficientRent,
            ) && *final(self) == *old(self),
            deposit >= STORAGE_PER_SALE ==> r == Ok::<(), ContractError>(())
                && final(self).storage_deposits@ == old(self).storage_deposits@.insert(
                storage_account_id@,
                (old(self).deposit_of(storage_account_id@) + deposit) as u128,
            ),
            final(self).sales@ == old(self).sales@,
            final(self).by_owner_id@ == old(self).by_owner_id@,
            final(self).by_nft_contract_id@ == old(self).by_nft_contract_id@,
            final(self).owner_id == old(self).owner_id,
    {
        if deposit < STORAGE_PER_SALE {
            return Err(ContractError::InsufficientRent);
        }
        let balance: u128 = match self.storage_deposits.get(&storage_account_id) {
            Some(b) => *b,
            None => 0,
        };
        let new_balance = balance + deposit;
        self.storage_deposits.insert(storage_account_id, new_balance);
        proof {
            assert forall|o: Seq<char>| #[trigger] self.by_owner_id@.contains_key(o)
                implies self.by_owner_id@[o].len() * STORAGE_PER_SALE <= self.deposit_of(o) by {
                assert(old(self).by_owner_id@[o].len() * STORAGE_PER_SALE <= old(self).deposit_of(
                    o,
                ));
            }
            Contract::lemma_wf_deposits_changed(*old(self), *self);
        }
        Ok(())
    }

    /// Withdraw every unit of rent not covering an active listing.
    ///
    /// Leaves exactly the rent the account's current listings require, and
    /// returns the payment refunding the rest, if any.
    pub fn storage_withdraw(&mut self, owner_id: &String) -> (r: Option<Payment>)
        requires
            old(self).wf(),
        ensures
            final(self).wf(),
            final(self).deposit_of(owner_id@) == old(self).sale_count_of(owner_id@)
                * STORAGE_PER_SALE,
            match r {
                Some(p) => p.to == owner_id && p@.amount == old(self).deposit_of(owner_id@) - old(self).sale_count_of(owner_id@) * STORAGE_PER_SALE && p@.amount > 0,
                None => old(self).deposit_of(owner_id@) == old(self).sale_count_of(owner_id@)
                    * STORAGE_PER_SALE,
            },
            final(self).sales@ == old(self).sales@,
            final(self).by_owner_id@ == old(self).by_owner_id@,
            final(self).by_nft_contract_id@ == old(self).by_nft_contract_id@,
            final(self).owner_id == old(self).owner_id,
            forall|a: Seq<char>| a != owner_id@ ==> final(self).deposit_of(a) == old(self).deposit_of(a),
    {
        let amount: u128 = match self.storage_deposits.remove(owner_id) {
            Some(b) => b,
            None => 0,
        };
        let len: usize = match self.by_owner_id.get(owner_id) {
            Some(s) => s.len(),
            None => 0,
        };
        proof {
            if old(self).by_owner_id@.contains_key(owner_id@) {
                assert(old(self).by_owner_id@[owner_id@].len() * STORAGE_PER_SALE <= old(self).deposit_of(owner_id@));
            }
        }
        let diff: u128 = (len as u128) * STORAGE_PER_SALE;
        let excess = amount - diff;
        if diff > 0 {
            self.storage_deposits.insert(owner_id.clone(), diff);
        }
        proof {
            assert forall|o: Seq<char>| #[trigger] self.by_owner_id@.contains_key(o)
                implies self.by_owner_id@[o].len() * STORAGE_PER_SALE <= self.deposit_of(o) by {
                assert(old(self).by_owner_id@[o].len() * STORAGE_PER_SALE <= old(self).deposit_of(
                    o,
                ));
            }
            Contract::lemma_wf_deposits_changed(*old(self), *self);
        }
        if excess > 0 {
            Some(Payment { to: owner_id.clone(), amount: excess })
        } else {
            None
        }
    }

    /// The rent one listing must keep prepaid.
    pub fn storage_minimum_balance(&self) -> (r: u128)
        ensures
            r == STORAGE_PER_SALE,
    {
        STORAGE_PER_SALE
    }

    /// How much rent an account has prepaid.
    pub fn storage_balance_of(&self, account_id: &String) -> (r: u128)
        requires
            self.wf(),
        ensures
            r as int == self.deposit_of(account_id@),
    {
        match self.storage_deposits.get(account_id) {
            Some(b) => *b,
            None => 0,
        }
    }
}

/// Law: rent conservation.  With the invariant, every account's prepaid
/// rent balance covers the rent its active listings owe; `storage_withdraw`
/// then leaves exactly that owed amount (its contract), so no sequence of
/// deposits, listings, removals and withdrawals can drive a balance below
/// what the account's listings require.
pub proof fn lemma_rent_covers_listings(m: Contract)
    requires
        m.wf(),
    ensures
        forall|o: Seq<char>| #[trigger] m.sale_count_of(o) * STORAGE_PER_SALE <= m.deposit_of(o),
{
    assert forall|o: Seq<char>| #[trigger] m.sale_count_of(o) * STORAGE_PER_SALE <= m.deposit_of(
        o,
    ) by {
        if m.by_owner_id@.contains_key(o) {
            assert(m.by_owner_id@[o].len() * STORAGE_PER_SALE <= m.deposit_of(o));
        }
    }
}

/// With the invariant, the primary map and both indices agree exactly: a
/// key is indexed under an owner precisely when its listing is live with
/// that owner, and an asset id is indexed under a registry precisely when
/// that registry's listing of it is live.
pub proof fn lemma_wf_indices_agree(m: Contract)
    requires
        m.wf(),
    ensures
        forall|o: Seq<char>, k: Seq<char>|
            (m.by_owner_id@.contains_key(o) && #[trigger] m.by_owner_id@[o].contains(k))
                <==> #[trigger] m.sales_has_owned(k, o),
        forall|c: Seq<char>, t: Seq<char>|
            (m.by_nft_contract_id@.contains_key(c) && #[trigger] m.by_nft_contract_id@[c].contains(
                t,
            )) <==> (no_delim(c) && #[trigger] m.registry_entry_live(c, t)),
{
    assert forall|o: Seq<char>, k: Seq<char>|
        (m.by_owner_id@.contains_key(o) && #[trigger] m.by_owner_id@[o].contains(k))
            implies #[trigger] m.sales_has_owned(k, o) by {
        let ks = m.by_owner_id@[o];
        let i = choose|i: int| 0 <= i < ks.len() && ks[i] == k;
        assert(m.sales_has_owned(ks[i], o));
    }
    assert forall|o: Seq<char>, k: Seq<char>| #[trigger] m.sales_has_owned(k, o) implies (
    m.by_owner_id@.contains_key(o) && #[trigger] m.by_owner_id@[o].contains(k)) by {
        assert(m.sale_entry_ok(k));
    }
    assert forall|c: Seq<char>, t: Seq<char>|
        (m.by_nft_contract_id@.contains_key(c) && #[trigger] m.by_nft_contract_id@[c].contains(
            t,
        )) implies (no_delim(c) && #[trigger] m.registry_entry_live(c, t)) by {
        let ts = m.by_nft_contract_id@[c];
        let i = choose|i: int| 0 <= i < ts.len() && ts[i] == t;
        assert(m.registry_entry_live(c, ts[i]));
    }
    assert forall|c: Seq<char>, t: Seq<char>|
        no_delim(c) && #[trigger] m.registry_entry_live(c, t) implies (
    m.by_nft_contract_id@.contains_key(c) && #[trigger] m.by_nft_contract_id@[c].contains(t)) by {
        let k = combined(c, t);
        assert(m.sales@.contains_key(k));
        assert(m.sale_entry_ok(k));
        let s = m.sales@[k];
        lemma_combined_injective(s.nft_contract_id, s.token_id, c, t);
    }
}

} // verus!
