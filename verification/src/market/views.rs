//! Read-only marketplace views: supplies and paginated listings.

use vstd::prelude::*;
use crate::market::combined;
use crate::market::no_delim;
use crate::market::sale::Sale;
use crate::market::sale_key;
use crate::market::Contract;

verus! {

impl Contract {
    /// A page prefix: `out` holds, in order, the sales of the keys
    /// `ks[start..start+i]`.
    pub open spec fn page_ok(
        sales: Map<Seq<char>, crate::market::sale::SaleView>,
        out: Seq<Sale>,
        ks: Seq<Seq<char>>,
        start: int,
        i: int,
    ) -> bool {
        forall|j: int|
            #![trigger out[j]]
            #![trigger ks[start + j]]
            0 <= j < i ==> sales.contains_key(ks[start + j]) && out[j]@ == sales[ks[start + j]]
    }

    /// A registry page prefix: `out` holds, in order, the sales keyed by
    /// the registry `c` and the asset ids `ts[start..start+i]`.
    pub open spec fn registry_page_ok(
        sales: Map<Seq<char>, crate::market::sale::SaleView>,
        out: Seq<Sale>,
        c: Seq<char>,
        ts: Seq<Seq<char>>,
        start: int,
        i: int,
    ) -> bool {
        forall|j: int|
            #![trigger out[j]]
            #![trigger ts[start + j]]
            0 <= j < i ==> sales.contains_key(combined(c, ts[start + j])) && out[j]@
                == sales[combined(c, ts[start + j])]
    }

    /// The keys of one owner's listings, in index order.
    pub open spec fn owner_keys(self, a: Seq<char>) -> Seq<Seq<char>> {
        if self.by_owner_id@.contains_key(a) {
            self.by_owner_id@[a]
        } else {
            Seq::empty()
        }
    }

    /// The asset ids one registry has listed, in index order.
    pub open spec fn registry_tokens(self, c: Seq<char>) -> Seq<Seq<char>> {
        if self.by_nft_contract_id@.contains_key(c) {
            self.by_nft_contract_id@[c]
        } else {
            Seq::empty()
        }
    }

    /// How many listings the marketplace has up.
    pub fn get_supply_sales(&self) -> (r: u64)
        requires
            self.wf(),
        ensures
            r as int == self.sales@.dom().len(),
    {
        self.sales.len() as u64
    }

    /// How many listings an account has up.
    pub fn get_supply_by_owner_id(&self, account_id: &String) -> (r: u64)
        requires
            self.wf(),
        ensures
            r as int == self.sale_count_of(account_id@),
    {
        match self.by_owner_id.get(account_id) {
            Some(s) => s.len() as u64,
            None => 0,
        }
    }

    /// A page of an account's listings: up to `limit` (ten when absent)
    /// listings starting at `from_index` in index order.
    pub fn get_sales_by_owner_id(
        &self,
        account_id: &String,
        from_index: Option<u128>,
        limit: Option<u64>,
    ) -> (r: Vec<Sale>)
        requires
            self.wf(),
        ensures
            ({
                let ks = self.owner_keys(account_id@);
                let from = match from_index {
                    Some(f) => f as int,
                    None => 0,
                };
                let start = if from < ks.len() {
                    from
                } else {
                    ks.len() as int
                };
                let lim = match limit {
                    Some(l) => l as int,
                    None => 10,
                };
                let cnt = if lim < ks.len() - start {
                    lim
                } else {
                    ks.len() - start
                };
                &&& r@.len() == cnt
                &&& forall|i: int|
                    #![trigger r@[i]]
                    #![trigger ks[start + i]]
                    0 <= i < cnt ==> self.sales@.contains_key(ks[start + i]) && r@[i]@
                        == self.sales@[ks[start + i]]
            }),
    {
        let set = match self.by_owner_id.get(account_id) {
            Some(s) => s,
            None => {
                return Vec::new();
            },
        };
        let n = set.len();
        let start: usize = match from_index {
            Some(f) => {
                if f >= n as u128 {
                    n
                } else {
                    f as usize
                }
            },
            None => 0,
        };
        let lim: u64 = match limit {
            Some(l) => l,
            None => 10,
        };
        let cnt: usize = if lim < (n - start) as u64 {
            lim as usize
        } else {
            n - start
        };
        let mut out: Vec<Sale> = Vec::new();
        let mut i: usize = 0;
        while i < cnt
            invariant
                self.wf(),
                self.by_owner_id@.contains_key(account_id@),
                set@ == self.owner_keys(account_id@),
                n == set@.len(),
                start + cnt <= n,
                0 <= i <= cnt,
                out@.len() == i,
                Contract::page_ok(self.sales@, out@, set@, start as int, i as int),
            decreases cnt - i,
        {
            let key = set.item_at(start + i);
            proof {
                assert(self.owner_entry_ok(account_id@));
                assert(self.sales_has_owned(set@[start + i as int], account_id@));
            }
            let sale = match self.sales.get(key) {
                Some(s) => s.duplicate(),
                None => {
                    proof {
                        assert(false);
                    }
                    return out;
                },
            };
            let ghost out0 = out@;
            let ghost sv = sale@;
            proof {
                assert(sv == self.sales@[set@[start + i as int]]);
            }
            out.push(sale);
            proof {
                assert(out@[i as int]@ == sv);
                assert(forall|j: int| 0 <= j < i ==> out@[j] == out0[j]);
                assert forall|j: int|
                    #![trigger out@[j]]
                    #![trigger set@[start + j]]
                    0 <= j < i + 1 implies self.sales@.contains_key(set@[start + j]) && out@[j]@
                    == self.sales@[set@[start + j]] by {
                    if j < i {
                        assert(out@[j] == out0[j]);
                        assert(out0[j]@ == self.sales@[set@[start + j]]);
                    } else {
                        assert(out@[j]@ == sv);
                    }
                }
                assert(Contract::page_ok(self.sales@, out@, set@, start as int, i + 1));
            }
            i += 1;
        }
        proof {
            assert(Contract::page_ok(self.sales@, out@, set@, start as int, cnt as int));
        }
        out
    }

    /// How many listings a registry has up.
    ///
    /// The pagination arguments are accepted and ignored: callers of this
    /// endpoint pass them, but a count needs no page.
    pub fn get_supply_by_nft_contract_id(
        &self,
        nft_contract_id: &String,
        from_index: Option<u128>,
        limit: Option<u64>,
    ) -> (r: u64)
        requires
            self.wf(),
        ensures
            r as int == self.registry_tokens(nft_contract_id@).len(),
    {
        let _ = from_index;
        let _ = limit;
        match self.by_nft_contract_id.get(nft_contract_id) {
            Some(s) => s.len() as u64,
            None => 0,
        }
    }

    /// A page of a registry's listings: up to `limit` (ten when absent)
    /// listings starting at `from_index` in index order.
    pub fn get_sales_by_nft_contract_id(
        &self,
        nft_contract_id: &String,
        from_index: Option<u128>,
        limit: Option<u64>,
    ) -> (r: Vec<Sale>)
        requires
            self.wf(),
            no_delim(nft_contract_id@),
        ensures
            ({
                let ts = self.registry_tokens(nft_contract_id@);
                let from = match from_index {
                    Some(f) => f as int,
                    None => 0,
                };
                let start = if from < ts.len() {
                    from
                } else {
                    ts.len() as int
                };
                let lim = match limit {
                    Some(l) => l as int,
                    None => 10,
                };
                let cnt = if lim < ts.len() - start {
                    lim
                } else {
                    ts.len() - start
                };
                &&& r@.len() == cnt
                &&& forall|i: int|
                    #![trigger r@[i]]
                    #![trigger ts[start + i]]
                    0 <= i < cnt ==> self.sales@.contains_key(
                        combined(nft_contract_id@, ts[start + i]),
                    ) && r@[i]@ == self.sales@[combined(nft_contract_id@, ts[start + i])]
            }),
    {
        let set = match self.by_nft_contract_id.get(nft_contract_id) {
            Some(s) => s,
            None => {
                return Vec::new();
            },
        };
        let n = set.len();
        let start: usize = match from_index {
            Some(f) => {
                if f >= n as u128 {
                    n
                } else {
                    f as usize
                }
            },
            None => 0,
        };
        let lim: u64 = match limit {
            Some(l) => l,
            None => 10,
        };
        let cnt: usize = if lim < (n - start) as u64 {
            lim as usize
        } else {
            n - start
        };
        let mut out: Vec<Sale> = Vec::new();
        let mut i: usize = 0;
        while i < cnt
            invariant
                self.wf(),
                no_delim(nft_contract_id@),
                self.by_nft_contract_id@.contains_key(nft_contract_id@),
                set@ == self.registry_tokens(nft_contract_id@),
                n == set@.len(),
                start + cnt <= n,
                0 <= i <= cnt,
                out@.len() == i,
                Contract::registry_page_ok(
                    self.sales@,
                    out@,
                    nft_contract_id@,
                    set@,
                    start as int,
                    i as int,
                ),
            decreases cnt - i,
        {
            let token = set.item_at(start + i);
            proof {
                assert(self.registry_entry_ok(nft_contract_id@));
                assert(self.registry_entry_live(nft_contract_id@, set@[start + i as int]));
            }
            let key = sale_key(nft_contract_id, token);
            let sale = match self.sales.get(&key) {
                Some(s) => s.duplicate(),
                None => {
                    proof {
                        assert(false);
                    }
                    return out;
                },
            };
            let ghost out0 = out@;
            let ghost sv = sale@;
            proof {
                assert(sv == self.sales@[combined(nft_contract_id@, set@[start + i as int])]);
            }
            out.push(sale);
            proof {
                assert(out@[i as int]@ == sv);
                assert(forall|j: int| 0 <= j < i ==> out@[j] == out0[j]);
                assert forall|j: int|
                    #![trigger out@[j]]
                    #![trigger set@[start + j]]
                    0 <= j < i + 1 implies self.sales@.contains_key(
                    combined(nft_contract_id@, set@[start + j]),
                ) && out@[j]@ == self.sales@[combined(nft_contract_id@, set@[start + j])] by {
                    if j < i {
                        assert(out@[j] == out0[j]);
                        assert(out0[j]@ == self.sales@[combined(nft_contract_id@, set@[start + j])]);
                    } else {
                        assert(out@[j]@ == sv);
                    }
                }
                assert(Contract::registry_page_ok(
                    self.sales@,
                    out@,
                    nft_contract_id@,
                    set@,
                    start as int,
                    i + 1,
                ));
            }
            i += 1;
        }
        proof {
            assert(Contract::registry_page_ok(
                self.sales@,
                out@,
                nft_contract_id@,
                set@,
                start as int,
                cnt as int,
            ));
        }
        out
    }

    /// The listing under a primary key, if any.
    pub fn get_sale(&self, nft_contract_id: &String) -> (r: Option<Sale>)
        requires
            self.wf(),
        ensures
            match r {
                Some(s) => self.sales@.contains_key(nft_contract_id@) && s@
                    == self.sales@[nft_contract_id@],
                None => !self.sales@.contains_key(nft_contract_id@),
            },
    {
        match self.sales.get(nft_contract_id) {
            Some(s) => Some(s.duplicate()),
            None => None,
        }
    }
}

} // verus!
