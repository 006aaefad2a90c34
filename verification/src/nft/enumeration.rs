//! Read-only registry views: supplies and paginated asset records.

use vstd::prelude::*;
use crate::nft::metadata::JsonToken;
use crate::nft::metadata::NFTContractMetadata;
use crate::nft::metadata::NonFungibleTokenMetadata;
use crate::nft::Contract;

verus! {

impl Contract {
    /// A page prefix: `out` holds, in order, records of the assets named by
    /// `keys[start..start+i]`, each carrying its id and owner.
    pub open spec fn token_page_ok(
        self,
        out: Seq<JsonToken>,
        keys: Seq<Seq<char>>,
        start: int,
        i: int,
    ) -> bool {
        forall|j: int|
            #![trigger out[j]]
            #![trigger keys[start + j]]
            0 <= j < i ==> self.tokens_by_id@.contains_key(keys[start + j]) && out[j].token_id@
                == keys[start + j] && out[j].owner_id@ == self.tokens_by_id@[keys[start
                + j]].owner_id
    }

    /// How many assets the registry holds.
    pub fn nft_total_supply(&self) -> (r: u64)
        requires
            self.wf(),
        ensures
            r as int == self.token_metadata_by_id@.dom().len(),
    {
        self.token_metadata_by_id.len() as u64
    }

    /// How many assets an account owns.
    pub fn nft_supply_for_owner(&self, account_id: &String) -> (r: u64)
        requires
            self.wf(),
        ensures
            r as int == if self.tokens_per_owner@.contains_key(account_id@) {
                self.tokens_per_owner@[account_id@].len() as int
            } else {
                0
            },
    {
        match self.tokens_per_owner.get(account_id) {
            Some(s) => s.len() as u64,
            None => 0,
        }
    }

    /// A page of all assets in mint order: up to `limit` (none when absent)
    /// records starting at `from_index`.
    pub fn nft_tokens(&self, from_index: Option<u128>, limit: Option<u64>) -> (r: Vec<JsonToken>)
        requires
            self.wf(),
        ensures
            ({
                let keys = self.token_metadata_by_id.key_seq();
                let from = match from_index {
                    Some(f) => f as int,
                    None => 0,
                };
                let start = if from < keys.len() {
                    from
                } else {
                    keys.len() as int
                };
                let lim = match limit {
                    Some(l) => l as int,
                    None => 0,
                };
                let cnt = if lim < keys.len() - start {
                    lim
                } else {
                    keys.len() - start
                };
                r@.len() == cnt && self.token_page_ok(r@, keys, start, cnt)
            }),
    {
        let ghost keys = self.token_metadata_by_id.key_seq();
        let n = self.token_metadata_by_id.len();
        let start: usize = match from_index {
            Some(f) => {
                if f >= n as u128 {
                    n
                } else {
                    f as usize
                }
            },
            None => 0,
        };
        let lim: u64 = match limit {
            Some(l) => l,
            None => 0,
        };
        let cnt: usize = if lim < (n - start) as u64 {
            lim as usize
        } else {
            n - start
        };
        let mut out: Vec<JsonToken> = Vec::new();
        let mut i: usize = 0;
        while i < cnt
            invariant
                self.wf(),
                keys == self.token_metadata_by_id.key_seq(),
                n == keys.len(),
                start + cnt <= n,
                0 <= i <= cnt,
                out@.len() == i,
                self.token_page_ok(out@, keys, start as int, i as int),
            decreases cnt - i,
        {
            let (key, _) = self.token_metadata_by_id.entry_at(start + i);
            proof {
                assert(self.token_metadata_by_id@.contains_key(keys[start + i as int]));
                assert(self.tokens_by_id@.contains_key(keys[start + i as int]));
            }
            let ghost out0 = out@;
            let record = match self.nft_token(key) {
                Some(j) => j,
                None => {
                    proof {
                        assert(false);
                    }
                    return out;
                },
            };
            let ghost rv = record;
            out.push(record);
            proof {
                assert(out@[i as int] == rv);
                assert(forall|j: int| 0 <= j < i ==> out@[j] == out0[j]);
                assert(self.token_page_ok(out@, keys, start as int, i + 1));
            }
            i += 1;
        }
        out
    }

    /// A page of one account's assets in index order: up to `limit` (none
    /// when absent) records starting at `from_index`.
    pub fn nft_tokens_for_owner(
        &self,
        account_id: &String,
        from_index: Option<u128>,
        limit: Option<u64>,
    ) -> (r: Vec<JsonToken>)
        requires
            self.wf(),
        ensures
            ({
                let keys = if self.tokens_per_owner@.contains_key(account_id@) {
                    self.tokens_per_owner@[account_id@]
                } else {
                    Seq::<Seq<char>>::empty()
                };
                let from = match from_index {
                    Some(f) => f as int,
                    None => 0,
                };
                let start = if from < keys.len() {
                    from
                } else {
                    keys.len() as int
                };
                let lim = match limit {
                    Some(l) => l as int,
                    None => 0,
                };
                let cnt = if lim < keys.len() - start {
                    lim
                } else {
                    keys.len() - start
                };
                r@.len() == cnt && self.token_page_ok(r@, keys, start, cnt)
            }),
    {
        let set = match self.tokens_per_owner.get(account_id) {
            Some(s) => s,
            None => {
                return Vec::new();
            },
        };
        let n = set.len();
        let start: usize = match from_index {
            Some(f) => {
                if f >= n as u128 {
                    n
                } else {
                    f as usize
                }
            },
            None => 0,
        };
        let lim: u64 = match limit {
            Some(l) => l,
            None => 0,
        };
        let cnt: usize = if lim < (n - start) as u64 {
            lim as usize
        } else {
            n - start
        };
        let mut out: Vec<JsonToken> = Vec::new();
        let mut i: usize = 0;
        while i < cnt
            invariant
                self.wf(),
                self.tokens_per_owner@.contains_key(account_id@),
                set@ == self.tokens_per_owner@[account_id@],
                n == set@.len(),
                start + cnt <= n,
                0 <= i <= cnt,
                out@.len() == i,
                self.token_page_ok(out@, set@, start as int, i as int),
            decreases cnt - i,
        {
            let key = set.item_at(start + i);
            proof {
                assert(self.owner_tokens_ok(account_id@));
                assert(self.token_owned(set@[start + i as int], account_id@));
            }
            let ghost out0 = out@;
            let record = match self.nft_token(key) {
                Some(j) => j,
                None => {
                    proof {
                        assert(false);
                    }
                    return out;
                },
            };
            let ghost rv = record;
            out.push(record);
            proof {
                assert(out@[i as int] == rv);
                assert(forall|j: int| 0 <= j < i ==> out@[j] == out0[j]);
                assert(self.token_page_ok(out@, set@, start as int, i + 1));
            }
            i += 1;
        }
        out
    }
}

impl NonFungibleTokenMetadata for Contract {
    /// The registry's descriptive metadata.
    fn nft_metadata(&self) -> NFTContractMetadata {
        self.metadata.duplicate()
    }
}

} // verus!
