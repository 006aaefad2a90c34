//! The payout table a settlement distributes.
//!
//! A payout maps accounts to amounts.  The settlement saga accepts one only
//! if it holds one to ten distinct accounts and its amounts sum to the
//! offered total or fall exactly one unit short (the rounding slack the
//! royalty split may lose).

use vstd::prelude::*;
use crate::codec::entries_view;
use crate::codec::parse_payout;
use crate::codec::payout_string;
use crate::codec::payout_text;
use crate::codec::valid_accounts;

verus! {

/// A per-recipient amount breakdown, computed from a royalty table and a
/// sale total, consumed once by the settlement saga.
pub struct Payout {
    /// The recipients and what each is owed, in split order.
    pub payout: Vec<(String, u128)>,
}

/// The sum of a payout's amounts.
pub open spec fn payout_sum(es: Seq<(Seq<char>, u128)>) -> int
    decreases es.len(),
{
    if es.len() == 0 {
        0
    } else {
        payout_sum(es.drop_last()) + es.last().1
    }
}

/// Whether a payout names each account at most once.
pub open spec fn payout_keys_unique(es: Seq<(Seq<char>, u128)>) -> bool {
    forall|i: int, j: int| 0 <= i < j < es.len() ==> es[i].0 != es[j].0
}

/// The payout invariant: one to ten distinct recipients, and a sum that is
/// the requested total or exactly one unit less.
pub open spec fn payout_ok(es: Seq<(Seq<char>, u128)>, total: int) -> bool {
    &&& 1 <= es.len() <= 10
    &&& payout_keys_unique(es)
    &&& payout_sum(es) <= total
    &&& total - payout_sum(es) <= 1
}

/// A prefix of a payout never sums to more than the whole.
pub proof fn lemma_payout_sum_prefix(es: Seq<(Seq<char>, u128)>, i: int)
    requires
        0 <= i <= es.len(),
    ensures
        payout_sum(es.take(i)) <= payout_sum(es),
        payout_sum(es) >= 0,
    decreases es.len() - i,
{
    if i < es.len() {
        lemma_payout_sum_prefix(es, i + 1);
        assert(es.take(i + 1).drop_last() =~= es.take(i));
        assert(es.take(i + 1).last() == es[i]);
    } else {
        assert(es.take(i) =~= es);
        lemma_payout_sum_nonneg(es);
    }
}

/// A payout's sum is not negative.
pub proof fn lemma_payout_sum_nonneg(es: Seq<(Seq<char>, u128)>)
    ensures
        payout_sum(es) >= 0,
    decreases es.len(),
{
    if es.len() > 0 {
        lemma_payout_sum_nonneg(es.drop_last());
    }
}

impl Payout {
    /// The mathematical entries of this payout.
    pub open spec fn entries(self) -> Seq<(Seq<char>, u128)> {
        entries_view(self.payout@)
    }

    /// The sum of this payout's amounts.
    pub open spec fn sum(self) -> int {
        payout_sum(self.entries())
    }

    /// An empty payout, to be filled by a split.
    pub fn new() -> (r: Payout)
        ensures
            r.entries() == Seq::<(Seq<char>, u128)>::empty(),
    {
        let r = Payout { payout: Vec::new() };
        proof {
            assert(r.entries() =~= Seq::<(Seq<char>, u128)>::empty());
        }
        r
    }

    /// How many recipients the payout names.
    pub fn len(&self) -> (n: usize)
        ensures
            n == self.entries().len(),
    {
        self.payout.len()
    }

    /// Whether any account is named twice.
    fn has_duplicate(&self) -> (r: bool)
        ensures
            r == !payout_keys_unique(self.entries()),
    {
        let n = self.payout.len();
        let mut i: usize = 0;
        while i < n
            invariant
                0 <= i <= n,
                n == self.payout@.len(),
                forall|p: int, q: int| 0 <= p < q < n && p < i ==> self.entries()[p].0
                    != self.entries()[q].0,
            decreases n - i,
        {
            let mut j: usize = i + 1;
            while j < n
                invariant
                    i < j <= n,
                    n == self.payout@.len(),
                    forall|q: int| i < q < j ==> self.entries()[i as int].0
                        != self.entries()[q].0,
                decreases n - j,
            {
                if self.payout[i].0.eq(&self.payout[j].0) {
                    proof {
                        assert(self.entries()[i as int].0 == self.entries()[j as int].0);
                    }
                    return true;
                }
                j += 1;
            }
            i += 1;
        }
        false
    }

    /// Hold this payout against the invariant for a requested total.
    ///
    /// Accepts exactly the payouts with one to ten distinct recipients whose
    /// amounts sum to `total` or `total - 1`.
    pub fn check(&self, total: u128) -> (r: bool)
        ensures
            r == payout_ok(self.entries(), total as int),
    {
        let n = self.payout.len();
        if n == 0 || n > 10 {
            return false;
        }
        if self.has_duplicate() {
            return false;
        }
        let mut remainder: u128 = total;
        let mut i: usize = 0;
        while i < n
            invariant
                0 <= i <= n,
                n == self.payout@.len(),
                remainder == total - payout_sum(self.entries().take(i as int)),
            decreases n - i,
        {
            proof {
                assert(self.entries().take(i + 1).drop_last() =~= self.entries().take(i as int));
                assert(self.entries().take(i + 1).last() == self.entries()[i as int]);
            }
            remainder = match remainder.checked_sub(self.payout[i].1) {
                Some(rem) => rem,
                None => {
                    proof {
                        lemma_payout_sum_prefix(self.entries(), i + 1);
                    }
                    return false;
                },
            };
            i += 1;
        }
        proof {
            assert(self.entries().take(n as int) =~= self.entries());
        }
        remainder == 0 || remainder == 1
    }

    /// Write this payout in the cross-boundary payload schema.
    pub fn to_text(&self) -> (r: String)
        ensures
            r@ == payout_text(self.entries()),
    {
        payout_string(&self.payout)
    }

    /// Parse a payout payload; `None` exactly when no payout has this text.
    pub fn parse(t: &str) -> (r: Option<Payout>)
        ensures
            match r {
                Some(p) => valid_accounts(p.entries()) && t@ == payout_text(p.entries()),
                None => forall|es: Seq<(Seq<char>, u128)>|
                    valid_accounts(es) ==> t@ != payout_text(es),
            },
    {
        match parse_payout(t) {
            Some(es) => Some(Payout { payout: es }),
            None => None,
        }
    }
}

} // verus!
