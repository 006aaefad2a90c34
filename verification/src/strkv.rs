//! String-keyed maps and sets with exact mathematical views.
//!
//! Both containers are association vectors with unique keys.  A `StrMap`
//! abstracts to a `Map<Seq<char>, _>` and additionally exposes its key order,
//! which the enumeration endpoints page over; a `StrSet` abstracts to the
//! ordered sequence of its distinct elements.

use vstd::prelude::*;

verus! {

/// A map from `String` keys to values, keys unique, insertion order kept.
pub struct StrMap<V> {
    pub entries: Vec<(String, V)>,
}

impl<V: View> StrMap<V> {
    /// The map denoted by an entry sequence: later entries win.
    pub open spec fn map_of(s: Seq<(String, V)>) -> Map<Seq<char>, V::V>
        decreases s.len(),
    {
        if s.len() == 0 {
            Map::empty()
        } else {
            Self::map_of(s.drop_last()).insert(s.last().0@, s.last().1@)
        }
    }

    /// Keys are pairwise distinct.
    pub open spec fn wf(self) -> bool {
        forall|i: int, j: int|
            0 <= i < j < self.entries@.len() ==> self.entries@[i].0@ != self.entries@[j].0@
    }

    /// The keys in insertion order.
    pub open spec fn key_seq(self) -> Seq<Seq<char>> {
        Seq::new(self.entries@.len(), |i: int| self.entries@[i].0@)
    }

    /// Every key of the denoted map is the key of some entry.
    pub proof fn lemma_contains(s: Seq<(String, V)>)
        ensures
            forall|k: Seq<char>|
                #[trigger] Self::map_of(s).contains_key(k) <==> exists|i: int|
                    0 <= i < s.len() && s[i].0@ == k,
        decreases s.len(),
    {
        if s.len() > 0 {
            Self::lemma_contains(s.drop_last());
            assert forall|k: Seq<char>| #[trigger] Self::map_of(s).contains_key(k) implies exists|
                i: int,
            | 0 <= i < s.len() && s[i].0@ == k by {
                if k == s.last().0@ {
                    assert(s[s.len() - 1].0@ == k);
                } else {
                    assert(Self::map_of(s.drop_last()).contains_key(k));
                    let i = choose|i: int| 0 <= i < s.drop_last().len() && s.drop_last()[i].0@ == k;
                    assert(s.drop_last()[i] == s[i]);
                    assert(s[i].0@ == k);
                }
            }
            assert forall|k: Seq<char>|
                exists|i: int| 0 <= i < s.len() && s[i].0@ == k implies #[trigger] Self::map_of(
                s,
            ).contains_key(k) by {
                let i = choose|i: int| 0 <= i < s.len() && s[i].0@ == k;
                if i < s.len() - 1 {
                    assert(s.drop_last()[i] == s[i]);
                    assert(exists|j: int| 0 <= j < s.drop_last().len() && s.drop_last()[j].0@ == k);
                    assert(Self::map_of(s.drop_last()).contains_key(k));
                }
            }
        }
    }

    /// With unique keys, each entry's value is the denoted map's value.
    pub proof fn lemma_index(s: Seq<(String, V)>, i: int)
        requires
            forall|p: int, q: int| 0 <= p < q < s.len() ==> s[p].0@ != s[q].0@,
            0 <= i < s.len(),
        ensures
            Self::map_of(s).contains_key(s[i].0@),
            Self::map_of(s)[s[i].0@] == s[i].1@,
        decreases s.len(),
    {
        if i == s.len() - 1 {
        } else {
            Self::lemma_index(s.drop_last(), i);
            assert(s.drop_last()[i] == s[i]);
            assert(s[i].0@ != s.last().0@);
        }
    }

    /// Removing an entry removes exactly its key from the denoted map.
    pub proof fn lemma_remove(s: Seq<(String, V)>, i: int)
        requires
            forall|p: int, q: int| 0 <= p < q < s.len() ==> s[p].0@ != s[q].0@,
            0 <= i < s.len(),
        ensures
            Self::map_of(s.remove(i)) == Self::map_of(s).remove(s[i].0@),
        decreases s.len(),
    {
        Self::lemma_contains(s.drop_last());
        if i == s.len() - 1 {
            assert(s.remove(i) =~= s.drop_last());
            assert(!Self::map_of(s.drop_last()).contains_key(s[i].0@));
            assert(Self::map_of(s.drop_last()).insert(s.last().0@, s.last().1@).remove(s[i].0@)
                =~= Self::map_of(s.drop_last()));
        } else {
            Self::lemma_remove(s.drop_last(), i);
            assert(s.remove(i).drop_last() =~= s.drop_last().remove(i));
            assert(s.remove(i).last() == s.last());
            assert(s.drop_last()[i] == s[i]);
            assert(s[i].0@ != s.last().0@);
            assert(Self::map_of(s.remove(i)) == Self::map_of(s.drop_last().remove(i)).insert(
                s.last().0@,
                s.last().1@,
            ));
            assert(Self::map_of(s.drop_last()).remove(s[i].0@).insert(s.last().0@, s.last().1@)
                =~= Self::map_of(s.drop_last()).insert(s.last().0@, s.last().1@).remove(s[i].0@));
        }
    }

    /// Replacing an entry whose key view is unchanged overwrites that key.
    pub proof fn lemma_update(s: Seq<(String, V)>, i: int, p: (String, V))
        requires
            forall|p: int, q: int| 0 <= p < q < s.len() ==> s[p].0@ != s[q].0@,
            0 <= i < s.len(),
            p.0@ == s[i].0@,
        ensures
            Self::map_of(s.update(i, p)) == Self::map_of(s).insert(p.0@, p.1@),
        decreases s.len(),
    {
        if i == s.len() - 1 {
            assert(s.update(i, p).drop_last() =~= s.drop_last());
            assert(s.update(i, p).last() == p);
            assert(Self::map_of(s.drop_last()).insert(s.last().0@, s.last().1@).insert(p.0@, p.1@)
                =~= Self::map_of(s.drop_last()).insert(p.0@, p.1@));
        } else {
            Self::lemma_update(s.drop_last(), i, p);
            assert(s.update(i, p).drop_last() =~= s.drop_last().update(i, p));
            assert(s.update(i, p).last() == s.last());
            assert(s.drop_last()[i] == s[i]);
            assert(s[i].0@ != s.last().0@);
            assert(Self::map_of(s.drop_last()).insert(p.0@, p.1@).insert(s.last().0@, s.last().1@)
                =~= Self::map_of(s.drop_last()).insert(s.last().0@, s.last().1@).insert(
                p.0@,
                p.1@,
            ));
        }
    }

    /// With unique keys the denoted map has exactly one key per entry.
    pub proof fn lemma_dom_len(s: Seq<(String, V)>)
        requires
            forall|p: int, q: int| 0 <= p < q < s.len() ==> s[p].0@ != s[q].0@,
        ensures
            Self::map_of(s).dom().finite(),
            Self::map_of(s).dom().len() == s.len(),
        decreases s.len(),
    {
        if s.len() > 0 {
            Self::lemma_dom_len(s.drop_last());
            Self::lemma_contains(s.drop_last());
            assert(!Self::map_of(s.drop_last()).contains_key(s.last().0@));
        }
    }

    /// An empty map.
    pub fn new() -> (r: Self)
        ensures
            r.wf(),
            r@ == Map::<Seq<char>, V::V>::empty(),
            r.key_seq() == Seq::<Seq<char>>::empty(),
    {
        let r = StrMap { entries: Vec::new() };
        proof {
            assert(r.key_seq() =~= Seq::<Seq<char>>::empty());
        }
        r
    }

    /// Position of a key among the entries, if present.
    fn index_of(&self, key: &String) -> (r: Option<usize>)
        requires
            self.wf(),
        ensures
            match r {
                Some(i) => i < self.entries@.len() && self.entries@[i as int].0@ == key@
                    && self@.contains_key(key@),
                None => !self@.contains_key(key@),
            },
    {
        proof {
            Self::lemma_contains(self.entries@);
        }
        let mut i: usize = 0;
        while i < self.entries.len()
            invariant
                i <= self.entries@.len(),
                forall|j: int| 0 <= j < i ==> self.entries@[j].0@ != key@,
                forall|k: Seq<char>|
                    #[trigger] self@.contains_key(k) <==> exists|j: int|
                        0 <= j < self.entries@.len() && self.entries@[j].0@ == k,
            decreases self.entries@.len() - i,
        {
            if self.entries[i].0.eq(key) {
                return Some(i);
            }
            i += 1;
        }
        None
    }

    /// Look a key up.
    pub fn get(&self, key: &String) -> (r: Option<&V>)
        requires
            self.wf(),
        ensures
            match r {
                Some(v) => self@.contains_key(key@) && v@ == self@[key@],
                None => !self@.contains_key(key@),
            },
    {
        match self.index_of(key) {
            Some(i) => {
                proof {
                    Self::lemma_index(self.entries@, i as int);
                }
                Some(&self.entries[i].1)
            },
            None => None,
        }
    }

    /// Whether a key is present.
    pub fn contains_key(&self, key: &String) -> (r: bool)
        requires
            self.wf(),
        ensures
            r == self@.contains_key(key@),
    {
        self.index_of(key).is_some()
    }

    /// Insert a binding, overwriting any binding of the same key in place.
    pub fn insert(&mut self, key: String, value: V)
        requires
            old(self).wf(),
        ensures
            final(self).wf(),
            final(self)@ == old(self)@.insert(key@, value@),
            final(self).key_seq() == if old(self)@.contains_key(key@) {
                old(self).key_seq()
            } else {
                old(self).key_seq().push(key@)
            },
    {
        let ghost s0 = self.entries@;
        match self.index_of(&key) {
            Some(i) => {
                proof {
                    Self::lemma_update(s0, i as int, (key, value));
                }
                self.entries.remove(i);
                self.entries.insert(i, (key, value));
                proof {
                    assert(self.entries@ =~= s0.update(i as int, (key, value)));
                    assert(final(self).key_seq() =~= old(self).key_seq());
                }
            },
            None => {
                proof {
                    Self::lemma_contains(s0);
                }
                self.entries.push((key, value));
                proof {
                    assert(self.entries@.drop_last() =~= s0);
                    assert(final(self).key_seq() =~= old(self).key_seq().push(key@));
                }
            },
        }
    }

    /// Remove a key's binding, returning its value.
    pub fn remove(&mut self, key: &String) -> (r: Option<V>)
        requires
            old(self).wf(),
        ensures
            final(self).wf(),
            final(self)@ == old(self)@.remove(key@),
            match r {
                Some(v) => old(self)@.contains_key(key@) && v@ == old(self)@[key@],
                None => !old(self)@.contains_key(key@) && *final(self) == *old(self),
            },
            old(self)@.contains_key(key@) ==> exists|i: int|
                0 <= i < old(self).key_seq().len() && old(self).key_seq()[i] == key@
                    && final(self).key_seq() == old(self).key_seq().remove(i),
    {
        let ghost s0 = self.entries@;
        match self.index_of(key) {
            Some(i) => {
                proof {
                    Self::lemma_index(s0, i as int);
                    Self::lemma_remove(s0, i as int);
                }
                let p = self.entries.remove(i);
                proof {
                    assert(final(self).key_seq() =~= old(self).key_seq().remove(i as int));
                }
                Some(p.1)
            },
            None => {
                proof {
                    assert(old(self)@.remove(key@) =~= old(self)@);
                }
                None
            },
        }
    }

    /// How many bindings the map holds.
    pub fn len(&self) -> (n: usize)
        requires
            self.wf(),
        ensures
            n == self@.dom().len(),
            n == self.key_seq().len(),
    {
        proof {
            Self::lemma_dom_len(self.entries@);
        }
        self.entries.len()
    }

    /// The binding at a position, in insertion order.
    pub fn entry_at(&self, i: usize) -> (r: (&String, &V))
        requires
            self.wf(),
            i < self.key_seq().len(),
        ensures
            r.0@ == self.key_seq()[i as int],
            self@.contains_key(r.0@),
            r.1@ == self@[r.0@],
    {
        proof {
            Self::lemma_index(self.entries@, i as int);
        }
        let p = &self.entries[i];
        (&p.0, &p.1)
    }
}

impl<V: View> View for StrMap<V> {
    type V = Map<Seq<char>, V::V>;

    open spec fn view(&self) -> Map<Seq<char>, V::V> {
        StrMap::<V>::map_of(self.entries@)
    }
}

/// Whether a sequence of texts holds pairwise-distinct elements.
pub open spec fn distinct_seqs(s: Seq<Seq<char>>) -> bool {
    forall|i: int, j: int| 0 <= i < j < s.len() ==> s[i] != s[j]
}

impl<V: View> StrMap<V> {
    /// A key is in the denoted map exactly when it is among the key views.
    pub proof fn lemma_contains_key_seq(&self)
        ensures
            forall|k: Seq<char>| #[trigger] self@.contains_key(k) <==> self.key_seq().contains(k),
    {
        Self::lemma_contains(self.entries@);
        assert forall|k: Seq<char>| #[trigger] self@.contains_key(k) implies self.key_seq().contains(
            k,
        ) by {
            let i = choose|i: int| 0 <= i < self.entries@.len() && self.entries@[i].0@ == k;
            assert(self.key_seq()[i] == k);
        }
        assert forall|k: Seq<char>| self.key_seq().contains(k) implies #[trigger] self@.contains_key(
            k,
        ) by {
            let i = choose|i: int| 0 <= i < self.key_seq().len() && self.key_seq()[i] == k;
            assert(self.entries@[i].0@ == k);
            assert(exists|j: int| 0 <= j < self.entries@.len() && self.entries@[j].0@ == k);
        }
    }

    /// Key uniqueness is the same fact stated over the key view sequence.
    pub proof fn lemma_wf_keys(&self)
        ensures
            self.wf() <==> distinct_seqs(self.key_seq()),
    {
        if distinct_seqs(self.key_seq()) {
            assert forall|i: int, j: int|
                0 <= i < j < self.entries@.len() implies self.entries@[i].0@
                != self.entries@[j].0@ by {
                assert(self.key_seq()[i] == self.entries@[i].0@);
                assert(self.key_seq()[j] == self.entries@[j].0@);
            }
        }
        if self.wf() {
            assert forall|i: int, j: int|
                0 <= i < j < self.key_seq().len() implies self.key_seq()[i]
                != self.key_seq()[j] by {
                assert(self.key_seq()[i] == self.entries@[i].0@);
                assert(self.key_seq()[j] == self.entries@[j].0@);
            }
        }
    }
}

impl<V: Copy + View> StrMap<V> {
    /// Entrywise-equal entry sequences denote the same map.
    pub proof fn lemma_map_of_congruent(a: Seq<(String, V)>, b: Seq<(String, V)>)
        requires
            a.len() == b.len(),
            forall|i: int| 0 <= i < a.len() ==> a[i].0@ == b[i].0@ && a[i].1@ == b[i].1@,
        ensures
            Self::map_of(a) == Self::map_of(b),
        decreases a.len(),
    {
        if a.len() > 0 {
            assert(forall|i: int|
                0 <= i < a.drop_last().len() ==> a.drop_last()[i] == a[i] && b.drop_last()[i]
                    == b[i]);
            Self::lemma_map_of_congruent(a.drop_last(), b.drop_last());
            assert(Self::map_of(a.drop_last()).insert(a.last().0@, a.last().1@) =~= Self::map_of(
                b.drop_last(),
            ).insert(b.last().0@, b.last().1@));
        } else {
            assert(Self::map_of(a) =~= Self::map_of(b));
        }
    }

    /// An owned copy of a map of plain values.
    pub fn duplicate(&self) -> (r: Self)
        ensures
            r@ == self@,
            r.key_seq() == self.key_seq(),
            self.wf() ==> r.wf(),
    {
        let mut entries: Vec<(String, V)> = Vec::new();
        let mut i: usize = 0;
        while i < self.entries.len()
            invariant
                0 <= i <= self.entries@.len(),
                entries@.len() == i,
                forall|j: int|
                    0 <= j < i ==> (#[trigger] entries@[j]).0@ == self.entries@[j].0@
                        && entries@[j].1@ == self.entries@[j].1@,
            decreases self.entries@.len() - i,
        {
            let key = self.entries[i].0.clone();
            let value = self.entries[i].1;
            entries.push((key, value));
            i += 1;
        }
        let r = StrMap { entries };
        proof {
            Self::lemma_map_of_congruent(r.entries@, self.entries@);
            assert(r.key_seq() =~= self.key_seq());
        }
        r
    }
}

/// A set of `String`s, elements distinct, insertion order kept.
pub struct StrSet {
    pub items: Vec<String>,
}

impl View for StrSet {
    type V = Seq<Seq<char>>;

    open spec fn view(&self) -> Seq<Seq<char>> {
        Seq::new(self.items@.len(), |i: int| self.items@[i]@)
    }
}

impl StrSet {
    /// Elements are pairwise distinct.
    pub open spec fn wf(self) -> bool {
        forall|i: int, j: int| 0 <= i < j < self@.len() ==> self@[i] != self@[j]
    }

    /// An empty set.
    pub fn new() -> (r: Self)
        ensures
            r.wf(),
            r@ == Seq::<Seq<char>>::empty(),
    {
        let r = StrSet { items: Vec::new() };
        proof {
            assert(r@ =~= Seq::<Seq<char>>::empty());
        }
        r
    }

    /// Position of an element, if present.
    fn index_of(&self, key: &String) -> (r: Option<usize>)
        ensures
            match r {
                Some(i) => i < self@.len() && self@[i as int] == key@,
                None => !self@.contains(key@),
            },
    {
        let mut i: usize = 0;
        while i < self.items.len()
            invariant
                i <= self@.len(),
                self@.len() == self.items@.len(),
                forall|j: int| 0 <= j < i ==> self@[j] != key@,
            decreases self@.len() - i,
        {
            if self.items[i].eq(key) {
                return Some(i);
            }
            i += 1;
        }
        None
    }

    /// Whether an element is present.
    pub fn contains(&self, key: &String) -> (r: bool)
        ensures
            r == self@.contains(key@),
    {
        match self.index_of(key) {
            Some(i) => {
                proof {
                    assert(self@[i as int] == key@);
                }
                true
            },
            None => false,
        }
    }

    /// Add an element; no change if it is already present.
    pub fn insert(&mut self, key: String)
        requires
            old(self).wf(),
        ensures
            final(self).wf(),
            final(self)@ == if old(self)@.contains(key@) {
                old(self)@
            } else {
                old(self)@.push(key@)
            },
            final(self)@.contains(key@),
    {
        let present = self.contains(&key);
        if !present {
            self.items.push(key);
            proof {
                assert(final(self)@ =~= old(self)@.push(key@));
                assert(final(self)@[old(self)@.len() as int] == key@);
            }
        }
    }

    /// Remove an element; no change if it is absent.
    pub fn remove(&mut self, key: &String)
        requires
            old(self).wf(),
        ensures
            final(self).wf(),
            forall|x: Seq<char>| #[trigger]
                final(self)@.contains(x) <==> (old(self)@.contains(x) && x != key@),
            old(self)@.contains(key@) ==> final(self)@.len() == old(self)@.len() - 1,
            !old(self)@.contains(key@) ==> final(self)@ == old(self)@,
    {
        match self.index_of(key) {
            Some(i) => {
                self.items.remove(i);
                proof {
                    let s0 = old(self)@;
                    assert(final(self)@ =~= s0.remove(i as int));
                    assert forall|x: Seq<char>| #[trigger]
                        final(self)@.contains(x) implies (s0.contains(x) && x != key@) by {
                        let j = choose|j: int|
                            0 <= j < final(self)@.len() && final(self)@[j] == x;
                        if j < i {
                            assert(s0[j] == x);
                            assert(s0[j] != s0[i as int]);
                        } else {
                            assert(s0[j + 1] == x);
                            assert(s0[i as int] != s0[j + 1]);
                        }
                    }
                    assert forall|x: Seq<char>|
                        s0.contains(x) && x != key@ implies #[trigger] final(self)@.contains(
                        x,
                    ) by {
                        let j = choose|j: int| 0 <= j < s0.len() && s0[j] == x;
                        if j < i {
                            assert(final(self)@[j] == x);
                        } else {
                            assert(j != i);
                            assert(final(self)@[j - 1] == x);
                        }
                    }
                }
            },
            None => {},
        }
    }

    /// An owned copy of this set.
    pub fn duplicate(&self) -> (r: StrSet)
        ensures
            r@ == self@,
    {
        let mut items: Vec<String> = Vec::new();
        let mut i: usize = 0;
        while i < self.items.len()
            invariant
                0 <= i <= self.items@.len(),
                items@.len() == i,
                forall|j: int| 0 <= j < i ==> items@[j]@ == self.items@[j]@,
            decreases self.items@.len() - i,
        {
            items.push(self.items[i].clone());
            i += 1;
        }
        let r = StrSet { items };
        proof {
            assert(r@ =~= self@);
        }
        r
    }

    /// How many elements the set holds.
    pub fn len(&self) -> (n: usize)
        ensures
            n == self@.len(),
    {
        self.items.len()
    }

    /// Whether the set is empty.
    pub fn is_empty(&self) -> (r: bool)
        ensures
            r == (self@.len() == 0),
    {
        self.items.len() == 0
    }

    /// The element at a position, in insertion order.
    pub fn item_at(&self, i: usize) -> (r: &String)
        requires
            i < self@.len(),
        ensures
            r@ == self@[i as int],
    {
        &self.items[i]
    }
}

} // verus!
