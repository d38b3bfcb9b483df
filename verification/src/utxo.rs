use vstd::prelude::*;

use crate::transaction::{OutPoint, OutPointView, TxOut, TxOutView};

verus! {

/// Whether two out-points name the same output.
pub fn out_point_eq(a: &OutPoint, b: &OutPoint) -> (same: bool)
    ensures
        same == (a@ == b@),
{
    a.index == b.index && a.txid == b.txid
}

/// The unspent outputs, each under the out-point that names it; no out-point occurs
/// twice.
#[derive(Debug)]
pub struct UtxoSet {
    entries: Vec<(OutPoint, TxOut)>,
}

/// Whether no key occurs twice in a listing of entries.
pub open spec fn keys_distinct(entries: Seq<(OutPointView, TxOutView)>) -> bool {
    forall|i: int, j: int|
        0 <= i < entries.len() && 0 <= j < entries.len() && i != j ==> #[trigger] entries[i].0
            != #[trigger] entries[j].0
}

/// Whether a listing of entries holds `key`.
pub open spec fn has_key(entries: Seq<(OutPointView, TxOutView)>, key: OutPointView) -> bool {
    exists|i: int| 0 <= i < entries.len() && #[trigger] entries[i].0 == key
}

/// The map that a listing of entries with distinct keys stands for.
pub open spec fn entries_map(entries: Seq<(OutPointView, TxOutView)>) -> Map<OutPointView, TxOutView> {
    Map::new(
        |k: OutPointView| has_key(entries, k),
        |k: OutPointView| entries[choose|i: int| 0 <= i < entries.len() && #[trigger] entries[i].0 == k].1,
    )
}

/// In a listing with distinct keys, the entry at `i` is what the map gives for its key.
pub proof fn lemma_entries_map_at(entries: Seq<(OutPointView, TxOutView)>, i: int)
    requires
        keys_distinct(entries),
        0 <= i < entries.len(),
    ensures
        entries_map(entries).contains_key(entries[i].0),
        entries_map(entries)[entries[i].0] == entries[i].1,
{
    let k = entries[i].0;
    assert(has_key(entries, k));
    let j = choose|j: int| 0 <= j < entries.len() && #[trigger] entries[j].0 == k;
    assert(i == j);
}

impl UtxoSet {
    #[verifier::type_invariant]
    spec fn distinct(&self) -> bool {
        keys_distinct(self.listing())
    }

    /// The entries in the order the set keeps them.
    pub closed spec fn listing(&self) -> Seq<(OutPointView, TxOutView)> {
        self.entries@.map_values(|e: (OutPoint, TxOut)| (e.0@, e.1@))
    }

    /// The set as a map from out-points to outputs.
    pub open spec fn view(&self) -> Map<OutPointView, TxOutView> {
        entries_map(self.listing())
    }

    /// The listing has no repeated keys and stands for the map.
    pub proof fn lemma_listing(&self)
        requires
            keys_distinct(self.listing()),
        ensures
            keys_distinct(self.listing()),
            forall|i: int|
                0 <= i < self.listing().len() ==> self@.contains_key(#[trigger] self.listing()[i].0)
                    && self@[self.listing()[i].0] == self.listing()[i].1,
            forall|k: OutPointView| #[trigger] self@.contains_key(k) <==> has_key(self.listing(), k),
    {
        assert forall|i: int| 0 <= i < self.listing().len() implies self@.contains_key(
            #[trigger] self.listing()[i].0,
        ) && self@[self.listing()[i].0] == self.listing()[i].1 by {
            lemma_entries_map_at(self.listing(), i);
        }
    }

    /// An empty set.
    pub fn new() -> (s: UtxoSet)
        ensures
            s.listing() == Seq::<(OutPointView, TxOutView)>::empty(),
            s@ == Map::<OutPointView, TxOutView>::empty(),
            keys_distinct(s.listing()),
    {
        let s = UtxoSet { entries: Vec::new() };
        assert(s.listing() =~= Seq::<(OutPointView, TxOutView)>::empty());
        assert(s@ =~= Map::<OutPointView, TxOutView>::empty());
        s
    }

    /// The number of unspent outputs.
    pub fn len(&self) -> (n: usize)
        ensures
            n == self.listing().len(),
            n == self@.len(),
            keys_distinct(self.listing()),
    {
        proof {
            use_type_invariant(self);
            self.lemma_listing();
            let keys = self.listing().map_values(|e: (OutPointView, TxOutView)| e.0);
            assert(keys.no_duplicates()) by {
                assert forall|i: int, j: int| 0 <= i < keys.len() && 0 <= j < keys.len() && i != j
                    implies keys[i] != keys[j] by {
                    assert(self.listing()[i].0 != self.listing()[j].0);
                }
            }
            keys.unique_seq_to_set();
            assert forall|k: OutPointView| keys.to_set().contains(k) <==> #[trigger] self@.dom().contains(k) by {
                if has_key(self.listing(), k) {
                    let i = choose|i: int| 0 <= i < self.listing().len() && #[trigger] self.listing()[i].0 == k;
                    assert(keys[i] == k);
                }
                if keys.contains(k) {
                    let i = choose|i: int| 0 <= i < keys.len() && keys[i] == k;
                    assert(self.listing()[i].0 == k);
                }
            }
            assert(keys.to_set() =~= self@.dom());
        }
        self.entries.len()
    }

    /// The position of `key` in the listing, if it is there.
    fn find(&self, key: &OutPoint) -> (pos: Option<usize>)
        ensures
            match pos {
                Some(i) => i < self.listing().len() && self.listing()[i as int].0 == key@,
                None => !has_key(self.listing(), key@),
            },
    {
        let mut i: usize = 0;
        while i < self.entries.len()
            invariant
                i <= self.entries@.len(),
                forall|j: int| 0 <= j < i ==> #[trigger] self.listing()[j].0 != key@,
            decreases self.entries@.len() - i,
        {
            if out_point_eq(&self.entries[i].0, key) {
                return Some(i);
            }
            i = i + 1;
        }
        None
    }

    /// The output stored under `key`.
    pub fn get(&self, key: &OutPoint) -> (out: Option<&TxOut>)
        ensures
            match out {
                Some(o) => self@.contains_key(key@) && self@[key@] == o@,
                None => !self@.contains_key(key@),
            },
    {
        proof {
            use_type_invariant(self);
            self.lemma_listing();
        }
        match self.find(key) {
            Some(i) => Some(&self.entries[i].1),
            None => None,
        }
    }

    /// Whether an output is stored under `key`.
    pub fn contains_key(&self, key: &OutPoint) -> (b: bool)
        ensures
            b == self@.contains_key(key@),
    {
        proof {
            use_type_invariant(self);
            self.lemma_listing();
        }
        self.find(key).is_some()
    }

    /// Stores `value` under `key`, replacing what was there.
    pub fn insert(&mut self, key: OutPoint, value: TxOut)
        ensures
            final(self)@ == old(self)@.insert(key@, value@),
            keys_distinct(final(self).listing()),
            has_key(old(self).listing(), key@) ==> exists|i: int|
                0 <= i < old(self).listing().len() && #[trigger] old(self).listing()[i].0 == key@
                    && final(self).listing() == old(self).listing().update(i, (key@, value@)),
            !has_key(old(self).listing(), key@) ==> final(self).listing() == old(self).listing().push(
                (key@, value@),
            ),
    {
        proof {
            use_type_invariant(&*self);
        }
        let ghost old_listing = self.listing();
        let ghost mut pos: int = old_listing.len() as int;
        match self.find(&key) {
            Some(i) => {
                proof {
                    pos = i as int;
                    assert(old_listing[i as int].0 == key@);
                }
                let ghost kv = key@;
                let ghost vv = value@;
                let mut entries: Vec<(OutPoint, TxOut)> = Vec::new();
                std::mem::swap(&mut entries, &mut self.entries);
                entries.set(i, (key, value));
                proof {
                    let l = entries@.map_values(|e: (OutPoint, TxOut)| (e.0@, e.1@));
                    assert(l =~= old_listing.update(i as int, (kv, vv)));
                    assert(keys_distinct(l));
                }
                self.entries = entries;
                proof {
                    let new_listing = self.listing();
                    assert(new_listing =~= old_listing.update(i as int, (kv, vv)));
                    assert(keys_distinct(new_listing));
                }
            },
            None => {
                let ghost kv = key@;
                let ghost vv = value@;
                let mut entries: Vec<(OutPoint, TxOut)> = Vec::new();
                std::mem::swap(&mut entries, &mut self.entries);
                entries.push((key, value));
                proof {
                    let l = entries@.map_values(|e: (OutPoint, TxOut)| (e.0@, e.1@));
                    assert(l =~= old_listing.push((kv, vv)));
                    assert(keys_distinct(l));
                }
                self.entries = entries;
                proof {
                    let new_listing = self.listing();
                    assert(new_listing =~= old_listing.push((kv, vv)));
                    assert(keys_distinct(new_listing));
                }
            },
        }
        proof {
            let new_listing = self.listing();
            let m = old(self)@.insert(key@, value@);
            assert forall|k: OutPointView| #[trigger] self@.contains_key(k) <==> m.contains_key(k) by {
                if has_key(old_listing, k) {
                    let j = choose|j: int| 0 <= j < old_listing.len() && #[trigger] old_listing[j].0 == k;
                    assert(new_listing[j].0 == k || k == key@);
                }
                if has_key(new_listing, k) {
                    let j = choose|j: int| 0 <= j < new_listing.len() && #[trigger] new_listing[j].0 == k;
                    if k != key@ {
                        assert(old_listing[j].0 == k);
                    }
                }
                if k == key@ {
                    assert(new_listing[pos].0 == key@);
                }
            }
            assert forall|k: OutPointView| #[trigger] self@.contains_key(k) implies self@[k] == m[k] by {
                let j = choose|j: int| 0 <= j < new_listing.len() && #[trigger] new_listing[j].0 == k;
                lemma_entries_map_at(new_listing, j);
                if k != key@ {
                    lemma_entries_map_at(old_listing, j);
                }
            }
            assert(self@ =~= m);
        }
    }

    /// Removes what is stored under `key`, if anything.
    pub fn remove(&mut self, key: &OutPoint)
        ensures
            final(self)@ == old(self)@.remove(key@),
            keys_distinct(final(self).listing()),
            has_key(old(self).listing(), key@) ==> exists|i: int|
                0 <= i < old(self).listing().len() && #[trigger] old(self).listing()[i].0 == key@
                    && final(self).listing() == old(self).listing().remove(i),
            !has_key(old(self).listing(), key@) ==> final(self).listing() == old(self).listing(),
    {
        proof {
            use_type_invariant(&*self);
        }
        let ghost old_listing = self.listing();
        match self.find(key) {
            Some(i) => {
                let mut entries: Vec<(OutPoint, TxOut)> = Vec::new();
                std::mem::swap(&mut entries, &mut self.entries);
                entries.remove(i);
                proof {
                    let l = entries@.map_values(|e: (OutPoint, TxOut)| (e.0@, e.1@));
                    assert(l =~= old_listing.remove(i as int));
                    assert(keys_distinct(l));
                }
                self.entries = entries;
                proof {
                    let new_listing = self.listing();
                    assert(new_listing =~= old_listing.remove(i as int));
                    let m = old(self)@.remove(key@);
                    assert forall|k: OutPointView| #[trigger] self@.contains_key(k) <==> m.contains_key(k) by {
                        if has_key(old_listing, k) && k != key@ {
                            let j = choose|j: int| 0 <= j < old_listing.len() && #[trigger] old_listing[j].0 == k;
                            if j < i {
                                assert(new_listing[j].0 == k);
                            } else {
                                assert(new_listing[j - 1].0 == k);
                            }
                        }
                        if has_key(new_listing, k) {
                            let j = choose|j: int| 0 <= j < new_listing.len() && #[trigger] new_listing[j].0 == k;
                            if j < i {
                                assert(old_listing[j].0 == k);
                            } else {
                                assert(old_listing[j + 1].0 == k);
                            }
                        }
                    }
                    assert forall|k: OutPointView| #[trigger] self@.contains_key(k) implies self@[k] == m[k] by {
                        let j = choose|j: int| 0 <= j < new_listing.len() && #[trigger] new_listing[j].0 == k;
                        lemma_entries_map_at(new_listing, j);
                        if j < i {
                            lemma_entries_map_at(old_listing, j);
                        } else {
                            lemma_entries_map_at(old_listing, j + 1);
                        }
                    }
                    assert(self@ =~= m);
                }
            },
            None => {
                proof {
                    assert(old(self)@.remove(key@) =~= old(self)@);
                }
            },
        }
    }

    /// A copy of the set, listed in the same order.
    pub fn duplicate(&self) -> (copy: UtxoSet)
        ensures
            copy.listing() == self.listing(),
            copy@ == self@,
            keys_distinct(copy.listing()),
    {
        proof {
            use_type_invariant(self);
        }
        let mut entries: Vec<(OutPoint, TxOut)> = Vec::new();
        let mut i: usize = 0;
        while i < self.entries.len()
            invariant
                i <= self.entries@.len(),
                entries@.len() == i,
                forall|j: int| 0 <= j < i ==> (#[trigger] entries@[j]).0@ == self.entries@[j].0@
                    && entries@[j].1@ == self.entries@[j].1@,
            decreases self.entries@.len() - i,
        {
            let e = &self.entries[i];
            entries.push((e.0.clone(), e.1.clone()));
            i = i + 1;
        }
        let ghost l = entries@.map_values(|e: (OutPoint, TxOut)| (e.0@, e.1@));
        assert(l =~= self.listing());
        UtxoSet { entries }
    }

    /// The entries, in the order the set keeps them.
    pub fn entries(&self) -> (list: &Vec<(OutPoint, TxOut)>)
        ensures
            list@.map_values(|e: (OutPoint, TxOut)| (e.0@, e.1@)) == self.listing(),
            keys_distinct(self.listing()),
    {
        proof {
            use_type_invariant(self);
        }
        &self.entries
    }
}

} // verus!
