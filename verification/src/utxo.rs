//! The set of unspent transaction outputs, keyed by outpoint (transaction
//! id, output index). Entries keep the order in which they were added.

use vstd::prelude::*;
use crate::tx::{TxOut, TxOutView};

verus! {

/// A spent or spendable output's position: transaction id and output index.
pub type OutPoint = (Seq<char>, usize);

/// No outpoint occurs twice.
pub open spec fn keys_distinct(s: Seq<(OutPoint, TxOutView)>) -> bool {
    forall|i: int, j: int| 0 <= i < j < s.len() ==> #[trigger] s[i].0 != #[trigger] s[j].0
}

/// Whether some entry has outpoint `k`.
pub open spec fn has_key(s: Seq<(OutPoint, TxOutView)>, k: OutPoint) -> bool {
    exists|i: int| 0 <= i < s.len() && #[trigger] s[i].0 == k
}

/// The map from outpoint to output that a list of entries describes.
pub open spec fn entries_map(s: Seq<(OutPoint, TxOutView)>) -> Map<OutPoint, TxOutView> {
    Map::new(
        |k: OutPoint| has_key(s, k),
        |k: OutPoint| s[choose|i: int| 0 <= i < s.len() && #[trigger] s[i].0 == k].1,
    )
}

/// The entry at index `i` is what the map holds for its outpoint.
pub proof fn lemma_entries_map_at(s: Seq<(OutPoint, TxOutView)>, i: int)
    requires
        keys_distinct(s),
        0 <= i < s.len(),
    ensures
        entries_map(s).contains_key(s[i].0),
        entries_map(s)[s[i].0] == s[i].1,
{
    let k = s[i].0;
    assert(has_key(s, k));
    let c = choose|c: int| 0 <= c < s.len() && #[trigger] s[c].0 == k;
    if c < i {
        assert(s[c].0 != s[i].0);
    } else if i < c {
        assert(s[i].0 != s[c].0);
    }
}

/// One entry of the set.
pub struct UtxoEntry {
    pub txid: String,
    pub vout: usize,
    pub output: TxOut,
}

/// Unspent outputs. No outpoint occurs twice.
pub struct UtxoSet {
    entries: Vec<UtxoEntry>,
}

impl UtxoSet {
    /// The entries in order: outpoint and output.
    pub closed spec fn entries(&self) -> Seq<(OutPoint, TxOutView)> {
        self.entries@.map_values(|e: UtxoEntry| ((e.txid@, e.vout), e.output@))
    }

    #[verifier::type_invariant]
    closed spec fn inv(&self) -> bool {
        keys_distinct(self.entries())
    }
}

impl View for UtxoSet {
    type V = Map<OutPoint, TxOutView>;

    open spec fn view(&self) -> Map<OutPoint, TxOutView> {
        entries_map(self.entries())
    }
}

impl UtxoSet {
    /// The empty set.
    pub fn new() -> (res: Self)
        ensures
            res.entries() == Seq::<(OutPoint, TxOutView)>::empty(),
            res@ == Map::<OutPoint, TxOutView>::empty(),
    {
        let res = UtxoSet { entries: Vec::new() };
        assert(res.entries() =~= Seq::<(OutPoint, TxOutView)>::empty());
        assert(res@ =~= Map::<OutPoint, TxOutView>::empty());
        res
    }

    /// The number of entries; the entries' outpoints are distinct.
    pub fn len(&self) -> (res: usize)
        ensures
            res == self.entries().len(),
            keys_distinct(self.entries()),
    {
        proof {
            use_type_invariant(self);
        }
        self.entries.len()
    }

    /// The entry at index `i`: transaction id, output index and output.
    pub fn entry(&self, i: usize) -> (res: (&String, usize, &TxOut))
        requires
            i < self.entries().len(),
        ensures
            ((res.0@, res.1), res.2@) == self.entries()[i as int],
            self@.contains_key((res.0@, res.1)),
            self@[(res.0@, res.1)] == res.2@,
    {
        proof {
            use_type_invariant(self);
            lemma_entries_map_at(self.entries(), i as int);
        }
        let e = &self.entries[i];
        (&e.txid, e.vout, &e.output)
    }

    /// The index of the entry with the given outpoint, if any.
    fn find(&self, txid: &String, vout: usize) -> (res: Option<usize>)
        ensures
            res matches Some(i) ==> i < self.entries().len() && self.entries()[i as int].0 == (
                txid@,
                vout,
            ),
            res is None ==> !has_key(self.entries(), (txid@, vout)),
    {
        let mut i: usize = 0;
        while i < self.entries.len()
            invariant
                i <= self.entries.len(),
                forall|j: int| 0 <= j < i ==> #[trigger] self.entries()[j].0 != (txid@, vout),
            decreases self.entries.len() - i,
        {
            if self.entries[i].vout == vout && self.entries[i].txid == *txid {
                return Some(i);
            }
            i += 1;
        }
        None
    }

    /// The output at the given outpoint, if it is unspent.
    pub fn get(&self, txid: &String, vout: usize) -> (res: Option<&TxOut>)
        ensures
            res is Some <==> self@.contains_key((txid@, vout)),
            res matches Some(o) ==> o@ == self@[(txid@, vout)],
    {
        proof {
            use_type_invariant(self);
        }
        match self.find(txid, vout) {
            Some(i) => {
                proof {
                    lemma_entries_map_at(self.entries(), i as int);
                }
                Some(&self.entries[i].output)
            },
            None => None,
        }
    }

    /// Whether the outpoint is unspent.
    pub fn contains(&self, txid: &String, vout: usize) -> (res: bool)
        ensures
            res == self@.contains_key((txid@, vout)),
    {
        self.find(txid, vout).is_some()
    }

    /// Adds or replaces the output at an outpoint. A replaced entry keeps
    /// its place; a new one goes last.
    pub fn insert(&mut self, txid: String, vout: usize, output: TxOut)
        ensures
            final(self)@ == old(self)@.insert((txid@, vout), output@),
            has_key(old(self).entries(), (txid@, vout)) ==> final(self).entries()
                == old(self).entries().update(
                choose|i: int|
                    0 <= i < old(self).entries().len() && #[trigger] old(self).entries()[i].0 == (
                        txid@,
                        vout,
                    ),
                ((txid@, vout), output@),
            ),
            !has_key(old(self).entries(), (txid@, vout)) ==> final(self).entries()
                == old(self).entries().push(((txid@, vout), output@)),
    {
        proof {
            use_type_invariant(&*self);
        }
        let ghost old_entries = self.entries();
        let ghost k = (txid@, vout);
        let ghost v = output@;
        let found = self.find(&txid, vout);
        match found {
            Some(i) => {
                proof {
                    let c = choose|c: int|
                        0 <= c < old_entries.len() && #[trigger] old_entries[c].0 == k;
                    assert(has_key(old_entries, k));
                    if c < i {
                        assert(old_entries[c].0 != old_entries[i as int].0);
                    } else if (i as int) < c {
                        assert(old_entries[i as int].0 != old_entries[c].0);
                    }
                }
                let entry = UtxoEntry { txid, vout, output };
                let ghost new_entries = old_entries.update(i as int, (k, v));
                proof {
                    assert forall|a: int, b: int| 0 <= a < b < new_entries.len() implies #[trigger] new_entries[a].0
                        != #[trigger] new_entries[b].0 by {
                        assert(old_entries[a].0 != old_entries[b].0);
                    }
                    assert forall|key: OutPoint| #[trigger] entries_map(new_entries).contains_key(key)
                        == entries_map(old_entries).insert(k, v).contains_key(key) by {
                        if key != k {
                            if has_key(new_entries, key) {
                                let j = choose|j: int| 0 <= j < new_entries.len() && #[trigger] new_entries[j].0 == key;
                                assert(old_entries[j].0 == key);
                            }
                            if has_key(old_entries, key) {
                                let j = choose|j: int| 0 <= j < old_entries.len() && #[trigger] old_entries[j].0 == key;
                                assert(new_entries[j].0 == key);
                            }
                        } else {
                            assert(new_entries[i as int].0 == k);
                        }
                    }
                    assert forall|key: OutPoint| #[trigger] entries_map(new_entries).contains_key(key)
                        implies entries_map(new_entries)[key] == entries_map(old_entries).insert(
                        k,
                        v,
                    )[key] by {
                        let j = choose|j: int| 0 <= j < new_entries.len() && #[trigger] new_entries[j].0 == key;
                        lemma_entries_map_at(new_entries, j);
                        if key != k {
                            assert(j != i);
                            assert(old_entries[j] == new_entries[j]);
                            lemma_entries_map_at(old_entries, j);
                        }
                    }
                    assert(entries_map(new_entries) =~= entries_map(old_entries).insert(k, v));
                }
                let mut entries: Vec<UtxoEntry> = Vec::new();
                std::mem::swap(&mut entries, &mut self.entries);
                entries.set(i, entry);
                assert(entries@.map_values(|e: UtxoEntry| ((e.txid@, e.vout), e.output@))
                    =~= new_entries);
                self.entries = entries;
            },
            None => {
                let entry = UtxoEntry { txid, vout, output };
                let ghost new_entries = old_entries.push((k, v));
                proof {
                    assert forall|a: int, b: int| 0 <= a < b < new_entries.len() implies #[trigger] new_entries[a].0
                        != #[trigger] new_entries[b].0 by {
                        if b < old_entries.len() {
                            assert(old_entries[a].0 != old_entries[b].0);
                        } else {
                            assert(old_entries[a].0 != k);
                        }
                    }
                    assert forall|key: OutPoint| #[trigger] entries_map(new_entries).contains_key(key)
                        == entries_map(old_entries).insert(k, v).contains_key(key) by {
                        if key != k {
                            if has_key(new_entries, key) {
                                let j = choose|j: int| 0 <= j < new_entries.len() && #[trigger] new_entries[j].0 == key;
                                assert(old_entries[j].0 == key);
                            }
                            if has_key(old_entries, key) {
                                let j = choose|j: int| 0 <= j < old_entries.len() && #[trigger] old_entries[j].0 == key;
                                assert(new_entries[j].0 == key);
                            }
                        } else {
                            assert(new_entries[old_entries.len() as int].0 == k);
                        }
                    }
                    assert forall|key: OutPoint| #[trigger] entries_map(new_entries).contains_key(key)
                        implies entries_map(new_entries)[key] == entries_map(old_entries).insert(
                        k,
                        v,
                    )[key] by {
                        let j = choose|j: int| 0 <= j < new_entries.len() && #[trigger] new_entries[j].0 == key;
                        lemma_entries_map_at(new_entries, j);
                        if key != k {
                            assert(old_entries[j] == new_entries[j]);
                            lemma_entries_map_at(old_entries, j);
                        }
                    }
                    assert(entries_map(new_entries) =~= entries_map(old_entries).insert(k, v));
                }
                let mut entries: Vec<UtxoEntry> = Vec::new();
                std::mem::swap(&mut entries, &mut self.entries);
                entries.push(entry);
                assert(entries@.map_values(|e: UtxoEntry| ((e.txid@, e.vout), e.output@))
                    =~= new_entries);
                self.entries = entries;
            },
        }
    }

    /// Removes the output at an outpoint, if present; the other entries keep
    /// their order.
    pub fn remove(&mut self, txid: &String, vout: usize)
        ensures
            final(self)@ == old(self)@.remove((txid@, vout)),
            has_key(old(self).entries(), (txid@, vout)) ==> final(self).entries()
                == old(self).entries().remove(
                choose|i: int|
                    0 <= i < old(self).entries().len() && #[trigger] old(self).entries()[i].0 == (
                        txid@,
                        vout,
                    ),
            ),
            !has_key(old(self).entries(), (txid@, vout)) ==> final(self).entries() == old(
                self,
            ).entries(),
    {
        proof {
            use_type_invariant(&*self);
        }
        let ghost old_entries = self.entries();
        let ghost k = (txid@, vout);
        match self.find(txid, vout) {
            Some(i) => {
                proof {
                    let c = choose|c: int|
                        0 <= c < old_entries.len() && #[trigger] old_entries[c].0 == k;
                    assert(has_key(old_entries, k));
                    if c < i {
                        assert(old_entries[c].0 != old_entries[i as int].0);
                    } else if (i as int) < c {
                        assert(old_entries[i as int].0 != old_entries[c].0);
                    }
                }
                let ghost new_entries = old_entries.remove(i as int);
                proof {
                    assert forall|a: int, b: int| 0 <= a < b < new_entries.len() implies #[trigger] new_entries[a].0
                        != #[trigger] new_entries[b].0 by {
                        if b < i {
                            assert(old_entries[a].0 != old_entries[b].0);
                        } else if a < i {
                            assert(old_entries[a].0 != old_entries[b + 1].0);
                        } else {
                            assert(old_entries[a + 1].0 != old_entries[b + 1].0);
                        }
                    }
                    assert forall|key: OutPoint| #[trigger] entries_map(new_entries).contains_key(key)
                        == entries_map(old_entries).remove(k).contains_key(key) by {
                        if has_key(new_entries, key) {
                            let j = choose|j: int| 0 <= j < new_entries.len() && #[trigger] new_entries[j].0 == key;
                            if j < i {
                                assert(old_entries[j].0 == key);
                                assert(old_entries[j].0 != old_entries[i as int].0);
                            } else {
                                assert(old_entries[j + 1].0 == key);
                                assert(old_entries[i as int].0 != old_entries[j + 1].0);
                            }
                        }
                        if key != k && has_key(old_entries, key) {
                            let j = choose|j: int| 0 <= j < old_entries.len() && #[trigger] old_entries[j].0 == key;
                            if j < i {
                                assert(new_entries[j].0 == key);
                            } else {
                                assert(j != i);
                                assert(new_entries[j - 1].0 == key);
                            }
                        }
                    }
                    assert forall|key: OutPoint| #[trigger] entries_map(new_entries).contains_key(key)
                        implies entries_map(new_entries)[key] == entries_map(old_entries).remove(
                        k,
                    )[key] by {
                        let j = choose|j: int| 0 <= j < new_entries.len() && #[trigger] new_entries[j].0 == key;
                        lemma_entries_map_at(new_entries, j);
                        if j < i {
                            assert(old_entries[j] == new_entries[j]);
                            lemma_entries_map_at(old_entries, j);
                        } else {
                            assert(old_entries[j + 1] == new_entries[j]);
                            lemma_entries_map_at(old_entries, j + 1);
                        }
                    }
                    assert(entries_map(new_entries) =~= entries_map(old_entries).remove(k));
                }
                let mut entries: Vec<UtxoEntry> = Vec::new();
                std::mem::swap(&mut entries, &mut self.entries);
                let _removed = entries.remove(i);
                assert(entries@.map_values(|e: UtxoEntry| ((e.txid@, e.vout), e.output@))
                    =~= new_entries);
                self.entries = entries;
            },
            None => {
                proof {
                    assert(entries_map(old_entries) =~= entries_map(old_entries).remove(k));
                }
            },
        }
    }
}

impl Clone for UtxoEntry {
    fn clone(&self) -> (res: Self)
        ensures
            res.txid@ == self.txid@,
            res.vout == self.vout,
            res.output@ == self.output@,
    {
        UtxoEntry { txid: self.txid.clone(), vout: self.vout, output: self.output.clone() }
    }
}

impl Clone for UtxoSet {
    fn clone(&self) -> (res: Self)
        ensures
            res.entries() == self.entries(),
            res@ == self@,
    {
        proof {
            use_type_invariant(self);
        }
        let entries = self.entries.clone();
        proof {
            assert forall|i: int| 0 <= i < entries.len() implies ((entries@[i].txid@, entries@[i].vout),
                entries@[i].output@) == ((self.entries@[i].txid@, self.entries@[i].vout),
                self.entries@[i].output@) by {
                assert(cloned::<UtxoEntry>(self.entries[i], entries[i]));
            }
            assert(entries@.map_values(|e: UtxoEntry| ((e.txid@, e.vout), e.output@))
                =~= self.entries());
        }
        UtxoSet { entries }
    }
}

} // verus!
