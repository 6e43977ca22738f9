//! A map from string keys to values, kept as a vector of entries sorted
//! strictly by key; its meaning is the mathematical map of its entries.
use vstd::prelude::*;
use crate::order::{lex_lt, lemma_lex_irreflexive, lemma_lex_total, lemma_lex_transitive, str_eq, str_lt};

verus! {

/// The map that inserting the entries in order builds: a later entry for a
/// key replaces an earlier one.
pub open spec fn entries_map<W>(s: Seq<(Seq<char>, W)>) -> Map<Seq<char>, W>
    decreases s.len(),
{
    if s.len() == 0 {
        Map::empty()
    } else {
        entries_map(s.drop_last()).insert(s.last().0, s.last().1)
    }
}

/// No key occurs twice.
pub open spec fn unique_keys<W>(s: Seq<(Seq<char>, W)>) -> bool {
    forall|i: int, j: int| 0 <= i < j < s.len() ==> s[i].0 != s[j].0
}

/// Keys in strictly increasing order.
pub open spec fn strictly_sorted<W>(s: Seq<(Seq<char>, W)>) -> bool {
    forall|i: int, j: int| 0 <= i < j < s.len() ==> lex_lt(s[i].0, s[j].0)
}

/// With unique keys, the map holds exactly the entries.
pub proof fn lemma_entries_map<W>(s: Seq<(Seq<char>, W)>)
    requires
        unique_keys(s),
    ensures
        forall|k: Seq<char>| #[trigger]
            entries_map(s).contains_key(k) <==> exists|i: int| 0 <= i < s.len() && s[i].0 == k,
        forall|i: int| 0 <= i < s.len() ==> #[trigger] entries_map(s)[s[i].0] == s[i].1,
    decreases s.len(),
{
    if s.len() > 0 {
        let p = s.drop_last();
        lemma_entries_map(p);
        assert forall|k: Seq<char>| #[trigger]
            entries_map(s).contains_key(k) <==> exists|i: int| 0 <= i < s.len() && s[i].0 == k by {
            if entries_map(s).contains_key(k) && k != s.last().0 {
                assert(entries_map(p).contains_key(k));
                let i = choose|i: int| 0 <= i < p.len() && p[i].0 == k;
                assert(s[i].0 == k);
            }
            if exists|i: int| 0 <= i < s.len() && s[i].0 == k {
                let i = choose|i: int| 0 <= i < s.len() && s[i].0 == k;
                if i < s.len() - 1 {
                    assert(p[i].0 == k);
                    assert(entries_map(p).contains_key(k));
                }
            }
        }
        assert forall|i: int| 0 <= i < s.len() implies #[trigger] entries_map(s)[s[i].0] == s[i].1 by {
            if i < s.len() - 1 {
                assert(p[i] == s[i]);
                assert(s[i].0 != s.last().0);
                assert(entries_map(p)[p[i].0] == p[i].1);
            }
        }
    }
}

/// Strictly sorted keys are unique.
pub proof fn lemma_sorted_unique<W>(s: Seq<(Seq<char>, W)>)
    requires
        strictly_sorted(s),
    ensures
        unique_keys(s),
{
    assert forall|i: int, j: int| 0 <= i < j < s.len() implies s[i].0 != s[j].0 by {
        lemma_lex_irreflexive(s[i].0);
    }
}

/// String-keyed map with entries sorted by key.
pub struct KeyMap<V> {
    entries: Vec<(String, V)>,
}

impl<V: View> KeyMap<V> {
    /// The entries, keys and values taken by their views.
    pub closed spec fn entries(&self) -> Seq<(Seq<char>, V::V)> {
        Seq::new(self.entries@.len(), |i: int| (self.entries@[i].0@, self.entries@[i].1@))
    }

    /// The mathematical map.
    pub open spec fn map(&self) -> Map<Seq<char>, V::V> {
        entries_map(self.entries())
    }

    /// Entries are strictly sorted by key.
    pub open spec fn wf(&self) -> bool {
        strictly_sorted(self.entries())
    }

    /// The empty map.
    pub fn new() -> (m: Self)
        ensures
            m.wf(),
            m.entries() == Seq::<(Seq<char>, V::V)>::empty(),
            m.map() == Map::<Seq<char>, V::V>::empty(),
    {
        let m = KeyMap { entries: Vec::new() };
        assert(m.entries() =~= Seq::<(Seq<char>, V::V)>::empty());
        m
    }

    /// The number of entries.
    pub fn len(&self) -> (n: usize)
        ensures
            n == self.entries().len(),
    {
        self.entries.len()
    }

    /// The key of entry `i`.
    pub fn key_at(&self, i: usize) -> (k: &String)
        requires
            i < self.entries().len(),
        ensures
            k@ == self.entries()[i as int].0,
    {
        &self.entries[i].0
    }

    /// The value of entry `i`.
    pub fn value_at(&self, i: usize) -> (v: &V)
        requires
            i < self.entries().len(),
        ensures
            v@ == self.entries()[i as int].1,
    {
        &self.entries[i].1
    }

    /// The value stored under `key`, if any.
    pub fn get(&self, key: &str) -> (r: Option<&V>)
        requires
            self.wf(),
        ensures
            r matches Some(v) ==> self.map().contains_key(key@) && self.map()[key@] == v@,
            r is None ==> !self.map().contains_key(key@),
    {
        proof {
            lemma_sorted_unique(self.entries());
            lemma_entries_map(self.entries());
        }
        let mut i: usize = 0;
        while i < self.entries.len()
            invariant
                i <= self.entries@.len(),
                self.wf(),
                forall|j: int| 0 <= j < i ==> self.entries()[j].0 != key@,
            decreases self.entries@.len() - i,
        {
            if str_eq(self.entries[i].0.as_str(), key) {
                proof {
                    lemma_sorted_unique(self.entries());
                    lemma_entries_map(self.entries());
                    assert(self.entries()[i as int].0 == key@);
                    assert(self.map()[self.entries()[i as int].0] == self.entries()[i as int].1);
                }
                return Some(&self.entries[i].1);
            }
            i = i + 1;
        }
        None
    }

    /// Sets the value under `key`, replacing any earlier one.
    pub fn insert(&mut self, key: String, value: V)
        requires
            old(self).wf(),
        ensures
            final(self).wf(),
            final(self).map() == old(self).map().insert(key@, value@),
    {
        let ghost before = self.entries();
        let mut pos: usize = 0;
        while pos < self.entries.len() && str_lt(self.entries[pos].0.as_str(), key.as_str())
            invariant
                pos <= self.entries@.len(),
                self.entries() == before,
                forall|j: int| 0 <= j < pos ==> lex_lt(before[j].0, key@),
            decreases self.entries@.len() - pos,
        {
            pos = pos + 1;
        }
        let ghost k = key@;
        let ghost v = value@;
        proof {
            lemma_sorted_unique(before);
            lemma_entries_map(before);
        }
        if pos < self.entries.len() && str_eq(self.entries[pos].0.as_str(), key.as_str()) {
            assert(before[pos as int].0 == k);
            self.entries.set(pos, (key, value));
            proof {
                let after = self.entries();
                assert(after =~= before.update(pos as int, (k, v)));
                assert(forall|j: int| 0 <= j < after.len() ==> after[j].0 == before[j].0);
                assert(strictly_sorted(after));
                lemma_sorted_unique(after);
                lemma_entries_map(after);
                assert forall|kk: Seq<char>| self.map().contains_key(kk) <==> old(self).map().insert(
                    k,
                    v,
                ).contains_key(kk) by {
                    if self.map().contains_key(kk) {
                        let i = choose|i: int| 0 <= i < after.len() && after[i].0 == kk;
                        assert(before[i].0 == kk);
                    }
                    if old(self).map().contains_key(kk) {
                        let i = choose|i: int| 0 <= i < before.len() && before[i].0 == kk;
                        assert(after[i].0 == kk);
                    }
                }
                assert forall|kk: Seq<char>| #[trigger] self.map().contains_key(kk) implies self.map()[kk]
                    == old(self).map().insert(k, v)[kk] by {
                    let i = choose|i: int| 0 <= i < after.len() && after[i].0 == kk;
                    if i != pos {
                        assert(before[i] == after[i]);
                    }
                }
                assert(self.map() =~= old(self).map().insert(k, v));
            }
        } else {
            proof {
                if pos < before.len() {
                    lemma_lex_total(before[pos as int].0, k);
                }
                assert forall|m: int| pos <= m < before.len() implies lex_lt(k, before[m].0) by {
                    if m > pos {
                        lemma_lex_transitive(k, before[pos as int].0, before[m].0);
                    }
                }
                lemma_lex_irreflexive(k);
            }
            self.entries.insert(pos, (key, value));
            proof {
                let after = self.entries();
                assert(after =~= before.insert(pos as int, (k, v)));
                assert forall|a: int, b: int| 0 <= a < b < after.len() implies lex_lt(
                    after[a].0,
                    after[b].0,
                ) by {
                    if a < pos && b == pos {
                    } else if a == pos && b > pos {
                        assert(after[b].0 == before[b - 1].0);
                    } else if a < pos && b > pos {
                        assert(after[b].0 == before[b - 1].0);
                        lemma_lex_transitive(after[a].0, k, after[b].0);
                    }
                }
                lemma_sorted_unique(after);
                lemma_entries_map(after);
                assert forall|kk: Seq<char>| self.map().contains_key(kk) <==> old(self).map().insert(
                    k,
                    v,
                ).contains_key(kk) by {
                    if self.map().contains_key(kk) && kk != k {
                        let i = choose|i: int| 0 <= i < after.len() && after[i].0 == kk;
                        if i < pos {
                            assert(before[i].0 == kk);
                        } else {
                            assert(before[i - 1].0 == kk);
                        }
                    }
                    if old(self).map().contains_key(kk) {
                        let i = choose|i: int| 0 <= i < before.len() && before[i].0 == kk;
                        if i < pos {
                            assert(after[i].0 == kk);
                        } else {
                            assert(after[i + 1].0 == kk);
                        }
                    }
                    if kk == k {
                        assert(after[pos as int].0 == k);
                    }
                }
                assert forall|kk: Seq<char>| #[trigger] self.map().contains_key(kk) implies self.map()[kk]
                    == old(self).map().insert(k, v)[kk] by {
                    let i = choose|i: int| 0 <= i < after.len() && after[i].0 == kk;
                    if i < pos {
                        assert(before[i] == after[i]);
                        assert(lex_lt(before[i].0, k));
                        assert(old(self).map()[before[i].0] == before[i].1);
                    } else if i > pos {
                        assert(before[i - 1] == after[i]);
                        assert(lex_lt(k, before[i - 1].0));
                        assert(old(self).map()[before[i - 1].0] == before[i - 1].1);
                    }
                }
                assert(self.map() =~= old(self).map().insert(k, v));
            }
        }
    }
}

} // verus!
