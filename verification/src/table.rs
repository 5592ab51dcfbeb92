//! Translation tables: maps from a phrase to the entry that translates it.

use crate::assoc::{
    as_map, bound_all, distinct_keys, has_key, index_of_key, keyed, lemma_as_map_len, lemma_put,
    lemma_put_all, lookup, nth, put, put_all, upsert,
};
use crate::value::{Entry, Value};
use vstd::prelude::*;

verus! {

/// A map from phrases to entries. No phrase has two entries.
#[derive(Debug)]
pub struct Table {
    entries: Vec<(String, Value)>,
}

/// What a map from phrases to entries says.
pub open spec fn entries_of(values: Map<Seq<char>, Value>) -> Map<Seq<char>, Entry> {
    values.map_values(|v: Value| v@)
}

impl View for Table {
    type V = Map<Seq<char>, Entry>;

    /// What the table says: for each phrase, what its entry says.
    open spec fn view(&self) -> Map<Seq<char>, Entry> {
        entries_of(self.values())
    }
}

impl Table {
    /// The entries in the order in which their phrases were first bound.
    pub closed spec fn entries(&self) -> Seq<(Seq<char>, Value)> {
        keyed(self.entries@)
    }

    /// The table as a map from each phrase to its entry.
    pub open spec fn values(&self) -> Map<Seq<char>, Value> {
        as_map(self.entries())
    }

    /// No phrase is bound twice.
    #[verifier::type_invariant]
    pub open spec fn well_formed(&self) -> bool {
        distinct_keys(self.entries())
    }

    /// A table without entries.
    pub fn new() -> (r: Table)
        ensures
            r.entries() == Seq::<(Seq<char>, Value)>::empty(),
            r.values() == Map::<Seq<char>, Value>::empty(),
            r@ == Map::<Seq<char>, Entry>::empty(),
    {
        let r = Table { entries: Vec::new() };
        assert(r.entries() =~= Seq::empty());
        assert(r.values() =~= Map::empty());
        assert(r@ =~= Map::empty());
        r
    }

    /// The table that binds the given pairs one after another, so that of
    /// two pairs with one phrase the later one counts.
    pub fn from_entries(entries: Vec<(String, Value)>) -> (r: Table)
        ensures
            r.entries() == put_all(Seq::empty(), keyed(entries@)),
            r.values() == bound_all(Map::empty(), keyed(entries@)),
    {
        let mut r = Table::new();
        let ghost all = keyed(entries@);
        for e in it: entries
            invariant
                it.seq() == entries@,
                all == keyed(entries@),
                r.entries() == put_all(Seq::empty(), all.take(it.index() as int)),
        {
            proof {
                let n = it.index() as int;
                assert(all.take(n + 1).drop_last() =~= all.take(n));
                assert(all.take(n + 1).last() == (e.0@, e.1));
            }
            r.insert(e.0, e.1);
        }
        proof {
            assert(all.take(entries@.len() as int) =~= all);
            lemma_put_all(Seq::empty(), all);
            assert(as_map(Seq::<(Seq<char>, Value)>::empty()) =~= Map::empty());
        }
        r
    }

    /// The number of entries.
    pub fn len(&self) -> (n: usize)
        ensures
            n == self.entries().len(),
            n == self@.dom().len(),
    {
        proof {
            use_type_invariant(self);
            lemma_as_map_len(self.entries());
            assert(self@.dom() =~= self.values().dom());
        }
        self.entries.len()
    }

    /// The phrase and the entry at position `i`; none where `i` is not
    /// below the number of entries.
    pub fn entry_at(&self, i: usize) -> (r: Option<(&String, &Value)>)
        ensures
            match r {
                Some((key, value)) => {
                    &&& i < self.entries().len()
                    &&& (key@, *value) == self.entries()[i as int]
                    &&& self.values().contains_key(key@)
                    &&& self.values()[key@] == *value
                },
                None => i >= self.entries().len(),
            },
    {
        proof {
            use_type_invariant(self);
        }
        nth(&self.entries, i)
    }

    /// The entry of the phrase `key`, if it has one.
    pub fn get(&self, key: &str) -> (r: Option<&Value>)
        ensures
            match r {
                Some(v) => self.values().contains_key(key@) && *v == self.values()[key@],
                None => !self.values().contains_key(key@),
            },
    {
        proof {
            use_type_invariant(self);
        }
        lookup(&self.entries, key)
    }

    /// Whether the phrase `key` has an entry.
    pub fn contains_key(&self, key: &str) -> (b: bool)
        ensures
            b == self@.contains_key(key@),
    {
        self.get(key).is_some()
    }

    /// Binds the phrase `key` to `value`, in place of the entry it had, if
    /// it had one.
    pub fn insert(&mut self, key: String, value: Value)
        ensures
            final(self).entries() == put(old(self).entries(), key@, value),
            final(self).values() == old(self).values().insert(key@, value),
            final(self)@ == old(self)@.insert(key@, value@),
    {
        proof {
            use_type_invariant(&*self);
        }
        let mut entries: Vec<(String, Value)> = Vec::new();
        core::mem::swap(&mut self.entries, &mut entries);
        upsert(&mut entries, key, value);
        self.entries = entries;
        assert(self@ =~= old(self)@.insert(key@, value@));
    }

    /// Binds every phrase of `other` to a copy of the entry it has there.
    /// Phrases that only this table has keep their entries, and no other
    /// phrase gets one.
    pub fn merge(&mut self, other: &Table)
        ensures
            final(self)@ == old(self)@.union_prefer_right(other@),
            keeps_others(old(self).values(), other.values(), final(self).values()),
    {
        proof {
            use_type_invariant(other);
        }
        let ghost source = other.entries();
        let mut i: usize = 0;
        assert(source.take(0) =~= Seq::empty());
        assert(self@ =~= old(self)@.union_prefer_right(entries_of(as_map(source.take(0)))));
        while i < other.len()
            invariant
                i <= source.len(),
                source == other.entries(),
                distinct_keys(source),
                self@ == old(self)@.union_prefer_right(entries_of(as_map(source.take(i as int)))),
                keeps_others(old(self).values(), as_map(source.take(i as int)), self.values()),
            decreases source.len() - i,
        {
            if let Some((key, value)) = other.entry_at(i) {
                let copy = value.clone();
                proof {
                    let done = source.take(i as int);
                    let next = source.take(i + 1);
                    assert(distinct_keys(done));
                    assert(!has_key(done, key@)) by {
                        if has_key(done, key@) {
                            let j = index_of_key(done, key@);
                            assert(source[j].0 != source[i as int].0);
                        }
                    }
                    assert(put(done, key@, *value) =~= next);
                    lemma_put(done, key@, *value);
                    assert(entries_of(as_map(next)) =~= entries_of(as_map(done)).insert(
                        key@,
                        value@,
                    ));
                    assert(old(self)@.union_prefer_right(entries_of(as_map(next))) =~= old(
                        self,
                    )@.union_prefer_right(entries_of(as_map(done))).insert(key@, copy@));
                }
                self.insert(key.clone(), copy);
            }
            i += 1;
        }
        assert(source.take(i as int) =~= source);
    }
}

/// Whether `after` has, for every phrase that `added` does not have, the
/// entry that `before` has for it, and none where `before` has none.
pub open spec fn keeps_others(
    before: Map<Seq<char>, Value>,
    added: Map<Seq<char>, Value>,
    after: Map<Seq<char>, Value>,
) -> bool {
    forall|key: Seq<char>|
        !added.contains_key(key) ==> {
            &&& #[trigger] after.contains_key(key) <==> before.contains_key(key)
            &&& before.contains_key(key) ==> after[key] == before[key]
        }
}

impl Clone for Table {
    fn clone(&self) -> (r: Table)
        ensures
            r@ == self@,
    {
        let mut r = Table::new();
        r.merge(self);
        assert(r@ =~= self@);
        r
    }
}

} // verus!
