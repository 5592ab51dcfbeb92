//! Maps from text to text: the named values of a formatting, the attributes
//! of a context, the categories of a pluralization dictionary.
//!
//! A map is kept as a list of pairs in which no key occurs twice. Keys are
//! compared character by character, so that what a lookup finds follows
//! from the text of the keys alone, and the order of the pairs is the order
//! in which the named values are put into a text.

use crate::assoc::{
    as_map, bound_all, discard, distinct_keys, keyed, lemma_as_map_len, lemma_mapped,
    lemma_mapped_put, lemma_mapped_without, lemma_put, lemma_put_all, lemma_without, lookup,
    mapped, nth, put, put_all, upsert, without,
};
use vstd::prelude::*;

verus! {

/// A map from text to text that remembers the order in which its keys were
/// first bound.
#[derive(Debug)]
pub struct TextMap {
    entries: Vec<(String, String)>,
}

/// The function that gives the text of a string.
pub open spec fn text() -> spec_fn(String) -> Seq<char> {
    |s: String| s@
}

/// The text that a sequence of pairs of strings holds.
pub open spec fn text_pairs(entries: Seq<(String, String)>) -> Seq<(Seq<char>, Seq<char>)> {
    mapped(keyed(entries), text())
}

impl View for TextMap {
    type V = Map<Seq<char>, Seq<char>>;

    /// The map itself: each key with the value bound to it.
    open spec fn view(&self) -> Map<Seq<char>, Seq<char>> {
        as_map(self.pairs())
    }
}

impl TextMap {
    /// The bindings in the order in which their keys were first bound.
    pub closed spec fn pairs(&self) -> Seq<(Seq<char>, Seq<char>)> {
        text_pairs(self.entries@)
    }

    /// No key is bound twice.
    #[verifier::type_invariant]
    pub open spec fn well_formed(&self) -> bool {
        distinct_keys(self.pairs())
    }

    /// A map without bindings.
    pub fn new() -> (r: TextMap)
        ensures
            r.pairs() == Seq::<(Seq<char>, Seq<char>)>::empty(),
            r@ == Map::<Seq<char>, Seq<char>>::empty(),
    {
        let r = TextMap { entries: Vec::new() };
        assert(r.pairs() =~= Seq::empty());
        assert(r@ =~= Map::empty());
        r
    }

    /// The map that binds the given pairs one after another, so that of two
    /// pairs with one key the later one counts.
    pub fn from_pairs(pairs: Vec<(String, String)>) -> (r: TextMap)
        ensures
            r.pairs() == put_all(Seq::empty(), text_pairs(pairs@)),
            r@ == bound_all(Map::empty(), text_pairs(pairs@)),
    {
        let mut r = TextMap::new();
        let ghost all = text_pairs(pairs@);
        for e in it: pairs
            invariant
                it.seq() == pairs@,
                all == text_pairs(pairs@),
                r.pairs() == put_all(Seq::empty(), all.take(it.index() as int)),
        {
            proof {
                let n = it.index() as int;
                assert(all.take(n + 1).drop_last() =~= all.take(n));
                assert(all.take(n + 1).last() == (e.0@, e.1@));
            }
            r.insert(e.0, e.1);
        }
        proof {
            assert(all.take(pairs@.len() as int) =~= all);
            lemma_put_all(Seq::empty(), all);
            assert(as_map(Seq::<(Seq<char>, Seq<char>)>::empty()) =~= Map::empty());
        }
        r
    }

    /// The number of bindings.
    pub fn len(&self) -> (n: usize)
        ensures
            n == self.pairs().len(),
            n == self@.dom().len(),
    {
        proof {
            use_type_invariant(self);
            lemma_as_map_len(self.pairs());
        }
        self.entries.len()
    }

    /// The key and the value of the binding at position `i`; none where
    /// `i` is not below the number of bindings.
    pub fn pair_at(&self, i: usize) -> (r: Option<(&String, &String)>)
        ensures
            match r {
                Some((key, value)) => {
                    &&& i < self.pairs().len()
                    &&& (key@, value@) == self.pairs()[i as int]
                    &&& self@.contains_key(key@)
                    &&& self@[key@] == value@
                },
                None => i >= self.pairs().len(),
            },
    {
        proof {
            use_type_invariant(self);
            lemma_mapped(keyed(self.entries@), text());
        }
        nth(&self.entries, i)
    }

    /// The value bound to `key`, if any.
    pub fn get(&self, key: &str) -> (r: Option<&String>)
        ensures
            match r {
                Some(v) => self@.contains_key(key@) && v@ == self@[key@],
                None => !self@.contains_key(key@),
            },
    {
        proof {
            use_type_invariant(self);
            lemma_mapped(keyed(self.entries@), text());
        }
        lookup(&self.entries, key)
    }

    /// Whether `key` is bound.
    pub fn contains_key(&self, key: &str) -> (b: bool)
        ensures
            b == self@.contains_key(key@),
    {
        self.get(key).is_some()
    }

    /// Binds `key` to `value`. A key that was bound keeps its place in the
    /// order; a new one comes last.
    pub fn insert(&mut self, key: String, value: String)
        ensures
            final(self)@ == old(self)@.insert(key@, value@),
            final(self).pairs() == put(old(self).pairs(), key@, value@),
    {
        proof {
            use_type_invariant(&*self);
            lemma_mapped(keyed(self.entries@), text());
            lemma_mapped_put(keyed(self.entries@), text(), key@, value);
            lemma_put(self.pairs(), key@, value@);
        }
        let mut entries: Vec<(String, String)> = Vec::new();
        core::mem::swap(&mut self.entries, &mut entries);
        upsert(&mut entries, key, value);
        self.entries = entries;
    }

    /// Takes the binding of `key` away, if there is one.
    pub fn remove(&mut self, key: &str)
        ensures
            final(self)@ == old(self)@.remove(key@),
            final(self).pairs() == without(old(self).pairs(), key@),
    {
        proof {
            use_type_invariant(&*self);
            lemma_mapped(keyed(self.entries@), text());
            lemma_mapped_without(keyed(self.entries@), text(), key@);
            lemma_without(self.pairs(), key@);
        }
        let mut entries: Vec<(String, String)> = Vec::new();
        core::mem::swap(&mut self.entries, &mut entries);
        discard(&mut entries, key);
        self.entries = entries;
    }
}

impl Clone for TextMap {
    fn clone(&self) -> (r: TextMap)
        ensures
            r.pairs() == self.pairs(),
            r@ == self@,
    {
        proof {
            use_type_invariant(self);
        }
        let mut entries: Vec<(String, String)> = Vec::new();
        let mut i: usize = 0;
        while i < self.entries.len()
            invariant
                i <= self.entries.len(),
                entries@.len() == i,
                forall|j: int|
                    0 <= j < i ==> (#[trigger] entries@[j]).0@ == self.entries@[j].0@
                        && entries@[j].1@ == self.entries@[j].1@,
            decreases self.entries.len() - i,
        {
            entries.push((self.entries[i].0.clone(), self.entries[i].1.clone()));
            i += 1;
        }
        assert(text_pairs(entries@) =~= text_pairs(self.entries@));
        TextMap { entries }
    }
}

} // verus!
