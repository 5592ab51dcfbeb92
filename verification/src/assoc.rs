//! Association lists keyed by text: sequences of key-value pairs in which
//! no key occurs twice, and the maps they stand for.

use vstd::prelude::*;

verus! {

/// Whether some pair of `pairs` has the key `key`.
pub open spec fn has_key<V>(pairs: Seq<(Seq<char>, V)>, key: Seq<char>) -> bool {
    exists|i: int| 0 <= i < pairs.len() && (#[trigger] pairs[i]).0 == key
}

/// The position of a pair with the key `key`, where there is one.
pub open spec fn index_of_key<V>(pairs: Seq<(Seq<char>, V)>, key: Seq<char>) -> int {
    choose|i: int| 0 <= i < pairs.len() && (#[trigger] pairs[i]).0 == key
}

/// Whether no key occurs in two pairs.
pub open spec fn distinct_keys<V>(pairs: Seq<(Seq<char>, V)>) -> bool {
    forall|i: int, j: int|
        0 <= i < j < pairs.len() ==> (#[trigger] pairs[i]).0 != (#[trigger] pairs[j]).0
}

/// The map that sends each key of `pairs` to the value paired with it.
pub open spec fn as_map<V>(pairs: Seq<(Seq<char>, V)>) -> Map<Seq<char>, V> {
    Map::new(|k: Seq<char>| has_key(pairs, k), |k: Seq<char>| pairs[index_of_key(pairs, k)].1)
}

/// `pairs` with `key` bound to `value`: in the place of the pair that had
/// the key, or else at the end.
pub open spec fn put<V>(pairs: Seq<(Seq<char>, V)>, key: Seq<char>, value: V) -> Seq<
    (Seq<char>, V),
> {
    if has_key(pairs, key) {
        pairs.update(index_of_key(pairs, key), (key, value))
    } else {
        pairs.push((key, value))
    }
}

/// `pairs` without the pair that has the key `key`.
pub open spec fn without<V>(pairs: Seq<(Seq<char>, V)>, key: Seq<char>) -> Seq<(Seq<char>, V)> {
    if has_key(pairs, key) {
        pairs.remove(index_of_key(pairs, key))
    } else {
        pairs
    }
}

/// `pairs` with every pair of `more` put into it, in order.
pub open spec fn put_all<V>(pairs: Seq<(Seq<char>, V)>, more: Seq<(Seq<char>, V)>) -> Seq<
    (Seq<char>, V),
>
    decreases more.len(),
{
    if more.len() == 0 {
        pairs
    } else {
        put(put_all(pairs, more.drop_last()), more.last().0, more.last().1)
    }
}

/// `map` with every pair of `more` bound in it, in order, so that of two
/// pairs with one key the later one counts.
pub open spec fn bound_all<V>(map: Map<Seq<char>, V>, more: Seq<(Seq<char>, V)>) -> Map<
    Seq<char>,
    V,
>
    decreases more.len(),
{
    if more.len() == 0 {
        map
    } else {
        bound_all(map, more.drop_last()).insert(more.last().0, more.last().1)
    }
}

/// Among distinct keys, the pair at a position is the only one with its key.
pub proof fn lemma_index_of_key<V>(pairs: Seq<(Seq<char>, V)>, i: int)
    requires
        distinct_keys(pairs),
        0 <= i < pairs.len(),
    ensures
        has_key(pairs, pairs[i].0),
        index_of_key(pairs, pairs[i].0) == i,
        as_map(pairs).contains_key(pairs[i].0),
        as_map(pairs)[pairs[i].0] == pairs[i].1,
{
    let j = index_of_key(pairs, pairs[i].0);
    assert(0 <= j < pairs.len() && pairs[j].0 == pairs[i].0);
    if j < i {
        assert(pairs[j].0 != pairs[i].0);
    } else if i < j {
        assert(pairs[i].0 != pairs[j].0);
    }
}

/// Putting a pair keeps the keys distinct and inserts into the map.
pub proof fn lemma_put<V>(pairs: Seq<(Seq<char>, V)>, key: Seq<char>, value: V)
    requires
        distinct_keys(pairs),
    ensures
        distinct_keys(put(pairs, key, value)),
        as_map(put(pairs, key, value)) == as_map(pairs).insert(key, value),
{
    let after = put(pairs, key, value);
    let at = if has_key(pairs, key) {
        index_of_key(pairs, key)
    } else {
        pairs.len() as int
    };
    assert(0 <= at < after.len() && after[at] == (key, value));
    assert forall|i: int| 0 <= i < after.len() && i != at implies after[i] == pairs[i]
        && after[i].0 != key by {
        if has_key(pairs, key) {
            lemma_index_of_key(pairs, at);
            if i < at {
                assert(pairs[i].0 != pairs[at].0);
            } else {
                assert(pairs[at].0 != pairs[i].0);
            }
        }
    }
    assert(distinct_keys(after)) by {
        assert forall|i: int, j: int| 0 <= i < j < after.len() implies after[i].0
            != after[j].0 by {
            if i != at && j != at {
                assert(pairs[i].0 != pairs[j].0);
            }
        }
    }
    assert forall|k: Seq<char>| has_key(after, k) <==> (k == key || has_key(pairs, k)) by {
        if has_key(after, k) {
            let i = index_of_key(after, k);
            if i != at {
                assert(pairs[i].0 == k);
            }
        }
        if k == key {
            assert(after[at].0 == k);
        } else if has_key(pairs, k) {
            let i = index_of_key(pairs, k);
            assert(i != at);
            assert(after[i].0 == k);
        }
    }
    assert forall|k: Seq<char>| has_key(after, k) implies as_map(after)[k] == as_map(
        pairs,
    ).insert(key, value)[k] by {
        let i = index_of_key(after, k);
        lemma_index_of_key(after, i);
        if i != at {
            lemma_index_of_key(pairs, i);
        }
    }
    assert(as_map(after) =~= as_map(pairs).insert(key, value));
}

/// Taking a key out keeps the keys distinct and removes it from the map.
pub proof fn lemma_without<V>(pairs: Seq<(Seq<char>, V)>, key: Seq<char>)
    requires
        distinct_keys(pairs),
    ensures
        distinct_keys(without(pairs, key)),
        as_map(without(pairs, key)) == as_map(pairs).remove(key),
{
    let after = without(pairs, key);
    if has_key(pairs, key) {
        let at = index_of_key(pairs, key);
        lemma_index_of_key(pairs, at);
        assert forall|i: int| 0 <= i < after.len() implies after[i] == pairs[if i < at {
            i
        } else {
            i + 1
        }] && after[i].0 != key by {
            let from = if i < at {
                i
            } else {
                i + 1
            };
            if from < at {
                assert(pairs[from].0 != pairs[at].0);
            } else {
                assert(pairs[at].0 != pairs[from].0);
            }
        }
        assert(distinct_keys(after)) by {
            assert forall|i: int, j: int| 0 <= i < j < after.len() implies after[i].0
                != after[j].0 by {
                let fi = if i < at {
                    i
                } else {
                    i + 1
                };
                let fj = if j < at {
                    j
                } else {
                    j + 1
                };
                assert(pairs[fi].0 != pairs[fj].0);
            }
        }
        assert forall|k: Seq<char>| has_key(after, k) <==> (k != key && has_key(pairs, k)) by {
            if has_key(after, k) {
                let i = index_of_key(after, k);
                let from = if i < at {
                    i
                } else {
                    i + 1
                };
                assert(pairs[from].0 == k);
            }
            if k != key && has_key(pairs, k) {
                let i = index_of_key(pairs, k);
                assert(i != at);
                let to = if i < at {
                    i
                } else {
                    i - 1
                };
                assert(after[to].0 == k);
            }
        }
        assert forall|k: Seq<char>| has_key(after, k) implies as_map(after)[k] == as_map(
            pairs,
        )[k] by {
            let i = index_of_key(after, k);
            lemma_index_of_key(after, i);
            let from = if i < at {
                i
            } else {
                i + 1
            };
            lemma_index_of_key(pairs, from);
        }
        assert(as_map(after) =~= as_map(pairs).remove(key));
    } else {
        assert(as_map(after) =~= as_map(pairs).remove(key));
    }
}

/// Putting pairs one after another keeps the keys distinct and binds them
/// in the map one after another.
pub proof fn lemma_put_all<V>(pairs: Seq<(Seq<char>, V)>, more: Seq<(Seq<char>, V)>)
    requires
        distinct_keys(pairs),
    ensures
        distinct_keys(put_all(pairs, more)),
        as_map(put_all(pairs, more)) == bound_all(as_map(pairs), more),
    decreases more.len(),
{
    if more.len() > 0 {
        lemma_put_all(pairs, more.drop_last());
        lemma_put(put_all(pairs, more.drop_last()), more.last().0, more.last().1);
    }
}

/// The map of distinct pairs has as many keys as there are pairs.
pub proof fn lemma_as_map_len<V>(pairs: Seq<(Seq<char>, V)>)
    requires
        distinct_keys(pairs),
    ensures
        as_map(pairs).dom().finite(),
        as_map(pairs).dom().len() == pairs.len(),
    decreases pairs.len(),
{
    if pairs.len() == 0 {
        assert(as_map(pairs).dom() =~= Set::empty());
    } else {
        let last = pairs.last();
        let init = pairs.drop_last();
        lemma_as_map_len(init);
        assert(!has_key(init, last.0)) by {
            if has_key(init, last.0) {
                let i = index_of_key(init, last.0);
                assert(pairs[i].0 != pairs[pairs.len() - 1].0);
            }
        }
        assert(put(init, last.0, last.1) =~= pairs);
        lemma_put(init, last.0, last.1);
        assert(as_map(pairs).dom() =~= as_map(init).dom().insert(last.0));
    }
}

/// `pairs` with each value replaced by what `f` makes of it.
pub open spec fn mapped<V, W>(pairs: Seq<(Seq<char>, V)>, f: spec_fn(V) -> W) -> Seq<
    (Seq<char>, W),
> {
    pairs.map_values(|p: (Seq<char>, V)| (p.0, f(p.1)))
}

/// Replacing the values keeps the keys: they are distinct as before, and
/// the map sends each key to what `f` makes of its value.
pub proof fn lemma_mapped<V, W>(pairs: Seq<(Seq<char>, V)>, f: spec_fn(V) -> W)
    ensures
        distinct_keys(mapped(pairs, f)) <==> distinct_keys(pairs),
        forall|key: Seq<char>| has_key(mapped(pairs, f), key) <==> has_key(pairs, key),
        distinct_keys(pairs) ==> as_map(mapped(pairs, f)) == as_map(pairs).map_values(f),
        distinct_keys(pairs) ==> forall|key: Seq<char>|
            has_key(pairs, key) ==> index_of_key(mapped(pairs, f), key) == index_of_key(
                pairs,
                key,
            ),
{
    let after = mapped(pairs, f);
    assert forall|i: int| 0 <= i < pairs.len() implies (#[trigger] after[i]).0 == pairs[i].0 by {}
    if distinct_keys(after) {
        assert forall|i: int, j: int| 0 <= i < j < pairs.len() implies pairs[i].0
            != pairs[j].0 by {
            assert(after[i].0 != after[j].0);
        }
    }
    if distinct_keys(pairs) {
        assert forall|i: int, j: int| 0 <= i < j < after.len() implies after[i].0
            != after[j].0 by {
            assert(pairs[i].0 != pairs[j].0);
        }
    }
    assert forall|key: Seq<char>| has_key(after, key) <==> has_key(pairs, key) by {
        if has_key(after, key) {
            let i = index_of_key(after, key);
            assert(pairs[i].0 == key);
        }
        if has_key(pairs, key) {
            let i = index_of_key(pairs, key);
            assert(after[i].0 == key);
        }
    }
    if distinct_keys(pairs) {
        assert forall|key: Seq<char>| has_key(pairs, key) implies index_of_key(after, key)
            == index_of_key(pairs, key) && as_map(after)[key] == f(as_map(pairs)[key]) by {
            let i = index_of_key(pairs, key);
            assert(after[i].0 == key);
            lemma_index_of_key(after, i);
            lemma_index_of_key(pairs, i);
        }
        assert(as_map(after) =~= as_map(pairs).map_values(f));
    }
}

/// Putting a pair and then replacing the values is replacing the values and
/// then putting the pair with its value replaced.
pub proof fn lemma_mapped_put<V, W>(
    pairs: Seq<(Seq<char>, V)>,
    f: spec_fn(V) -> W,
    key: Seq<char>,
    value: V,
)
    requires
        distinct_keys(pairs),
    ensures
        mapped(put(pairs, key, value), f) == put(mapped(pairs, f), key, f(value)),
{
    lemma_mapped(pairs, f);
    assert(mapped(put(pairs, key, value), f) =~= put(mapped(pairs, f), key, f(value)));
}

/// Taking a key out and then replacing the values is replacing the values
/// and then taking the key out.
pub proof fn lemma_mapped_without<V, W>(
    pairs: Seq<(Seq<char>, V)>,
    f: spec_fn(V) -> W,
    key: Seq<char>,
)
    requires
        distinct_keys(pairs),
    ensures
        mapped(without(pairs, key), f) == without(mapped(pairs, f), key),
{
    lemma_mapped(pairs, f);
    assert(mapped(without(pairs, key), f) =~= without(mapped(pairs, f), key));
}

/// The pairs that a vector of entries holds: the text of each key, with the
/// value beside it.
pub open spec fn keyed<V>(entries: Seq<(String, V)>) -> Seq<(Seq<char>, V)> {
    entries.map_values(|e: (String, V)| (e.0@, e.1))
}

/// The position of the first entry of `entries` whose key is `key`.
pub(crate) fn find_key<V>(entries: &Vec<(String, V)>, key: &str) -> (r: Option<usize>)
    ensures
        match r {
            Some(i) => i < entries.len() && keyed(entries@)[i as int].0 == key@,
            None => !has_key(keyed(entries@), key@),
        },
{
    let wanted: String = key.to_owned();
    let mut i: usize = 0;
    while i < entries.len()
        invariant
            i <= entries.len(),
            wanted@ == key@,
            forall|j: int| 0 <= j < i ==> (#[trigger] entries@[j]).0@ != key@,
        decreases entries.len() - i,
    {
        if entries[i].0 == wanted {
            return Some(i);
        }
        i += 1;
    }
    proof {
        if has_key(keyed(entries@), key@) {
            let j = index_of_key(keyed(entries@), key@);
            assert(entries@[j].0@ == key@);
        }
    }
    None
}

/// The value that `entries` has for `key`, if any.
pub(crate) fn lookup<'a, V>(entries: &'a Vec<(String, V)>, key: &str) -> (r: Option<&'a V>)
    requires
        distinct_keys(keyed(entries@)),
    ensures
        match r {
            Some(value) => as_map(keyed(entries@)).contains_key(key@) && *value == as_map(
                keyed(entries@),
            )[key@],
            None => !as_map(keyed(entries@)).contains_key(key@),
        },
{
    match find_key(entries, key) {
        Some(i) => {
            proof {
                lemma_index_of_key(keyed(entries@), i as int);
            }
            Some(&entries[i].1)
        },
        None => None,
    }
}

/// The key and the value at position `i`; none where `i` is not below the
/// number of entries.
pub(crate) fn nth<'a, V>(entries: &'a Vec<(String, V)>, i: usize) -> (r: Option<
    (&'a String, &'a V),
>)
    requires
        distinct_keys(keyed(entries@)),
    ensures
        match r {
            Some((key, value)) => {
                &&& i < entries.len()
                &&& (key@, *value) == keyed(entries@)[i as int]
                &&& as_map(keyed(entries@)).contains_key(key@)
                &&& as_map(keyed(entries@))[key@] == *value
            },
            None => i >= entries.len(),
        },
{
    if i < entries.len() {
        proof {
            lemma_index_of_key(keyed(entries@), i as int);
        }
        Some((&entries[i].0, &entries[i].1))
    } else {
        None
    }
}

/// Binds `key` to `value`: in the place of the entry that had the key, or
/// else at the end.
pub(crate) fn upsert<V>(entries: &mut Vec<(String, V)>, key: String, value: V)
    requires
        distinct_keys(keyed(old(entries)@)),
    ensures
        keyed(final(entries)@) == put(keyed(old(entries)@), key@, value),
        distinct_keys(keyed(final(entries)@)),
        as_map(keyed(final(entries)@)) == as_map(keyed(old(entries)@)).insert(key@, value),
{
    let ghost before = keyed(entries@);
    proof {
        lemma_put(before, key@, value);
    }
    match find_key(entries, key.as_str()) {
        Some(i) => {
            proof {
                lemma_index_of_key(before, i as int);
            }
            entries.set(i, (key, value));
        },
        None => {
            entries.push((key, value));
        },
    }
    assert(keyed(entries@) =~= put(before, key@, value));
}

/// Takes the entry of `key` away, if there is one.
pub(crate) fn discard<V>(entries: &mut Vec<(String, V)>, key: &str)
    requires
        distinct_keys(keyed(old(entries)@)),
    ensures
        keyed(final(entries)@) == without(keyed(old(entries)@), key@),
        distinct_keys(keyed(final(entries)@)),
        as_map(keyed(final(entries)@)) == as_map(keyed(old(entries)@)).remove(key@),
{
    let ghost before = keyed(entries@);
    proof {
        lemma_without(before, key@);
    }
    if let Some(i) = find_key(entries, key) {
        proof {
            lemma_index_of_key(before, i as int);
        }
        let _ = entries.remove(i);
    }
    assert(keyed(entries@) =~= without(before, key@));
}

} // verus!
