//! Choosing the context table that holds in a context.

use crate::assoc::{has_key, index_of_key};
use crate::data::{contexts_of, ContextOptions, DataOptions};
use crate::resolve::{
    context_matches, first_context, is_first, lemma_first_index_none, lemma_first_index_some,
};
use crate::textmap::TextMap;
use vstd::prelude::*;

verus! {

/// The first context table of `data` whose conditions `context` satisfies.
pub open spec fn chosen_context<'a>(
    data: &'a DataOptions,
    context: Map<Seq<char>, Seq<char>>,
) -> Option<&'a ContextOptions> {
    match data.contexts {
        Some(contexts) => match first_context(contexts_of(contexts@), context) {
            Some(i) => Some(&contexts@[i]),
            None => None,
        },
        None => None,
    }
}

/// Whether `context` binds every attribute of `matches` to the value that
/// is required of it. An attribute that `context` lacks is not satisfied.
pub fn satisfies(matches: &TextMap, context: &TextMap) -> (b: bool)
    ensures
        b == context_matches(matches@, context@),
{
    let ghost required = matches.pairs();
    let mut i: usize = 0;
    while i < matches.len()
        invariant
            i <= required.len(),
            required == matches.pairs(),
            forall|j: int|
                0 <= j < i ==> context@.contains_key((#[trigger] required[j]).0)
                    && context@[required[j].0] == required[j].1,
        decreases required.len() - i,
    {
        if let Some((name, value)) = matches.pair_at(i) {
            match context.get(name.as_str()) {
                Some(actual) => {
                    if *actual != *value {
                        return false;
                    }
                },
                None => {
                    return false;
                },
            }
        }
        i += 1;
    }
    proof {
        assert forall|k: Seq<char>| matches@.dom().contains(k) implies context@.dom().contains(k)
            && matches@[k] == context@[k] by {
            assert(has_key(required, k));
            let j = index_of_key(required, k);
            assert(required[j].0 == k);
        }
    }
    true
}

/// The first context table of `data` whose conditions `context` satisfies;
/// none where no table is satisfied or `data` has no context tables.
pub fn get_context_data<'a>(data: &'a DataOptions, context: &TextMap) -> (r: Option<
    &'a ContextOptions,
>)
    ensures
        r == chosen_context(data, context@),
{
    match &data.contexts {
        Some(contexts) => {
            let ghost models = contexts_of(contexts@);
            let ghost holds = |i: int| context_matches(models[i].matches, context@);
            let mut i: usize = 0;
            while i < contexts.len()
                invariant
                    i <= contexts.len(),
                    data.contexts == Some(*contexts),
                    models == contexts_of(contexts@),
                    holds == |i: int| context_matches(models[i].matches, context@),
                    forall|j: int| 0 <= j < i ==> !#[trigger] holds(j),
                decreases contexts.len() - i,
            {
                if satisfies(&contexts[i].matches, context) {
                    proof {
                        assert(holds(i as int));
                        assert(is_first(models.len() as int, holds, i as int));
                        lemma_first_index_some(models.len() as int, holds, i as int);
                    }
                    return Some(&contexts[i]);
                }
                assert(!holds(i as int));
                i += 1;
            }
            proof {
                lemma_first_index_none(models.len() as int, holds);
            }
            None
        },
        None => None,
    }
}

} // verus!
