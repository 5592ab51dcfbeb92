//! Translation data: a default table and tables that hold in a context.

use crate::table::{keeps_others, Table};
use crate::textmap::TextMap;
use crate::value::Entry;
use vstd::prelude::*;

verus! {

/// A table that overrides the default table in the contexts that bind every
/// attribute of `matches` to the value it has there.
#[derive(Debug)]
pub struct ContextOptions {
    /// The attributes that a context must have, each with its value.
    pub matches: TextMap,
    /// The translations that hold in such a context.
    pub values: Table,
}

/// What a context table says.
pub struct ContextModel {
    /// The attributes that a context must have, each with its value.
    pub matches: Map<Seq<char>, Seq<char>>,
    /// The translations that hold in such a context.
    pub values: Map<Seq<char>, Entry>,
}

impl View for ContextOptions {
    type V = ContextModel;

    open spec fn view(&self) -> ContextModel {
        ContextModel { matches: self.matches@, values: self.values@ }
    }
}

impl Clone for ContextOptions {
    fn clone(&self) -> (r: ContextOptions)
        ensures
            r@ == self@,
    {
        ContextOptions { matches: self.matches.clone(), values: self.values.clone() }
    }
}

/// What a sequence of context tables says.
pub open spec fn contexts_of(contexts: Seq<ContextOptions>) -> Seq<ContextModel> {
    contexts.map_values(|c: ContextOptions| c@)
}

/// A copy of a list of context tables.
pub(crate) fn clone_contexts(contexts: &Vec<ContextOptions>) -> (r: Vec<ContextOptions>)
    ensures
        contexts_of(r@) == contexts_of(contexts@),
{
    let mut out: Vec<ContextOptions> = Vec::new();
    append_contexts(&mut out, contexts);
    assert(contexts_of(out@) =~= contexts_of(contexts@));
    out
}

/// Appends a copy of each context table of `more` to `contexts`. The
/// context tables that were there stay as they are, in their places.
pub(crate) fn append_contexts(contexts: &mut Vec<ContextOptions>, more: &Vec<ContextOptions>)
    ensures
        contexts_of(final(contexts)@) == contexts_of(old(contexts)@) + contexts_of(more@),
        old(contexts)@.is_prefix_of(final(contexts)@),
        final(contexts)@.len() == old(contexts)@.len() + more@.len(),
{
    let mut i: usize = 0;
    assert(contexts_of(contexts@) =~= contexts_of(old(contexts)@) + contexts_of(more@).take(0));
    while i < more.len()
        invariant
            i <= more.len(),
            contexts_of(contexts@) == contexts_of(old(contexts)@) + contexts_of(more@).take(
                i as int,
            ),
            old(contexts)@.is_prefix_of(contexts@),
            contexts@.len() == old(contexts)@.len() + i,
        decreases more.len() - i,
    {
        let ghost before = contexts@;
        let copy = more[i].clone();
        contexts.push(copy);
        proof {
            assert(contexts@ == before.push(copy));
            assert(contexts_of(contexts@) =~= contexts_of(before).push(copy@));
            assert(contexts_of(more@).take(i + 1) =~= contexts_of(more@).take(i as int).push(
                more@[i as int]@,
            ));
            assert(contexts_of(contexts@) =~= contexts_of(old(contexts)@) + contexts_of(
                more@,
            ).take(i + 1));
        }
        i += 1;
    }
    assert(contexts_of(more@).take(more@.len() as int) =~= contexts_of(more@));
}

/// Translation data: a default table, and context tables in the order in
/// which they are tried. Either may be missing.
#[derive(Debug)]
pub struct DataOptions {
    /// The default table.
    pub values: Option<Table>,
    /// The context tables.
    pub contexts: Option<Vec<ContextOptions>>,
}

/// What translation data says.
pub struct DataModel {
    /// The default table.
    pub values: Option<Map<Seq<char>, Entry>>,
    /// The context tables.
    pub contexts: Option<Seq<ContextModel>>,
}

impl View for DataOptions {
    type V = DataModel;

    open spec fn view(&self) -> DataModel {
        DataModel {
            values: match self.values {
                Some(table) => Some(table@),
                None => None,
            },
            contexts: match self.contexts {
                Some(contexts) => Some(contexts_of(contexts@)),
                None => None,
            },
        }
    }
}

impl Clone for DataOptions {
    fn clone(&self) -> (r: DataOptions)
        ensures
            r@ == self@,
    {
        DataOptions {
            values: match &self.values {
                Some(table) => Some(table.clone()),
                None => None,
            },
            contexts: match &self.contexts {
                Some(contexts) => Some(clone_contexts(contexts)),
                None => None,
            },
        }
    }
}

/// The data that results when `incoming` is added to `current`: in the
/// default table an incoming entry replaces the one its phrase had, and the
/// incoming context tables come after the current ones.
pub open spec fn merged(current: DataModel, incoming: DataModel) -> DataModel {
    DataModel {
        values: match (current.values, incoming.values) {
            (Some(present), Some(added)) => Some(present.union_prefer_right(added)),
            (None, Some(added)) => Some(added),
            (present, None) => present,
        },
        contexts: match (current.contexts, incoming.contexts) {
            (Some(present), Some(added)) => Some(present + added),
            (None, Some(added)) => Some(added),
            (present, None) => present,
        },
    }
}

/// Whether `after` holds what `before` held and `incoming` does not name,
/// as it was: in the default table the entries of the phrases for which
/// `incoming` has none, and no entry for other such phrases; the context
/// tables of `before`, in their places, before any other. Where `incoming`
/// has no default table, or no context tables, that part is the one of
/// `before` itself.
pub open spec fn keeps_present(
    before: DataOptions,
    incoming: DataOptions,
    after: DataOptions,
) -> bool {
    &&& match (before.values, incoming.values) {
        (Some(present), Some(added)) => after.values matches Some(table) && keeps_others(
            present.values(),
            added.values(),
            table.values(),
        ),
        (Some(_), None) => after.values == before.values,
        (None, _) => true,
    }
    &&& match (before.contexts, incoming.contexts) {
        (Some(present), Some(added)) => after.contexts matches Some(all) && present@.is_prefix_of(
            all@,
        ) && all@.len() == present@.len() + added@.len(),
        (Some(_), None) => after.contexts == before.contexts,
        (None, _) => true,
    }
}

} // verus!
