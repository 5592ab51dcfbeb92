//! What a translation is: which table decides for a phrase, which template
//! an entry yields for a number, and how the template is rendered.

use crate::data::{ContextModel, DataModel};
use crate::render::{formatted, original_text, rendered};
use crate::value::Entry;
use vstd::prelude::*;

verus! {

/// Whether `i` is the first of the positions below `len` at which `holds`
/// is true.
pub open spec fn is_first(len: int, holds: spec_fn(int) -> bool, i: int) -> bool {
    &&& 0 <= i < len
    &&& holds(i)
    &&& forall|j: int| 0 <= j < i ==> !#[trigger] holds(j)
}

/// The first of the positions below `len` at which `holds` is true, if
/// there is one.
pub open spec fn first_index(len: int, holds: spec_fn(int) -> bool) -> Option<int> {
    if exists|i: int| is_first(len, holds, i) {
        Some(choose|i: int| is_first(len, holds, i))
    } else {
        None
    }
}

/// A position that is the first is the one that `first_index` gives.
pub proof fn lemma_first_index_some(len: int, holds: spec_fn(int) -> bool, i: int)
    requires
        is_first(len, holds, i),
    ensures
        first_index(len, holds) == Some(i),
{
    let j = choose|j: int| is_first(len, holds, j);
    if j < i {
        assert(!holds(j));
    } else if i < j {
        assert(!holds(i));
    }
}

/// Where `holds` is true at no position, `first_index` gives none.
pub proof fn lemma_first_index_none(len: int, holds: spec_fn(int) -> bool)
    requires
        forall|j: int| 0 <= j < len ==> !#[trigger] holds(j),
    ensures
        first_index(len, holds) is None,
{
}

/// Where `holds` is true at some position, `first_index` gives one.
pub proof fn lemma_first_index_exists(len: int, holds: spec_fn(int) -> bool, i: int)
    requires
        0 <= i < len,
        holds(i),
    ensures
        first_index(len, holds) is Some,
    decreases i,
{
    if forall|j: int| 0 <= j < i ==> !#[trigger] holds(j) {
        assert(is_first(len, holds, i));
    } else {
        let j = choose|j: int| 0 <= j < i && #[trigger] holds(j);
        lemma_first_index_exists(len, holds, j);
    }
}

/// Whether a number satisfies a plural range. With no number, only a range
/// without bounds is satisfied; with a number, a range needs a bound, and
/// the number must lie within the bounds it has.
pub open spec fn range_matches(low: Option<i64>, high: Option<i64>, num: Option<i64>) -> bool {
    match num {
        None => low is None && high is None,
        Some(n) => match (low, high) {
            (None, None) => false,
            (Some(l), None) => l <= n,
            (None, Some(h)) => n <= h,
            (Some(l), Some(h)) => l <= n && n <= h,
        },
    }
}

/// The position of the first range that `num` satisfies, if there is one.
pub open spec fn first_match(
    ranges: Seq<(Option<i64>, Option<i64>, Seq<char>)>,
    num: Option<i64>,
) -> Option<int> {
    first_index(ranges.len() as int, |i: int| range_matches(ranges[i].0, ranges[i].1, num))
}

/// Whether a context satisfies the conditions of a context table: it binds
/// every attribute named there to the value required. An attribute that the
/// context lacks is not satisfied.
pub open spec fn context_matches(
    matches: Map<Seq<char>, Seq<char>>,
    context: Map<Seq<char>, Seq<char>>,
) -> bool {
    matches.submap_of(context)
}

/// The position of the first context table that `context` satisfies, if
/// there is one.
pub open spec fn first_context(
    contexts: Seq<ContextModel>,
    context: Map<Seq<char>, Seq<char>>,
) -> Option<int> {
    first_index(contexts.len() as int, |i: int| context_matches(contexts[i].matches, context))
}

/// The table of the first context table that `context` satisfies.
pub open spec fn context_table(data: DataModel, context: Map<Seq<char>, Seq<char>>) -> Option<
    Map<Seq<char>, Entry>,
> {
    match data.contexts {
        Some(contexts) => match first_context(contexts, context) {
            Some(i) => Some(contexts[i].values),
            None => None,
        },
        None => None,
    }
}

/// Whether an entry yields a template for `num`: a list of ranges does so
/// where `num` satisfies one of them, the other entries always.
pub open spec fn entry_resolves(entry: Entry, num: Option<i64>) -> bool {
    match entry {
        Entry::PluralRanges(ranges) => first_match(ranges, num) is Some,
        _ => true,
    }
}

/// Whether a table has an entry for `key` that yields a template for `num`.
pub open spec fn resolves(
    table: Option<Map<Seq<char>, Entry>>,
    key: Seq<char>,
    num: Option<i64>,
) -> bool {
    match table {
        Some(table) => table.contains_key(key) && entry_resolves(table[key], num),
        None => false,
    }
}

/// The rendering that an entry yields.
///
/// A literal is formatted as it is. Of a list of ranges, the template of the
/// first range that `num` satisfies is rendered. For a dictionary the
/// extension is asked: `answer` is the template it gave, which is rendered;
/// without an extension the phrase is rendered as its own translation.
pub open spec fn resolve_entry(
    entry: Entry,
    key: Seq<char>,
    num: Option<i64>,
    pairs: Seq<(Seq<char>, Seq<char>)>,
    answer: Option<Seq<char>>,
) -> Option<Seq<char>> {
    match entry {
        Entry::Literal(text) => Some(formatted(text, pairs)),
        Entry::PluralRanges(ranges) => match first_match(ranges, num) {
            Some(i) => Some(rendered(ranges[i].2, num, pairs)),
            None => None,
        },
        Entry::ExternalDictionary(_) => match answer {
            Some(template) => Some(rendered(template, num, pairs)),
            None => Some(original_text(key, num, pairs)),
        },
    }
}

/// The rendering that a table yields for `key`, if it has an entry for it
/// that yields one.
pub open spec fn resolve(
    table: Option<Map<Seq<char>, Entry>>,
    key: Seq<char>,
    num: Option<i64>,
    pairs: Seq<(Seq<char>, Seq<char>)>,
    answer: Option<Seq<char>>,
) -> Option<Seq<char>> {
    match table {
        Some(table) => if table.contains_key(key) {
            resolve_entry(table[key], key, num, pairs, answer)
        } else {
            None
        },
        None => None,
    }
}

/// The table that decides for `key`: the table of the context, if it
/// resolves the phrase, else the default table, if that one does.
pub open spec fn deciding_table(
    data: DataModel,
    key: Seq<char>,
    num: Option<i64>,
    context: Map<Seq<char>, Seq<char>>,
) -> Option<Map<Seq<char>, Entry>> {
    if resolves(context_table(data, context), key, num) {
        context_table(data, context)
    } else if resolves(data.values, key, num) {
        data.values
    } else {
        None
    }
}

/// The translation of `key`: the rendering that the deciding table yields,
/// or, where no table decides or no data is loaded, the phrase rendered as
/// its own translation.
pub open spec fn translation(
    data: Option<DataModel>,
    key: Seq<char>,
    num: Option<i64>,
    pairs: Seq<(Seq<char>, Seq<char>)>,
    context: Map<Seq<char>, Seq<char>>,
    answer: Option<Seq<char>>,
) -> Seq<char> {
    match data {
        Some(data) => match resolve(
            deciding_table(data, key, num, context),
            key,
            num,
            pairs,
            answer,
        ) {
            Some(text) => text,
            None => original_text(key, num, pairs),
        },
        None => original_text(key, num, pairs),
    }
}

} // verus!
