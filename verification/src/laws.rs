//! Laws of translating: what holds of every table, phrase and number.

use crate::data::{contexts_of, keeps_present, merged, DataModel, DataOptions};
use crate::decimal::{decimal, is_decimal_char, lemma_decimal_shape};
use crate::render::{
    formatted, negated_token, number_token, original_text, rendered, with_numbers,
};
use crate::resolve::{
    context_matches, context_table, deciding_table, first_context, first_index, first_match,
    is_first, lemma_first_index_exists, lemma_first_index_none, lemma_first_index_some,
    range_matches, resolve, resolve_entry, resolves, translation,
};
use crate::text::{occurs_at, occurs_in, replace_all};
use crate::textmap::TextMap;
use crate::translator::{
    deciding_dictionary, default_table, dictionary_at, scoped_table, table_of, Translator,
};
use crate::value::Entry;
use vstd::prelude::*;

verus! {

/// A text in which a pattern does not occur is left as it is when the
/// pattern is replaced.
pub proof fn lemma_replace_absent(s: Seq<char>, pat: Seq<char>, to: Seq<char>)
    requires
        !occurs_in(s, pat),
    ensures
        replace_all(s, pat, to) == s,
    decreases s.len(),
{
    if pat.len() == 0 {
        assert(s.subrange(0, 0) =~= pat);
        assert(occurs_at(s, pat, 0));
    } else if s.len() >= pat.len() {
        assert(!occurs_at(s, pat, 0));
        let rest = s.skip(1);
        assert(!occurs_in(rest, pat)) by {
            if occurs_in(rest, pat) {
                let i = choose|i: int| occurs_at(rest, pat, i);
                assert(rest.subrange(i, i + pat.len()) =~= s.subrange(i + 1, i + 1 + pat.len()));
                assert(occurs_at(s, pat, i + 1));
            }
        }
        lemma_replace_absent(rest, pat, to);
        assert(seq![s[0]] + rest =~= s);
    }
}

/// After every `%n` has been replaced by a text that is not empty, holds no
/// `%` and does not begin with `n`, no `%n` is left: what was put in makes
/// no new token, alone or with what stands beside it.
pub proof fn lemma_number_token_consumed(s: Seq<char>, to: Seq<char>)
    requires
        to.len() > 0,
        forall|i: int| 0 <= i < to.len() ==> to[i] != '%',
        to[0] != 'n',
    ensures
        !occurs_in(replace_all(s, number_token(), to), number_token()),
        replace_all(s, number_token(), to).len() > 0 && replace_all(s, number_token(), to)[0]
            == 'n' ==> s.len() > 0 && s[0] == 'n',
    decreases s.len(),
{
    let pat = number_token();
    let out = replace_all(s, pat, to);
    if s.len() < 2 {
        assert(!occurs_in(out, pat)) by {
            if occurs_in(out, pat) {
                let i = choose|i: int| occurs_at(out, pat, i);
            }
        }
    } else if occurs_at(s, pat, 0) {
        let rest = s.skip(2);
        let tail = replace_all(rest, pat, to);
        lemma_number_token_consumed(rest, to);
        assert(out == to + tail);
        assert(!occurs_in(out, pat)) by {
            if occurs_in(out, pat) {
                let i = choose|i: int| occurs_at(out, pat, i);
                let found = out.subrange(i, i + 2);
                assert(found[0] == '%' && found[1] == 'n');
                if i < to.len() {
                    assert(out[i] == to[i]);
                } else {
                    assert(tail.subrange(i - to.len(), i - to.len() + 2) =~= found);
                    assert(occurs_at(tail, pat, i - to.len()));
                }
            }
        }
        assert(out[0] == to[0]);
    } else {
        let rest = s.skip(1);
        let tail = replace_all(rest, pat, to);
        lemma_number_token_consumed(rest, to);
        assert(out == seq![s[0]] + tail);
        assert(!occurs_in(out, pat)) by {
            if occurs_in(out, pat) {
                let i = choose|i: int| occurs_at(out, pat, i);
                let found = out.subrange(i, i + 2);
                assert(found[0] == '%' && found[1] == 'n');
                if i == 0 {
                    assert(s[0] == '%');
                    assert(tail[0] == 'n');
                    assert(rest[0] == s[1]);
                    assert(s.subrange(0, 2) =~= pat);
                } else {
                    assert(tail.subrange(i - 1, i + 1) =~= found);
                    assert(occurs_at(tail, pat, i - 1));
                }
            }
        }
        assert(out[0] == s[0]);
    }
}

/// Where `-%n` occurs, `%n` occurs.
pub proof fn lemma_negated_token_holds_number_token(s: Seq<char>)
    requires
        !occurs_in(s, number_token()),
    ensures
        !occurs_in(s, negated_token()),
{
    if occurs_in(s, negated_token()) {
        let i = choose|i: int| occurs_at(s, negated_token(), i);
        let found = s.subrange(i, i + 3);
        assert(found[1] == '%' && found[2] == 'n');
        assert(s.subrange(i + 1, i + 3) =~= number_token());
        assert(occurs_at(s, number_token(), i + 1));
    }
}

/// Putting a number into a template leaves no `%n` and no `-%n`: the digits
/// that were put in are not taken for a token.
pub proof fn lemma_with_numbers_leaves_no_token(template: Seq<char>, n: int)
    ensures
        !occurs_in(with_numbers(template, n), number_token()),
        !occurs_in(with_numbers(template, n), negated_token()),
{
    let to = decimal(n);
    lemma_decimal_shape(n);
    assert forall|i: int| 0 <= i < to.len() implies to[i] != '%' && to[i] != 'n' by {
        assert(is_decimal_char(to[i]));
    }
    lemma_number_token_consumed(replace_all(template, negated_token(), decimal(-n)), to);
    lemma_negated_token_holds_number_token(with_numbers(template, n));
}

/// A template without `%n` is left as it is when a number is put in.
pub proof fn lemma_with_numbers_without_token(template: Seq<char>, n: int)
    requires
        !occurs_in(template, number_token()),
    ensures
        with_numbers(template, n) == template,
{
    lemma_negated_token_holds_number_token(template);
    lemma_replace_absent(template, negated_token(), decimal(-n));
    lemma_replace_absent(template, number_token(), decimal(n));
}

/// Putting a number in twice is putting it in once: after the first time no
/// token is left for the second, whatever its number.
pub proof fn lemma_with_numbers_idempotent(template: Seq<char>, n: int, m: int)
    ensures
        with_numbers(with_numbers(template, n), m) == with_numbers(template, n),
{
    lemma_with_numbers_leaves_no_token(template, n);
    lemma_with_numbers_without_token(with_numbers(template, n), m);
}

/// Plural ranges are tried in order, and the first one that the number
/// satisfies decides, whether or not a later one is satisfied too.
pub proof fn lemma_first_range_wins(
    ranges: Seq<(Option<i64>, Option<i64>, Seq<char>)>,
    key: Seq<char>,
    num: Option<i64>,
    pairs: Seq<(Seq<char>, Seq<char>)>,
    answer: Option<Seq<char>>,
    i: int,
)
    requires
        0 <= i < ranges.len(),
        range_matches(ranges[i].0, ranges[i].1, num),
        forall|j: int| 0 <= j < i ==> !range_matches(ranges[j].0, ranges[j].1, num),
    ensures
        first_match(ranges, num) == Some(i),
        resolve_entry(Entry::PluralRanges(ranges), key, num, pairs, answer) == Some(
            rendered(ranges[i].2, num, pairs),
        ),
{
    let holds = |i: int| range_matches(ranges[i].0, ranges[i].1, num);
    assert(is_first(ranges.len() as int, holds, i));
    lemma_first_index_some(ranges.len() as int, holds, i);
}

/// The range that decides is satisfied, and none before it is; a range
/// decides exactly where some range is satisfied.
pub proof fn lemma_first_match_is_least(
    ranges: Seq<(Option<i64>, Option<i64>, Seq<char>)>,
    num: Option<i64>,
)
    ensures
        match first_match(ranges, num) {
            Some(i) => {
                &&& 0 <= i < ranges.len()
                &&& range_matches(ranges[i].0, ranges[i].1, num)
                &&& forall|j: int| 0 <= j < i ==> !range_matches(ranges[j].0, ranges[j].1, num)
            },
            None => forall|j: int|
                0 <= j < ranges.len() ==> !range_matches(ranges[j].0, ranges[j].1, num),
        },
{
    let holds = |i: int| range_matches(ranges[i].0, ranges[i].1, num);
    let len = ranges.len() as int;
    match first_index(len, holds) {
        Some(i) => {
            assert(is_first(len, holds, i));
            assert forall|j: int| 0 <= j < i implies !range_matches(
                ranges[j].0,
                ranges[j].1,
                num,
            ) by {
                assert(!holds(j));
            }
        },
        None => {
            assert forall|j: int| 0 <= j < len implies !range_matches(
                ranges[j].0,
                ranges[j].1,
                num,
            ) by {
                if holds(j) {
                    lemma_first_index_exists(len, holds, j);
                }
            }
        },
    }
}

/// A table yields a rendering exactly where it resolves the phrase.
pub proof fn lemma_resolve_is_some(
    table: Option<Map<Seq<char>, Entry>>,
    key: Seq<char>,
    num: Option<i64>,
    pairs: Seq<(Seq<char>, Seq<char>)>,
    answer: Option<Seq<char>>,
)
    ensures
        resolve(table, key, num, pairs, answer) is Some <==> resolves(table, key, num),
{
}

/// Without a number and without named values, a phrase is its own
/// rendering.
pub proof fn lemma_original_text_plain(key: Seq<char>)
    ensures
        original_text(key, None, Seq::empty()) == key,
{
}

/// With a number, a phrase is rendered as its own translation just as a
/// template is rendered: `-%n` becomes the negated number, `%n` the number.
pub proof fn lemma_original_text_numbered(
    key: Seq<char>,
    n: i64,
    pairs: Seq<(Seq<char>, Seq<char>)>,
)
    ensures
        original_text(key, Some(n), pairs) == rendered(key, Some(n), pairs),
        original_text(key, Some(n), pairs) == formatted(with_numbers(key, n as int), pairs),
{
}

/// Whether no table of `data` has an entry.
pub open spec fn is_empty_store(data: DataModel) -> bool {
    &&& data.values matches Some(table) ==> table.dom() =~= Set::empty()
    &&& data.contexts matches Some(contexts) ==> forall|i: int|
        0 <= i < contexts.len() ==> (#[trigger] contexts[i]).values.dom() =~= Set::empty()
}

/// With no data, or with data whose tables are all empty, the translation
/// of a phrase without a number and without named values is the phrase.
pub proof fn lemma_translation_on_empty_store(
    data: Option<DataModel>,
    key: Seq<char>,
    context: Map<Seq<char>, Seq<char>>,
    answer: Option<Seq<char>>,
)
    requires
        data matches Some(d) ==> is_empty_store(d),
    ensures
        translation(data, key, None, Seq::empty(), context, answer) == key,
{
    if let Some(d) = data {
        lemma_context_table_is_listed(d, context);
        assert(!resolves(context_table(d, context), key, None));
        assert(!resolves(d.values, key, None));
    }
}

/// The table of the context is the table of one of the context tables, and
/// that one is satisfied by the context.
pub proof fn lemma_context_table_is_listed(data: DataModel, context: Map<Seq<char>, Seq<char>>)
    ensures
        context_table(data, context) matches Some(table) ==> data.contexts matches Some(contexts)
            && exists|i: int|
            0 <= i < contexts.len() && (#[trigger] contexts[i]).values == table && context_matches(
                contexts[i].matches,
                context,
            ),
{
    if let Some(contexts) = data.contexts {
        let holds = |i: int| context_matches(contexts[i].matches, context);
        if let Some(i) = first_context(contexts, context) {
            assert(is_first(contexts.len() as int, holds, i));
            assert(contexts[i].values == context_table(data, context)->0);
        }
    }
}

/// Where the entry that decides for a phrase is a literal, the translation
/// is that literal with the named values put in; the number plays no part.
pub proof fn lemma_literal_translation(
    data: DataModel,
    key: Seq<char>,
    num: Option<i64>,
    pairs: Seq<(Seq<char>, Seq<char>)>,
    context: Map<Seq<char>, Seq<char>>,
    answer: Option<Seq<char>>,
    text: Seq<char>,
)
    requires
        deciding_table(data, key, num, context) matches Some(table) && table.contains_key(key)
            && table[key] == Entry::Literal(text),
    ensures
        translation(Some(data), key, num, pairs, context, answer) == formatted(text, pairs),
{
}

/// Where the default table has a literal for a phrase and the table of the
/// context has no entry for it, the translation is that literal with the
/// named values put in.
pub proof fn lemma_default_literal_translation(
    data: DataModel,
    key: Seq<char>,
    num: Option<i64>,
    pairs: Seq<(Seq<char>, Seq<char>)>,
    context: Map<Seq<char>, Seq<char>>,
    answer: Option<Seq<char>>,
    text: Seq<char>,
)
    requires
        data.values matches Some(table) && table.contains_key(key) && table[key] == Entry::Literal(
            text,
        ),
        context_table(data, context) matches Some(table) ==> !table.contains_key(key),
    ensures
        translation(Some(data), key, num, pairs, context, answer) == formatted(text, pairs),
{
}

/// Where the context satisfies no context table, the default table
/// decides: the translation is what it yields, or, where it yields nothing,
/// the phrase rendered as its own translation.
pub proof fn lemma_falls_back_to_default_table(
    data: DataModel,
    key: Seq<char>,
    num: Option<i64>,
    pairs: Seq<(Seq<char>, Seq<char>)>,
    context: Map<Seq<char>, Seq<char>>,
    answer: Option<Seq<char>>,
)
    requires
        data.contexts matches Some(contexts) ==> forall|i: int|
            0 <= i < contexts.len() ==> !context_matches(
                (#[trigger] contexts[i]).matches,
                context,
            ),
    ensures
        context_table(data, context) is None,
        translation(Some(data), key, num, pairs, context, answer) == (match resolve(
            data.values,
            key,
            num,
            pairs,
            answer,
        ) {
            Some(text) => text,
            None => original_text(key, num, pairs),
        }),
{
    if let Some(contexts) = data.contexts {
        let holds = |i: int| context_matches(contexts[i].matches, context);
        assert forall|j: int| 0 <= j < contexts.len() implies !#[trigger] holds(j) by {
            assert(!context_matches(contexts[j].matches, context));
        }
        lemma_first_index_none(contexts.len() as int, holds);
    }
}

/// Where neither the table of the context nor the default table has an
/// entry for a phrase, the translation is the phrase rendered as its own
/// translation.
pub proof fn lemma_falls_back_to_phrase(
    data: DataModel,
    key: Seq<char>,
    num: Option<i64>,
    pairs: Seq<(Seq<char>, Seq<char>)>,
    context: Map<Seq<char>, Seq<char>>,
    answer: Option<Seq<char>>,
)
    requires
        context_table(data, context) matches Some(table) ==> !table.contains_key(key),
        data.values matches Some(table) ==> !table.contains_key(key),
    ensures
        translation(Some(data), key, num, pairs, context, answer) == original_text(
            key,
            num,
            pairs,
        ),
{
}

/// Adding data takes no entry out of the default table: a phrase that had
/// an entry has one afterwards, the added one where the added data has one
/// for it, else the one it had.
pub proof fn lemma_add_keeps_entries(current: DataModel, incoming: DataModel, key: Seq<char>)
    requires
        current.values matches Some(table) && table.contains_key(key),
    ensures
        merged(current, incoming).values matches Some(table) && table.contains_key(key)
            && table[key] == (match incoming.values {
            Some(added) if added.contains_key(key) => added[key],
            _ => current.values->0[key],
        }),
{
}

/// Adding data brings the entries of its default table into the default
/// table.
pub proof fn lemma_add_brings_entries(current: DataModel, incoming: DataModel, key: Seq<char>)
    requires
        incoming.values matches Some(added) && added.contains_key(key),
    ensures
        merged(current, incoming).values matches Some(table) && table.contains_key(key)
            && table[key] == incoming.values->0[key],
{
}

/// Adding data does not change which context table a context selects, where
/// it selected one: the added context tables come after those that were
/// there.
pub proof fn lemma_add_keeps_context_table(
    current: DataModel,
    incoming: DataModel,
    context: Map<Seq<char>, Seq<char>>,
)
    requires
        context_table(current, context) is Some,
    ensures
        context_table(merged(current, incoming), context) == context_table(current, context),
{
    let present = current.contexts->0;
    let i = first_context(present, context)->0;
    let holds = |i: int| context_matches(present[i].matches, context);
    assert(is_first(present.len() as int, holds, i));
    if let Some(added) = incoming.contexts {
        let all = present + added;
        let holds_all = |i: int| context_matches(all[i].matches, context);
        assert(all[i] == present[i]);
        assert(holds_all(i));
        assert forall|j: int| 0 <= j < i implies !#[trigger] holds_all(j) by {
            assert(all[j] == present[j]);
            assert(!holds(j));
        }
        assert(is_first(all.len() as int, holds_all, i));
        lemma_first_index_some(all.len() as int, holds_all, i);
    }
}

/// Whether `incoming` has nothing to say of the phrase `key` in `context`:
/// its default table has no entry for the phrase, and `context` satisfies
/// none of its context tables.
pub open spec fn is_silent_on(
    incoming: DataOptions,
    key: Seq<char>,
    context: Map<Seq<char>, Seq<char>>,
) -> bool {
    &&& incoming.values matches Some(table) ==> !table.values().contains_key(key)
    &&& incoming.contexts matches Some(contexts) ==> forall|i: int|
        0 <= i < contexts@.len() ==> !context_matches((#[trigger] contexts@[i]).matches@, context)
}

/// Adding data that has nothing to say of a phrase in a context changes
/// nothing for that phrase there: the same context table is selected, and
/// the same entries, the very dictionaries among them, are found.
pub proof fn lemma_add_keeps_what_decides(
    before: DataOptions,
    incoming: DataOptions,
    after: DataOptions,
    key: Seq<char>,
    num: Option<i64>,
    context: Map<Seq<char>, Seq<char>>,
)
    requires
        after@ == merged(before@, incoming@),
        keeps_present(before, incoming, after),
        is_silent_on(incoming, key, context),
    ensures
        scoped_table(&after, context) == scoped_table(&before, context),
        dictionary_at(default_table(&after), key) == dictionary_at(default_table(&before), key),
        resolves(table_of(default_table(&after)), key, num) == resolves(
            table_of(default_table(&before)),
            key,
            num,
        ),
        deciding_dictionary(Some(after), key, num, context) == deciding_dictionary(
            Some(before),
            key,
            num,
            context,
        ),
        forall|pairs: Seq<(Seq<char>, Seq<char>)>, answer: Option<Seq<char>>|
            #[trigger] translation(Some(after@), key, num, pairs, context, answer) == translation(
                Some(before@),
                key,
                num,
                pairs,
                context,
                answer,
            ),
{
    // the context table
    match (before.contexts, incoming.contexts) {
        (Some(present), Some(added)) => {
            let all = after.contexts->0;
            let old_models = contexts_of(present@);
            let new_models = contexts_of(all@);
            let held = |i: int| context_matches(old_models[i].matches, context);
            let holds = |i: int| context_matches(new_models[i].matches, context);
            assert(new_models == old_models + contexts_of(added@));
            assert forall|i: int| 0 <= i < present@.len() implies all@[i] == present@[i] by {}
            match first_context(old_models, context) {
                Some(i) => {
                    assert(is_first(old_models.len() as int, held, i));
                    assert(holds(i));
                    assert forall|j: int| 0 <= j < i implies !#[trigger] holds(j) by {
                        assert(!held(j));
                    }
                    assert(is_first(new_models.len() as int, holds, i));
                    lemma_first_index_some(new_models.len() as int, holds, i);
                },
                None => {
                    assert forall|j: int| 0 <= j < new_models.len() implies !#[trigger] holds(
                        j,
                    ) by {
                        if j < old_models.len() {
                            if held(j) {
                                lemma_first_index_exists(old_models.len() as int, held, j);
                            }
                            assert(new_models[j] == old_models[j]);
                        } else {
                            let k = j - old_models.len();
                            assert(new_models[j] == added@[k]@);
                            assert(!context_matches(added@[k].matches@, context));
                        }
                    }
                    lemma_first_index_none(new_models.len() as int, holds);
                },
            }
        },
        (None, Some(added)) => {
            let all = after.contexts->0;
            let new_models = contexts_of(all@);
            let holds = |i: int| context_matches(new_models[i].matches, context);
            assert(new_models == contexts_of(added@));
            assert forall|j: int| 0 <= j < new_models.len() implies !#[trigger] holds(j) by {
                assert(new_models[j] == added@[j]@);
                assert(!context_matches(added@[j].matches@, context));
            }
            lemma_first_index_none(new_models.len() as int, holds);
        },
        _ => {},
    }
    assert(scoped_table(&after, context) == scoped_table(&before, context));
    assert(context_table(after@, context) == context_table(before@, context)) by {
        lemma_scoped_table_view(after, context);
        lemma_scoped_table_view(before, context);
    }
    // the default table
    assert(table_of(default_table(&after)) == after@.values);
    assert(table_of(default_table(&before)) == before@.values);
    match (before.values, incoming.values) {
        (Some(present), Some(added)) => {
            let table = after.values->0;
            assert(!added@.contains_key(key));
            assert(table.values().contains_key(key) <==> present.values().contains_key(key));
        },
        (None, Some(added)) => {
            let table = after.values->0;
            assert(!added@.contains_key(key));
            assert(!table@.contains_key(key));
        },
        _ => {},
    }
    assert(resolves(after@.values, key, num) == resolves(before@.values, key, num));
    assert forall|pairs: Seq<(Seq<char>, Seq<char>)>, answer: Option<Seq<char>>|
        #[trigger] translation(Some(after@), key, num, pairs, context, answer) == translation(
            Some(before@),
            key,
            num,
            pairs,
            context,
            answer,
        ) by {
        assert(resolve(after@.values, key, num, pairs, answer) == resolve(
            before@.values,
            key,
            num,
            pairs,
            answer,
        ));
    }
}

/// After data was added that has nothing to say of a phrase in a context,
/// a translator translates the phrase there as it did before, with or
/// without an extension: whatever was a translation of it is one still, and
/// nothing else is.
pub proof fn lemma_add_keeps_translations<
    F: Fn(&str, Option<i64>, Option<&TextMap>, Option<&TextMap>) -> String,
>(
    before: Translator<F>,
    after: Translator<F>,
    incoming: DataOptions,
    text: &str,
    num: Option<i64>,
    formatting: Option<&TextMap>,
    context: &TextMap,
    r: String,
)
    requires
        before.data() matches Some(present) && after.data() matches Some(result) && result@
            == merged(present@, incoming@) && keeps_present(present, incoming, result),
        after.extension() == before.extension(),
        is_silent_on(incoming, text@, context@),
    ensures
        after.translates(text, num, formatting, context, r) == before.translates(
            text,
            num,
            formatting,
            context,
            r,
        ),
{
    lemma_add_keeps_what_decides(
        before.data()->0,
        incoming,
        after.data()->0,
        text@,
        num,
        context@,
    );
}

/// What the table of the selected context table says is the table that the
/// context selects in what the data says.
pub proof fn lemma_scoped_table_view(data: DataOptions, context: Map<Seq<char>, Seq<char>>)
    ensures
        table_of(scoped_table(&data, context)) == context_table(data@, context),
{
    if let Some(contexts) = data.contexts {
        let models = contexts_of(contexts@);
        if let Some(i) = first_context(models, context) {
            let holds = |i: int| context_matches(models[i].matches, context);
            assert(is_first(models.len() as int, holds, i));
        }
    }
}

} // verus!
