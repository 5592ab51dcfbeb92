//! The translator: translation data, a default context and an optional
//! pluralization extension, and the translating calls.

use crate::assoc::{put, without};
use crate::context::{chosen_context, get_context_data};
use crate::data::{
    append_contexts, clone_contexts, keeps_present, merged, DataModel, DataOptions,
};
use crate::render::{apply_formatting, formatting_pairs, render, use_original_text};
use crate::resolve::{
    is_first, lemma_first_index_none, lemma_first_index_some, range_matches, resolve, resolves,
    translation,
};
use crate::table::Table;
use crate::textmap::TextMap;
use crate::value::{ranges_of, Entry, NumOrFormatting, Value};
use vstd::prelude::*;

verus! {

/// Whether `extension` may be called with every phrase, number and
/// formatting, and every dictionary.
pub open spec fn accepts_all<
    F: Fn(&str, Option<i64>, Option<&TextMap>, Option<&TextMap>) -> String,
>(extension: F) -> bool {
    forall|key: &str, num: Option<i64>, formatting: Option<&TextMap>, dictionary: &TextMap|
        #[trigger] call_requires(extension, (key, num, formatting, Some(dictionary)))
}

/// The text of an optional string.
pub open spec fn text_of(s: Option<String>) -> Option<Seq<char>> {
    match s {
        Some(s) => Some(s@),
        None => None,
    }
}

/// What an optional table says.
pub open spec fn table_of(table: Option<&Table>) -> Option<Map<Seq<char>, Entry>> {
    match table {
        Some(table) => Some(table@),
        None => None,
    }
}

/// The dictionary that `table` has for `key`, if its entry is one.
pub open spec fn dictionary_at(table: Option<&Table>, key: Seq<char>) -> Option<TextMap> {
    match table {
        Some(table) => if table.values().contains_key(key) {
            match table.values()[key] {
                Value::Dictionary(dictionary) => Some(dictionary),
                _ => None,
            }
        } else {
            None
        },
        None => None,
    }
}

/// The table of the first context table of `data` that `context` satisfies.
pub open spec fn scoped_table<'a>(
    data: &'a DataOptions,
    context: Map<Seq<char>, Seq<char>>,
) -> Option<&'a Table> {
    match chosen_context(data, context) {
        Some(chosen) => Some(&chosen.values),
        None => None,
    }
}

/// The default table of `data`.
pub open spec fn default_table<'a>(data: &'a DataOptions) -> Option<&'a Table> {
    match &data.values {
        Some(table) => Some(table),
        None => None,
    }
}

/// The dictionary of the entry that decides for `key`, if that entry is
/// one: it is what the extension is asked about.
pub open spec fn deciding_dictionary(
    data: Option<DataOptions>,
    key: Seq<char>,
    num: Option<i64>,
    context: Map<Seq<char>, Seq<char>>,
) -> Option<TextMap> {
    match data {
        Some(data) => if resolves(table_of(scoped_table(&data, context)), key, num) {
            dictionary_at(scoped_table(&data, context), key)
        } else {
            dictionary_at(default_table(&data), key)
        },
        None => None,
    }
}

/// The number of a translating call: the first argument, if it is a number;
/// else the second, if there is no first and the second is a number.
pub open spec fn number_given(
    first: Option<&NumOrFormatting>,
    second: Option<&NumOrFormatting>,
) -> Option<i64> {
    match first {
        Some(NumOrFormatting::Number(n)) => Some(*n),
        Some(NumOrFormatting::Formatting(_)) => None,
        None => match second {
            Some(NumOrFormatting::Number(n)) => Some(*n),
            _ => None,
        },
    }
}

/// The formatting of a translating call: the first argument, if it is a
/// formatting; after a number, the second, if it is a formatting; with no
/// first argument, the second, if it is a formatting, or, after a number in
/// second place, the third.
pub open spec fn formatting_given<'a>(
    first: Option<&'a NumOrFormatting>,
    second: Option<&'a NumOrFormatting>,
    third: Option<&'a TextMap>,
) -> Option<&'a TextMap> {
    match first {
        Some(NumOrFormatting::Formatting(formatting)) => Some(formatting),
        Some(NumOrFormatting::Number(_)) => match second {
            Some(NumOrFormatting::Formatting(formatting)) => Some(formatting),
            _ => None,
        },
        None => match second {
            Some(NumOrFormatting::Formatting(formatting)) => Some(formatting),
            Some(NumOrFormatting::Number(_)) => third,
            None => None,
        },
    }
}

/// The context of a translating call: what follows the formatting, where
/// the formatting is an argument of its own and something follows it; else
/// the default context.
pub open spec fn context_given<'a>(
    first: Option<&'a NumOrFormatting>,
    second: Option<&'a NumOrFormatting>,
    third: Option<&'a TextMap>,
    default_context: &'a TextMap,
) -> &'a TextMap {
    match first {
        Some(NumOrFormatting::Formatting(_)) => match second {
            Some(NumOrFormatting::Formatting(context)) => context,
            _ => default_context,
        },
        Some(NumOrFormatting::Number(_)) => match third {
            Some(context) => context,
            None => default_context,
        },
        None => match second {
            Some(NumOrFormatting::Formatting(_)) => match third {
                Some(context) => context,
                None => default_context,
            },
            _ => default_context,
        },
    }
}

/// Whether `num` satisfies the plural range from `low` to `high`.
pub fn in_range(low: Option<i64>, high: Option<i64>, num: Option<i64>) -> (b: bool)
    ensures
        b == range_matches(low, high, num),
{
    match num {
        None => low.is_none() && high.is_none(),
        Some(n) => match (low, high) {
            (None, None) => false,
            (Some(l), None) => l <= n,
            (None, Some(h)) => n <= h,
            (Some(l), Some(h)) => l <= n && n <= h,
        },
    }
}

/// A translator.
///
/// It holds the translation data that was added to it, a default context
/// that it uses where a call gives none, and, optionally, an extension: a
/// function that chooses the template for a phrase whose entry is a
/// dictionary.
#[derive(Debug)]
pub struct Translator<F: Fn(&str, Option<i64>, Option<&TextMap>, Option<&TextMap>) -> String> {
    data: Option<DataOptions>,
    global_context: TextMap,
    extension: Option<F>,
}

impl<F: Fn(&str, Option<i64>, Option<&TextMap>, Option<&TextMap>) -> String> Translator<F> {
    /// The translation data, if any was added.
    pub closed spec fn data(&self) -> Option<DataOptions> {
        self.data
    }

    /// The default context.
    pub closed spec fn context(&self) -> TextMap {
        self.global_context
    }

    /// The extension, if one was registered.
    pub closed spec fn extension(&self) -> Option<F> {
        self.extension
    }

    /// What the translation data says.
    pub open spec fn model(&self) -> Option<DataModel> {
        match self.data() {
            Some(data) => Some(data@),
            None => None,
        }
    }

    /// The extension can be called with whatever a translating call hands
    /// to it.
    #[verifier::type_invariant]
    pub open spec fn well_formed(&self) -> bool {
        self.extension() matches Some(extension) ==> accepts_all(extension)
    }

    /// Whether `r` is what `table` gives for the phrase `text`.
    ///
    /// Where the entry of `text` is a dictionary and an extension is
    /// registered, the extension is asked with the arguments of the call and
    /// that dictionary, and `r` is the rendering of a template that the
    /// extension can give on them. Otherwise `r` is the rendering that the
    /// table yields without an extension.
    pub open spec fn finds(
        &self,
        text: &str,
        num: Option<i64>,
        formatting: Option<&TextMap>,
        table: Option<&Table>,
        r: Option<String>,
    ) -> bool {
        match (self.extension(), dictionary_at(table, text@)) {
            (Some(extension), Some(dictionary)) => exists|answer: String|
                #[trigger] call_ensures(
                    extension,
                    (text, num, formatting, Some(&dictionary)),
                    answer,
                ) && text_of(r) == resolve(
                    table_of(table),
                    text@,
                    num,
                    formatting_pairs(formatting),
                    Some(answer@),
                ),
            _ => text_of(r) == resolve(
                table_of(table),
                text@,
                num,
                formatting_pairs(formatting),
                None,
            ),
        }
    }

    /// Whether `r` is the translation of the phrase `text` in `context`.
    ///
    /// Where the entry that decides is a dictionary and an extension is
    /// registered, the extension is asked with the arguments of the call and
    /// that dictionary, and `r` is the translation for a template that the
    /// extension can give on them. Otherwise `r` is the translation without
    /// an extension.
    pub open spec fn translates(
        &self,
        text: &str,
        num: Option<i64>,
        formatting: Option<&TextMap>,
        context: &TextMap,
        r: String,
    ) -> bool {
        match (self.extension(), deciding_dictionary(self.data(), text@, num, context@)) {
            (Some(extension), Some(dictionary)) => exists|answer: String|
                #[trigger] call_ensures(
                    extension,
                    (text, num, formatting, Some(&dictionary)),
                    answer,
                ) && r@ == translation(
                    self.model(),
                    text@,
                    num,
                    formatting_pairs(formatting),
                    context@,
                    Some(answer@),
                ),
            _ => r@ == translation(
                self.model(),
                text@,
                num,
                formatting_pairs(formatting),
                context@,
                None,
            ),
        }
    }

    /// A translator that holds a copy of `data`, with an empty default
    /// context and no extension.
    pub fn create(data: &DataOptions) -> (r: Translator<F>)
        ensures
            r.model() == Some(data@),
            r.context().pairs() == Seq::<(Seq<char>, Seq<char>)>::empty(),
            r.extension() is None,
    {
        let mut translator = Translator {
            data: None,
            global_context: TextMap::new(),
            extension: None,
        };
        translator.add(data);
        return translator;
    }

    /// A translator that holds `data` and the default context
    /// `global_context`, and no extension.
    pub fn from_parts(data: Option<DataOptions>, global_context: TextMap) -> (r: Translator<F>)
        ensures
            r.data() == data,
            r.context() == global_context,
            r.extension() is None,
    {
        Translator { data, global_context, extension: None }
    }

    /// The translation data, if any was added.
    pub fn get_data(&self) -> (r: Option<&DataOptions>)
        ensures
            match r {
                Some(data) => self.data() == Some(*data),
                None => self.data() is None,
            },
    {
        self.data.as_ref()
    }

    /// The default context.
    pub fn get_context(&self) -> (r: &TextMap)
        ensures
            *r == self.context(),
    {
        &self.global_context
    }

    /// Whether an extension is registered.
    pub fn has_extension(&self) -> (b: bool)
        ensures
            b == self.extension() is Some,
    {
        self.extension.is_some()
    }

    /// Adds a copy of `data` to the translation data. In the default table
    /// an added entry replaces the one that its phrase had; the added
    /// context tables come after those that were there. Nothing is taken
    /// away, and what `data` does not name stays as it was.
    pub fn add(&mut self, data: &DataOptions)
        ensures
            final(self).model() == Some(
                match old(self).model() {
                    Some(present) => merged(present, data@),
                    None => data@,
                },
            ),
            old(self).data() matches Some(present) ==> final(self).data() matches Some(result)
                && keeps_present(present, *data, result),
            final(self).context() == old(self).context(),
            final(self).extension() == old(self).extension(),
    {
        proof {
            use_type_invariant(&*self);
        }
        let mut present: Option<DataOptions> = None;
        core::mem::swap(&mut self.data, &mut present);
        match present {
            Some(self_data) => {
                let ghost before = self_data@;
                let DataOptions { values: self_values, contexts: self_contexts } = self_data;
                let values = match &data.values {
                    Some(data_values) => match self_values {
                        Some(mut self_data_values) => {
                            self_data_values.merge(data_values);
                            Some(self_data_values)
                        },
                        None => Some(data_values.clone()),
                    },
                    None => self_values,
                };
                let contexts = match &data.contexts {
                    Some(data_contexts) => match self_contexts {
                        Some(mut self_data_contexts) => {
                            append_contexts(&mut self_data_contexts, data_contexts);
                            Some(self_data_contexts)
                        },
                        None => Some(clone_contexts(data_contexts)),
                    },
                    None => self_contexts,
                };
                let result = DataOptions { values, contexts };
                assert(result@ == merged(before, data@));
                self.data = Some(result);
            },
            None => {
                self.data = Some(data.clone());
            },
        }
    }

    /// Binds the attribute `key` of the default context to `value`.
    pub fn set_context(&mut self, key: &str, value: &str)
        ensures
            final(self).context()@ == old(self).context()@.insert(key@, value@),
            final(self).context().pairs() == put(old(self).context().pairs(), key@, value@),
            final(self).data() == old(self).data(),
            final(self).extension() == old(self).extension(),
    {
        proof {
            use_type_invariant(&*self);
        }
        let mut context = TextMap::new();
        core::mem::swap(&mut self.global_context, &mut context);
        context.insert(key.to_owned(), value.to_owned());
        self.global_context = context;
    }

    /// Takes the attribute `key` out of the default context.
    pub fn clear_context(&mut self, key: &str)
        ensures
            final(self).context()@ == old(self).context()@.remove(key@),
            final(self).context().pairs() == without(old(self).context().pairs(), key@),
            final(self).data() == old(self).data(),
            final(self).extension() == old(self).extension(),
    {
        proof {
            use_type_invariant(&*self);
        }
        let mut context = TextMap::new();
        core::mem::swap(&mut self.global_context, &mut context);
        context.remove(key);
        self.global_context = context;
    }

    /// Forgets the translation data.
    pub fn reset_data(&mut self)
        ensures
            final(self).data() is None,
            final(self).context() == old(self).context(),
            final(self).extension() == old(self).extension(),
    {
        proof {
            use_type_invariant(&*self);
        }
        self.data = None;
    }

    /// Empties the default context.
    pub fn reset_context(&mut self)
        ensures
            final(self).context().pairs() == Seq::<(Seq<char>, Seq<char>)>::empty(),
            final(self).context()@ == Map::<Seq<char>, Seq<char>>::empty(),
            final(self).data() == old(self).data(),
            final(self).extension() == old(self).extension(),
    {
        proof {
            use_type_invariant(&*self);
        }
        self.global_context = TextMap::new();
    }

    /// Forgets the translation data and empties the default context.
    pub fn reset(&mut self)
        ensures
            final(self).data() is None,
            final(self).context().pairs() == Seq::<(Seq<char>, Seq<char>)>::empty(),
            final(self).context()@ == Map::<Seq<char>, Seq<char>>::empty(),
            final(self).extension() == old(self).extension(),
    {
        self.reset_data();
        self.reset_context();
    }

    /// Registers `extension` as the function that is asked for the template
    /// of a phrase whose entry is a dictionary, in place of the one that was
    /// registered.
    pub fn extend(&mut self, extension: F)
        requires
            accepts_all(extension),
        ensures
            final(self).extension() == Some(extension),
            final(self).data() == old(self).data(),
            final(self).context() == old(self).context(),
    {
        self.extension = Some(extension);
    }

    /// Translates `text`. The arguments after it may be a number, a
    /// formatting and a context, or a formatting and a context, or, with
    /// nothing in the first place, a number and a formatting or a formatting
    /// and a context. Where the call gives no context, the default context
    /// is used.
    pub fn translate(
        &self,
        text: &str,
        default_num_or_formatting: Option<&NumOrFormatting>,
        num_or_formatting_or_context: Option<&NumOrFormatting>,
        formatting_or_context: Option<&TextMap>,
    ) -> (r: String)
        ensures
            self.translates(
                text,
                number_given(default_num_or_formatting, num_or_formatting_or_context),
                formatting_given(
                    default_num_or_formatting,
                    num_or_formatting_or_context,
                    formatting_or_context,
                ),
                context_given(
                    default_num_or_formatting,
                    num_or_formatting_or_context,
                    formatting_or_context,
                    &self.context(),
                ),
                r,
            ),
    {
        let mut num: Option<i64> = None;
        let mut formatting: Option<&TextMap> = None;
        let mut context: &TextMap = &self.global_context;

        if let Some(default_num_or_formatting_val) = default_num_or_formatting {
            match default_num_or_formatting_val {
                NumOrFormatting::Formatting(default_formatting) => {
                    formatting = Some(default_formatting);

                    if let Some(num_or_formatting_or_context_val) = num_or_formatting_or_context {
                        if let NumOrFormatting::Formatting(default_context) =
                            num_or_formatting_or_context_val {
                            context = default_context;
                        }
                    }
                },
                NumOrFormatting::Number(default_num) => {
                    num = Some(*default_num);

                    if let Some(num_or_formatting_or_context_val) = num_or_formatting_or_context {
                        if let NumOrFormatting::Formatting(default_formatting) =
                            num_or_formatting_or_context_val {
                            formatting = Some(default_formatting);
                        }
                    }

                    if let Some(default_context) = formatting_or_context {
                        context = default_context;
                    }
                },
            }
        } else if let Some(num_or_formatting_or_context_val) = num_or_formatting_or_context {
            match num_or_formatting_or_context_val {
                NumOrFormatting::Number(default_num) => {
                    num = Some(*default_num);
                    formatting = formatting_or_context;
                },
                NumOrFormatting::Formatting(default_formatting) => {
                    formatting = Some(default_formatting);

                    if let Some(default_context) = formatting_or_context {
                        context = default_context;
                    }
                },
            }
        }

        return self.translate_text(text, num, formatting, context);
    }

    /// Translates `text` in `context`: with the table of the first context
    /// table that `context` satisfies, if it gives something for the phrase;
    /// else with the default table, if that gives something; else the
    /// phrase is rendered as its own translation.
    pub fn translate_text(
        &self,
        text: &str,
        num: Option<i64>,
        formatting: Option<&TextMap>,
        context: &TextMap,
    ) -> (r: String)
        ensures
            self.translates(text, num, formatting, context, r),
    {
        match &self.data {
            Some(data) => {
                let context_data = get_context_data(data, context);

                if let Some(context_data) = context_data {
                    if let Some(text_val) = self.find_translation(
                        text,
                        num,
                        formatting,
                        Some(&context_data.values),
                    ) {
                        return text_val;
                    }
                }

                if let Some(text_val) = self.find_translation(
                    text,
                    num,
                    formatting,
                    data.values.as_ref(),
                ) {
                    return text_val;
                }

                use_original_text(text, num, formatting)
            },
            None => use_original_text(text, num, formatting),
        }
    }

    /// What `table` gives for the phrase `text`: none where there is no
    /// table, the table has no entry for the phrase, or the entry is a list
    /// of plural ranges none of which `num` satisfies.
    pub fn find_translation(
        &self,
        text: &str,
        num: Option<i64>,
        formatting: Option<&TextMap>,
        data: Option<&Table>,
    ) -> (r: Option<String>)
        ensures
            self.finds(text, num, formatting, data, r),
    {
        let table = data?;
        let value = table.get(text)?;

        match value {
            Value::Single(template) => Some(apply_formatting(template.as_str(), formatting)),
            Value::Dictionary(dictionary) => match &self.extension {
                Some(extension) => {
                    proof {
                        use_type_invariant(self);
                    }
                    let answer = extension(text, num, formatting, Some(dictionary));
                    Some(render(answer.as_str(), num, formatting))
                },
                None => Some(use_original_text(text, num, formatting)),
            },
            Value::List(list) => {
                let ghost ranges = ranges_of(list@);
                let ghost holds = |i: int| range_matches(ranges[i].0, ranges[i].1, num);
                let mut i: usize = 0;
                while i < list.len()
                    invariant
                        i <= list.len(),
                        ranges == ranges_of(list@),
                        holds == |i: int| range_matches(ranges[i].0, ranges[i].1, num),
                        forall|j: int| 0 <= j < i ==> !#[trigger] holds(j),
                        data == Some(table),
                        table.values().contains_key(text@),
                        table.values()[text@] == Value::List(*list),
                    decreases list.len() - i,
                {
                    if in_range(list[i].0, list[i].1, num) {
                        proof {
                            assert(holds(i as int));
                            assert(is_first(ranges.len() as int, holds, i as int));
                            lemma_first_index_some(ranges.len() as int, holds, i as int);
                        }
                        return Some(render(list[i].2.as_str(), num, formatting));
                    }
                    assert(!holds(i as int));
                    i += 1;
                }
                proof {
                    lemma_first_index_none(ranges.len() as int, holds);
                }
                None
            },
        }
    }
}

impl<
    F: Fn(&str, Option<i64>, Option<&TextMap>, Option<&TextMap>) -> String + Copy,
> Clone for Translator<F> {
    fn clone(&self) -> (r: Translator<F>)
        ensures
            r.model() == self.model(),
            r.context().pairs() == self.context().pairs(),
            r.extension() == self.extension(),
    {
        proof {
            use_type_invariant(self);
        }
        Translator {
            data: match &self.data {
                Some(data) => Some(data.clone()),
                None => None,
            },
            global_context: self.global_context.clone(),
            extension: self.extension,
        }
    }
}

} // verus!
