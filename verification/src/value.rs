//! The entries of a translation table, and the second argument of the
//! translating call.

use crate::textmap::TextMap;
use vstd::prelude::*;

verus! {

/// One plural range: an optional lower bound, an optional upper bound, both
/// inclusive, and the template for the numbers between them.
pub type PluralRange = (Option<i64>, Option<i64>, String);

/// What a translation table holds for a key.
#[derive(Debug)]
pub enum Value {
    /// One template.
    Single(String),
    /// Plural ranges in the order in which they are tried.
    List(Vec<PluralRange>),
    /// Templates by category, for a pluralization extension to choose from.
    Dictionary(TextMap),
}

/// What an entry of a translation table says.
pub enum Entry {
    /// One template.
    Literal(Seq<char>),
    /// Plural ranges in the order in which they are tried.
    PluralRanges(Seq<(Option<i64>, Option<i64>, Seq<char>)>),
    /// Templates by category, in the order in which the categories were
    /// first bound.
    ExternalDictionary(Seq<(Seq<char>, Seq<char>)>),
}

/// What a sequence of plural ranges says.
pub open spec fn ranges_of(list: Seq<PluralRange>) -> Seq<(Option<i64>, Option<i64>, Seq<char>)> {
    list.map_values(|r: PluralRange| (r.0, r.1, r.2@))
}

impl View for Value {
    type V = Entry;

    open spec fn view(&self) -> Entry {
        match self {
            Value::Single(text) => Entry::Literal(text@),
            Value::List(list) => Entry::PluralRanges(ranges_of(list@)),
            Value::Dictionary(dictionary) => Entry::ExternalDictionary(dictionary.pairs()),
        }
    }
}

/// A copy of a list of plural ranges.
pub(crate) fn clone_ranges(list: &Vec<PluralRange>) -> (r: Vec<PluralRange>)
    ensures
        ranges_of(r@) == ranges_of(list@),
{
    let mut out: Vec<PluralRange> = Vec::new();
    let mut i: usize = 0;
    while i < list.len()
        invariant
            i <= list.len(),
            out@.len() == i,
            forall|j: int|
                0 <= j < i ==> (#[trigger] out@[j]).0 == list@[j].0 && out@[j].1 == list@[j].1
                    && out@[j].2@ == list@[j].2@,
        decreases list.len() - i,
    {
        out.push((list[i].0, list[i].1, list[i].2.clone()));
        i += 1;
    }
    assert(ranges_of(out@) =~= ranges_of(list@));
    out
}

impl Clone for Value {
    fn clone(&self) -> (r: Value)
        ensures
            r@ == self@,
    {
        match self {
            Value::Single(text) => Value::Single(text.clone()),
            Value::List(list) => Value::List(clone_ranges(list)),
            Value::Dictionary(dictionary) => Value::Dictionary(dictionary.clone()),
        }
    }
}

/// A number or a formatting: either may come first in a translating call.
#[derive(Debug)]
pub enum NumOrFormatting {
    /// The quantity that selects a plural form and replaces `%n`.
    Number(i64),
    /// Named values, or, in second place after a formatting, a context.
    Formatting(TextMap),
}

impl Clone for NumOrFormatting {
    fn clone(&self) -> (r: NumOrFormatting)
        ensures
            match (self, r) {
                (NumOrFormatting::Number(a), NumOrFormatting::Number(b)) => a == b,
                (NumOrFormatting::Formatting(a), NumOrFormatting::Formatting(b)) => a.pairs()
                    == b.pairs(),
                _ => false,
            },
    {
        match self {
            NumOrFormatting::Number(n) => NumOrFormatting::Number(*n),
            NumOrFormatting::Formatting(map) => NumOrFormatting::Formatting(map.clone()),
        }
    }
}

} // verus!
