//! Rendering a template: the number in place of `%n`, named values in place
//! of `%{name}`.

use crate::decimal::{decimal, decimal_of, decimal_of_negated};
use crate::text::{from_chars, replace, replace_all, to_chars};
use crate::textmap::TextMap;
use vstd::prelude::*;

verus! {

/// The token `%n`, which stands for the number.
pub open spec fn number_token() -> Seq<char> {
    seq!['%', 'n']
}

/// The token `-%n`, which stands for the negated number.
pub open spec fn negated_token() -> Seq<char> {
    seq!['-', '%', 'n']
}

/// The token `%{name}`, which stands for the value called `name`.
pub open spec fn named_token(name: Seq<char>) -> Seq<char> {
    seq!['%', '{'] + name + seq!['}']
}

/// `template` with the number `n` put in: first every `-%n` becomes the
/// decimal notation of `-n`, then every `%n` that is left becomes that of
/// `n`.
pub open spec fn with_numbers(template: Seq<char>, n: int) -> Seq<char> {
    replace_all(
        replace_all(template, negated_token(), decimal(-n)),
        number_token(),
        decimal(n),
    )
}

/// `text` with the named values put in, one name after another in the order
/// of `pairs`: every `%{name}` becomes the value paired with `name`.
pub open spec fn formatted(text: Seq<char>, pairs: Seq<(Seq<char>, Seq<char>)>) -> Seq<char>
    decreases pairs.len(),
{
    if pairs.len() == 0 {
        text
    } else {
        replace_all(
            formatted(text, pairs.drop_last()),
            named_token(pairs.last().0),
            pairs.last().1,
        )
    }
}

/// The named values of an optional formatting, in order; none where there
/// is no formatting.
pub open spec fn formatting_pairs(formatting: Option<&TextMap>) -> Seq<(Seq<char>, Seq<char>)> {
    match formatting {
        Some(map) => map.pairs(),
        None => Seq::empty(),
    }
}

/// The number that stands for an optional one in a template: zero where
/// there is none.
pub open spec fn number_or_zero(num: Option<i64>) -> int {
    match num {
        Some(n) => n as int,
        None => 0,
    }
}

/// A phrase rendered as its own translation: the number is put in, where
/// there is one, as into any template, and then the named values. Without
/// a number the tokens for it stay as they are.
pub open spec fn original_text(
    text: Seq<char>,
    num: Option<i64>,
    pairs: Seq<(Seq<char>, Seq<char>)>,
) -> Seq<char> {
    formatted(
        match num {
            Some(n) => with_numbers(text, n as int),
            None => text,
        },
        pairs,
    )
}

/// A template of a table rendered: the number put in, zero where there is
/// none, and then the named values.
pub open spec fn rendered(
    template: Seq<char>,
    num: Option<i64>,
    pairs: Seq<(Seq<char>, Seq<char>)>,
) -> Seq<char> {
    formatted(with_numbers(template, number_or_zero(num)), pairs)
}

fn number_token_chars() -> (r: Vec<char>)
    ensures
        r@ == number_token(),
{
    let mut r: Vec<char> = Vec::new();
    r.push('%');
    r.push('n');
    assert(r@ =~= number_token());
    r
}

fn negated_token_chars() -> (r: Vec<char>)
    ensures
        r@ == negated_token(),
{
    let mut r: Vec<char> = Vec::new();
    r.push('-');
    r.push('%');
    r.push('n');
    assert(r@ =~= negated_token());
    r
}

fn named_token_chars(name: &str) -> (r: Vec<char>)
    ensures
        r@ == named_token(name@),
{
    let mut r: Vec<char> = Vec::new();
    r.push('%');
    r.push('{');
    let mut inner = to_chars(name);
    r.append(&mut inner);
    r.push('}');
    assert(r@ =~= named_token(name@));
    r
}

/// `template` with the number put in.
pub(crate) fn numbers_in(template: &Vec<char>, num: i64) -> (r: Vec<char>)
    ensures
        r@ == with_numbers(template@, num as int),
{
    let negated = replace(template, &negated_token_chars(), &decimal_of_negated(num));
    replace(&negated, &number_token_chars(), &decimal_of(num))
}

/// `text` with the named values of `formatting` put in.
pub(crate) fn formatting_in(text: Vec<char>, formatting: Option<&TextMap>) -> (r: Vec<char>)
    ensures
        r@ == formatted(text@, formatting_pairs(formatting)),
{
    let mut out = text;
    if let Some(map) = formatting {
        let ghost pairs = map.pairs();
        let mut i: usize = 0;
        assert(pairs.take(0) =~= Seq::empty());
        while i < map.len()
            invariant
                i <= pairs.len(),
                pairs == map.pairs(),
                out@ == formatted(text@, pairs.take(i as int)),
            decreases pairs.len() - i,
        {
            if let Some((name, value)) = map.pair_at(i) {
                proof {
                    let next = pairs.take(i + 1);
                    assert(next.drop_last() =~= pairs.take(i as int));
                    assert(next.last() == pairs[i as int]);
                }
                out = replace(&out, &named_token_chars(name.as_str()), &to_chars(value.as_str()));
            }
            i += 1;
        }
        assert(pairs.take(i as int) =~= pairs);
    }
    out
}

/// Puts the number into a template: every `-%n` becomes the decimal notation
/// of the negated number, then every `%n` that is left becomes that of the
/// number.
pub fn apply_numbers(text: &str, num: i64) -> (r: String)
    ensures
        r@ == with_numbers(text@, num as int),
{
    from_chars(&numbers_in(&to_chars(text), num))
}

/// Puts the named values into a text: for each name of the formatting in
/// turn, every `%{name}` becomes the value of that name. Without a
/// formatting the text stays as it is.
pub fn apply_formatting(text: &str, formatting: Option<&TextMap>) -> (r: String)
    ensures
        r@ == formatted(text@, formatting_pairs(formatting)),
{
    from_chars(&formatting_in(to_chars(text), formatting))
}

/// Renders a phrase as its own translation: the number is put in, where
/// there is one, as into any template, and then the named values. Without
/// a number the tokens for it stay as they are.
pub fn use_original_text(text: &str, num: Option<i64>, formatting: Option<&TextMap>) -> (r:
    String)
    ensures
        r@ == original_text(text@, num, formatting_pairs(formatting)),
{
    let chars = to_chars(text);
    match num {
        Some(n) => {
            from_chars(&formatting_in(numbers_in(&chars, n), formatting))
        },
        None => from_chars(&formatting_in(chars, formatting)),
    }
}

/// Renders a template of a table: the number is put in, zero where there is
/// none, and then the named values.
pub fn render(template: &str, num: Option<i64>, formatting: Option<&TextMap>) -> (r: String)
    ensures
        r@ == rendered(template@, num, formatting_pairs(formatting)),
{
    let n: i64 = match num {
        Some(n) => n,
        None => 0,
    };
    from_chars(&formatting_in(numbers_in(&to_chars(template), n), formatting))
}

} // verus!
