//! Decimal notation of integers.

use vstd::prelude::*;

verus! {

/// The character that writes the digit `d`.
pub open spec fn digit(d: int) -> char {
    if d == 0 {
        '0'
    } else if d == 1 {
        '1'
    } else if d == 2 {
        '2'
    } else if d == 3 {
        '3'
    } else if d == 4 {
        '4'
    } else if d == 5 {
        '5'
    } else if d == 6 {
        '6'
    } else if d == 7 {
        '7'
    } else if d == 8 {
        '8'
    } else {
        '9'
    }
}

/// The decimal digits of a natural number, most significant first, without
/// leading zeros; zero is written `0`.
pub open spec fn digits(n: nat) -> Seq<char>
    decreases n,
{
    if n < 10 {
        seq![digit(n as int)]
    } else {
        digits(n / 10).push(digit((n % 10) as int))
    }
}

/// The decimal notation of an integer: its digits, after a minus sign where
/// it is negative.
pub open spec fn decimal(n: int) -> Seq<char> {
    if n < 0 {
        seq!['-'] + digits((-n) as nat)
    } else {
        digits(n as nat)
    }
}

/// Whether `c` is a character of decimal notation: a digit or the minus sign.
pub open spec fn is_decimal_char(c: char) -> bool {
    c == '-' || exists|d: int| 0 <= d <= 9 && c == digit(d)
}

/// Decimal notation is never empty and holds digits and the minus sign only.
pub proof fn lemma_digits_shape(n: nat)
    ensures
        digits(n).len() > 0,
        forall|i: int| 0 <= i < digits(n).len() ==> is_decimal_char(#[trigger] digits(n)[i]),
    decreases n,
{
    if n < 10 {
        assert(is_decimal_char(digit(n as int)));
    } else {
        lemma_digits_shape(n / 10);
        assert(is_decimal_char(digit((n % 10) as int)));
    }
}

/// Decimal notation is never empty and holds digits and the minus sign only.
pub proof fn lemma_decimal_shape(n: int)
    ensures
        decimal(n).len() > 0,
        forall|i: int| 0 <= i < decimal(n).len() ==> is_decimal_char(#[trigger] decimal(n)[i]),
{
    if n < 0 {
        lemma_digits_shape((-n) as nat);
    } else {
        lemma_digits_shape(n as nat);
    }
}

fn digit_char(d: u64) -> (c: char)
    requires
        d <= 9,
    ensures
        c == digit(d as int),
{
    if d == 0 {
        '0'
    } else if d == 1 {
        '1'
    } else if d == 2 {
        '2'
    } else if d == 3 {
        '3'
    } else if d == 4 {
        '4'
    } else if d == 5 {
        '5'
    } else if d == 6 {
        '6'
    } else if d == 7 {
        '7'
    } else if d == 8 {
        '8'
    } else {
        '9'
    }
}

/// Appends the decimal digits of `n` to `out`.
pub(crate) fn push_digits(out: &mut Vec<char>, n: u64)
    ensures
        final(out)@ == old(out)@ + digits(n as nat),
    decreases n,
{
    if n < 10 {
        out.push(digit_char(n));
        assert(out@ =~= old(out)@ + digits(n as nat));
    } else {
        push_digits(out, n / 10);
        out.push(digit_char(n % 10));
        assert(out@ =~= old(out)@ + digits(n as nat));
    }
}

/// The distance of `n` from zero.
pub fn magnitude(n: i64) -> (m: u64)
    ensures
        m == (if n < 0 {
            -n
        } else {
            n as int
        }),
{
    if n >= 0 {
        n as u64
    } else {
        let above: i64 = n + 1;
        let below: i64 = -above;
        below as u64 + 1
    }
}

/// The decimal notation of `n`.
pub fn decimal_of(n: i64) -> (r: Vec<char>)
    ensures
        r@ == decimal(n as int),
{
    let mut out: Vec<char> = Vec::new();
    if n < 0 {
        out.push('-');
    }
    push_digits(&mut out, magnitude(n));
    assert(out@ =~= decimal(n as int));
    out
}

/// The decimal notation of the negation of `n`, which need not fit the type
/// of `n`.
pub fn decimal_of_negated(n: i64) -> (r: Vec<char>)
    ensures
        r@ == decimal(-(n as int)),
{
    let mut out: Vec<char> = Vec::new();
    if n > 0 {
        out.push('-');
    }
    push_digits(&mut out, magnitude(n));
    assert(out@ =~= decimal(-(n as int)));
    out
}

} // verus!
