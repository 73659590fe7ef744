//! Checks of command line values.

use crate::decimal;
use crate::multiplier::Multiplier;
use vstd::prelude::*;

verus! {

/// The digits of a number that may be written with a plus sign.
pub open spec fn without_plus(text: Seq<char>) -> Seq<char> {
    if text.len() > 0 && text[0] == '+' {
        text.skip(1)
    } else {
        text
    }
}

/// Whether `text` is a whole number of at most `max`: an optional plus sign, then one or more
/// decimal digits.
pub open spec fn is_number(text: Seq<char>, max: usize) -> bool {
    let digits = without_plus(text);
    &&& digits.len() > 0
    &&& decimal::all_digits(digits)
    &&& decimal::digits_value(digits) <= max
}

/// The number that `text` stands for.
pub open spec fn number_value(text: Seq<char>) -> nat {
    decimal::digits_value(without_plus(text))
}

/// The message with which `str::parse` refuses a text that is no whole number of at most `max`.
pub uninterp spec fn number_error(text: Seq<char>, max: usize) -> Seq<char>;

/// Reads a number with `str::parse::<usize>`, which takes an optional plus sign and decimal
/// digits and nothing else, and refuses what is too large. The message of a refusal depends
/// on the text and the largest `usize` alone and is named `number_error`.
#[verifier::external_body]
fn parse_usize(s: &str) -> (number: Result<usize, String>)
    ensures
        match number {
            Ok(v) => is_number(s@, usize::MAX) && v == number_value(s@),
            Err(message) => !is_number(s@, usize::MAX) && message@ == number_error(s@, usize::MAX),
        },
{
    s.parse::<usize>().map_err(|e| e.to_string())
}

/// Refuses zero.
pub fn require_non_zero(number: Result<usize, String>) -> (checked: Result<usize, String>)
    ensures
        match number {
            Ok(v) if v == 0 => checked is Err && checked->Err_0@ == "must be greater than 0"@,
            _ => checked == number,
        },
{
    match number {
        Ok(v) => if v == 0 {
            Err("must be greater than 0".to_owned())
        } else {
            Ok(v)
        },
        Err(message) => Err(message),
    }
}

/// A number greater than zero, or the message with which the text is refused.
pub fn parse_non_zero_usize(s: &str) -> (number: Result<usize, String>)
    ensures
        match number {
            Ok(v) => is_number(s@, usize::MAX) && v == number_value(s@) && v > 0,
            Err(message) => if is_number(s@, usize::MAX) {
                number_value(s@) == 0 && message@ == "must be greater than 0"@
            } else {
                message@ == number_error(s@, usize::MAX)
            },
        },
{
    require_non_zero(parse_usize(s))
}

/// A number in decimal notation is read as that number.
pub proof fn law_reads_what_is_written(n: usize)
    ensures
        is_number(decimal::decimal(n as nat), usize::MAX),
        number_value(decimal::decimal(n as nat)) == n,
{
    decimal::law_decimal_has_its_value(n as nat);
}

/// Refuses numbers of zero or less. What is not a number passes.
pub fn require_positive(multiplier: Multiplier) -> (checked: Result<Multiplier, String>)
    ensures
        match checked {
            Ok(m) => m == multiplier && !multiplier.is_at_most_zero(),
            Err(message) => multiplier.is_at_most_zero() && message@ == "must be greater than 0"@,
        },
{
    if multiplier.at_most_zero() {
        Err("must be greater than 0".to_owned())
    } else {
        Ok(multiplier)
    }
}

/// A plus sign before a number changes nothing, and a second one is refused.
pub proof fn law_one_plus_sign_changes_nothing(text: Seq<char>, max: usize)
    ensures
        (text.len() == 0 || text[0] != '+') ==> {
            &&& is_number(seq!['+'] + text, max) == is_number(text, max)
            &&& number_value(seq!['+'] + text) == number_value(text)
        },
        text.len() > 0 && text[0] == '+' ==> !is_number(seq!['+'] + text, max),
{
    assert((seq!['+'] + text).skip(1) =~= text);
}

/// What is read as a number has a digit and, after an optional plus sign, nothing but digits, and
/// the number is no larger than the largest that is accepted.
pub proof fn law_numbers_are_digits(text: Seq<char>, max: usize)
    requires
        is_number(text, max),
    ensures
        text.len() > 0,
        '0' <= text.last() <= '9',
        forall|i: int|
            0 <= i < text.len() ==> ('0' <= #[trigger] text[i] <= '9' || (i == 0 && text[i] == '+')),
        number_value(text) <= max,
{
    if text[0] == '+' {
        assert forall|i: int| 1 <= i < text.len() implies '0' <= #[trigger] text[i] <= '9' by {
            assert(text.skip(1)[i - 1] == text[i]);
        }
        assert(text.len() > 1);
    }
}

/// Digits alone are a number, as long as it is no larger than the largest that is accepted, and it
/// is the one that the digits stand for.
pub proof fn law_digits_are_numbers(text: Seq<char>, max: usize)
    requires
        text.len() > 0,
        forall|i: int| 0 <= i < text.len() ==> '0' <= #[trigger] text[i] <= '9',
    ensures
        is_number(text, max) <==> decimal::digits_value(text) <= max,
        number_value(text) == decimal::digits_value(text),
{
    assert('0' <= text[0] <= '9');
}

} // verus!
