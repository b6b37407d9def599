//! How numbers are shown.

use crate::double::{nearest_even, one, two_places, Double};
use crate::number::{
    digit_value, is_digit, is_row, law_decimal_states_the_number, row_value,
};
use crate::text::{decimal, digit_char};
use vstd::arithmetic::div_mod::{lemma_fundamental_div_mod, lemma_fundamental_div_mod_converse};
use vstd::arithmetic::power2::lemma_pow2_pos;
use vstd::prelude::*;

verus! {

/// A p99 as it is shown: in milliseconds with two places, or a dash where there is none.
pub open spec fn p99_text(value: Option<Double>) -> Seq<char> {
    match value {
        Some(value) => value.two_place_text() + "ms"@,
        None => "-"@,
    }
}

/// A number as it is shown: without places where it is whole, else with two.
pub open spec fn number_text(value: Double) -> Seq<char> {
    if value.is_whole() {
        value.whole_text()
    } else {
        value.two_place_text()
    }
}

/// A number as it is shown, or a dash where there is none.
pub open spec fn optional_number_text(value: Option<Double>) -> Seq<char> {
    match value {
        Some(value) => number_text(value),
        None => "-"@,
    }
}

/// Shows a p99.
pub fn format_p99(value: Option<Double>) -> (text: String)
    ensures
        text@ == p99_text(value),
{
    match value {
        Some(value) => {
            let mut text = value.two_place_string();
            text.append("ms");
            text
        },
        None => "-".to_owned(),
    }
}

/// Shows a number.
pub fn format_number(value: Double) -> (text: String)
    ensures
        text@ == number_text(value),
{
    if value.whole() {
        value.whole_string()
    } else {
        value.two_place_string()
    }
}

/// Shows a number, or a dash where there is none.
pub fn format_optional_number(value: Option<Double>) -> (text: String)
    ensures
        text@ == optional_number_text(value),
{
    match value {
        Some(value) => format_number(value),
        None => "-".to_owned(),
    }
}

/// The text is the number of hundredths `n`, written with a point before the last two digits.
pub open spec fn shows_hundredths(text: Seq<char>, n: nat) -> bool {
    &&& text.len() >= 4
    &&& text[text.len() - 3] == '.'
    &&& is_row(text.take(text.len() - 3) + text.skip(text.len() - 2))
    &&& row_value(text.take(text.len() - 3) + text.skip(text.len() - 2)) == n
    &&& text.len() > 4 ==> text[0] != '0'
}

/// `n` hundredths are as near to the number as any, and an even number of them where two are
/// equally near.
pub open spec fn nearest_hundredths(number: Double, n: nat) -> bool {
    let distance = 2 * (100 * number.size() - n * one());
    &&& -one() <= distance <= one()
    &&& distance == one() || distance == -one() ==> n % 2 == 0
}

proof fn lemma_two_places(n: nat)
    ensures
        shows_hundredths(two_places(n), n),
{
    let text = two_places(n);
    let whole = decimal(n / 100);
    law_decimal_states_the_number(n / 100);
    let (a, b) = (digit_char((n / 10) % 10), digit_char(n % 10));
    let digits = text.take(text.len() - 3) + text.skip(text.len() - 2);
    assert(digits =~= whole.push(a).push(b));
    assert(whole.push(a).push(b).drop_last() =~= whole.push(a));
    assert(whole.push(a).drop_last() =~= whole);
    assert(row_value(whole.push(a)) == 10 * row_value(whole) + digit_value(a));
    assert(digit_value(a) == (n / 10) % 10 && digit_value(b) == n % 10);
    assert(n / 10 == 10 * (n / 100) + (n / 10) % 10);
    assert forall|i: int| 0 <= i < digits.len() implies is_digit(#[trigger] digits[i]) by {
        if i < whole.len() {
            assert(digits[i] == whole[i]);
        }
    }
    assert(text[0] == whole[0]);
}

/// A finite number is shown with two places, as the nearest number of hundredths, with a
/// minus sign just where it has one. The other numbers are shown by their names.
pub proof fn law_two_places_are_nearest(number: Double) -> (n: nat)
    ensures
        number.is_finite() ==> nearest_hundredths(number, n) && if number.negative() {
            number.two_place_text()[0] == '-' && shows_hundredths(
                number.two_place_text().skip(1),
                n,
            )
        } else {
            shows_hundredths(number.two_place_text(), n)
        },
        number.is_nan() ==> number.two_place_text() == "NaN"@,
        number.is_infinite() && number.negative() ==> number.two_place_text() == "-inf"@,
        number.is_infinite() && !number.negative() ==> number.two_place_text() == "inf"@,
{
    reveal_strlit("-");
    reveal_strlit("");
    reveal_strlit("inf");
    reveal_strlit("-inf");
    lemma_pow2_pos(1074);
    let (p, q) = (number.size() * 100, one());
    let n = nearest_even(p, q);
    lemma_fundamental_div_mod(p as int, q as int);
    let (below, rest) = (p / q, p % q);
    assert(q * below == below * q) by (nonlinear_arith);
    assert((below + 1) * q == below * q + q) by (nonlinear_arith);
    lemma_two_places(n);
    let text = number.two_place_text();
    if number.is_infinite() {
        assert("-"@ + "inf"@ =~= "-inf"@);
        assert(""@ + "inf"@ =~= "inf"@);
    } else if !number.is_nan() {
        if number.negative() {
            assert(text.skip(1) =~= two_places(n));
        } else {
            assert(text =~= two_places(n));
        }
    }
    n
}

/// A number is whole where it is a finite multiple of one; it is shown then as that multiple
/// in decimal, without a point, and with two places in every other case.
pub proof fn law_whole_numbers_have_no_places(number: Double, n: nat)
    ensures
        number.is_finite() && number.size() == n * one() ==> number.is_whole() && number_text(
            number,
        ) == (if number.negative() {
            "-"@ + decimal(n)
        } else {
            decimal(n)
        }),
        !number.is_finite() || number.size() % one() != 0 ==> number_text(number)
            == number.two_place_text(),
        number.is_whole() ==> number.is_finite() && number.size() == (number.size() / one())
            * one(),
{
    reveal_strlit("");
    lemma_pow2_pos(1074);
    let q = one();
    lemma_fundamental_div_mod(number.size() as int, q as int);
    assert(q * (number.size() / q) == (number.size() / q) * q) by (nonlinear_arith);
    if number.size() == n * q {
        lemma_fundamental_div_mod_converse(number.size() as int, q as int, n as int, 0);
        assert(""@ + decimal(n) =~= decimal(n));
    }
}

/// A number that is there is shown, and a dash stands for one that is not; a p99 has its
/// unit after it.
pub proof fn law_missing_numbers_are_dashes(number: Double)
    ensures
        p99_text(None) == "-"@,
        optional_number_text(None) == "-"@,
        optional_number_text(Some(number)) == number_text(number),
        p99_text(Some(number)) == number.two_place_text() + "ms"@,
{
}

} // verus!
