//! How the service is set up.

use crate::number::{is_digit, is_row, law_decimal_states_the_number, row_value};
use crate::text::{chars_of, decimal};
use vstd::prelude::*;

verus! {

/// The port to listen on where none is asked for.
pub const DEFAULT_PORT: u16 = 3000;

/// The file of the cache where none is asked for.
pub const DEFAULT_CACHE_PATH: &'static str = "leaderboard-cache.sqlite3";

/// The name under which the service asks GitHub.
pub const USER_AGENT: &'static str = "rinha-leaderboard";

/// What kind of answer is asked for.
pub const ACCEPT: &'static str = "application/vnd.github+json";

/// The version of GitHub's interface that is asked for.
pub const API_VERSION: &'static str = "2022-11-28";

/// The digits of a numeral, which may have a plus sign before them.
pub open spec fn numeral(text: Seq<char>) -> Seq<char> {
    if text.len() > 0 && text[0] == '+' {
        text.skip(1)
    } else {
        text
    }
}

/// The port that a text states: a numeral that is not too great.
pub open spec fn stated_port(text: Seq<char>) -> Option<u16> {
    let digits = numeral(text);
    if digits.len() > 0 && (forall|i: int| 0 <= i < digits.len() ==> is_digit(#[trigger] digits[i]))
        && row_value(digits) <= u16::MAX {
        Some(row_value(digits) as u16)
    } else {
        None
    }
}

/// The port to listen on.
pub open spec fn port_of(setting: Option<Seq<char>>) -> u16 {
    match setting {
        Some(text) => match stated_port(text) {
            Some(port) => port,
            None => DEFAULT_PORT,
        },
        None => DEFAULT_PORT,
    }
}

proof fn lemma_row_grows(digits: Seq<char>, i: int)
    requires
        0 <= i <= digits.len(),
    ensures
        row_value(digits.take(i)) <= row_value(digits),
    decreases digits.len() - i,
{
    if i < digits.len() {
        assert(digits.take(i + 1).drop_last() =~= digits.take(i));
        lemma_row_grows(digits, i + 1);
    } else {
        assert(digits.take(i) =~= digits);
    }
}

/// Reads a port.
fn parse_port(text: &str) -> (port: Option<u16>)
    ensures
        port == stated_port(text@),
{
    let chars = chars_of(text);
    let from: usize = if chars.len() > 0 && chars[0] == '+' {
        1
    } else {
        0
    };
    let ghost digits = numeral(text@);
    assert(digits =~= chars@.skip(from as int));
    if from == chars.len() {
        return None;
    }
    let mut value: u32 = 0;
    let mut i: usize = from;
    assert(digits.take(0) =~= Seq::<char>::empty());
    while i < chars.len()
        invariant
            from <= i <= chars@.len(),
            digits == numeral(text@),
            digits == chars@.skip(from as int),
            value <= u16::MAX,
            value == row_value(digits.take(i - from)),
            forall|j: int| 0 <= j < i - from ==> is_digit(#[trigger] digits[j]),
        decreases chars@.len() - i,
    {
        let c = chars[i];
        proof {
            assert(digits[i - from] == c);
            assert(digits.take(i - from + 1).drop_last() =~= digits.take(i - from));
            lemma_row_grows(digits, i - from + 1);
        }
        if !('0' <= c && c <= '9') {
            return None;
        }
        value = value * 10 + (c as u32 - '0' as u32);
        i += 1;
        if value > 65_535 {
            return None;
        }
    }
    assert(digits.take(i - from) =~= digits);
    Some(value as u16)
}

/// The port to listen on, from the setting, where there is one.
pub fn listen_port(setting: Option<&str>) -> (port: u16)
    ensures
        port == port_of(
            match setting {
                Some(text) => Some(text@),
                None => None,
            },
        ),
{
    match setting {
        None => DEFAULT_PORT,
        Some(text) => match parse_port(text) {
            Some(port) => port,
            None => DEFAULT_PORT,
        },
    }
}

/// The value by which a token authorizes.
pub open spec fn authorized_by(token: Seq<char>) -> Seq<char> {
    "Bearer "@ + token
}

/// The token stands at the end of the value, whatever it is, and different tokens authorize
/// differently.
pub proof fn law_token_authorizes(token: Seq<char>, other: Seq<char>)
    ensures
        authorized_by(token).skip(7) == token,
        authorized_by(token).take(7) == seq!['B', 'e', 'a', 'r', 'e', 'r', ' '],
        authorized_by(token) == authorized_by(other) ==> token == other,
{
    reveal_strlit("Bearer ");
    assert(authorized_by(token).skip(7) =~= token);
    assert(authorized_by(other).skip(7) =~= other);
    assert(authorized_by(token).take(7) =~= seq!['B', 'e', 'a', 'r', 'e', 'r', ' ']);
}

/// How the service authorizes itself with a token.
pub fn authorization(token: &str) -> (value: String)
    ensures
        value@ == "Bearer "@ + token@,
        value@ == authorized_by(token@),
{
    let mut value = String::new();
    value.append("Bearer ");
    value.append(token);
    assert(value@ =~= "Bearer "@ + token@);
    value
}

/// The file of the cache, from the setting, where there is one.
pub fn cache_path(setting: Option<String>) -> (path: String)
    ensures
        path@ == match setting {
            Some(path) => path@,
            None => DEFAULT_CACHE_PATH@,
        },
{
    match setting {
        Some(path) => path,
        None => DEFAULT_CACHE_PATH.to_owned(),
    }
}

/// A row of digits states the port that it makes up, where that is one, and so it does with
/// a plus sign before it. What is too great, and what is no row of digits, states none: the
/// port is the usual one then, as it is where nothing is set.
pub proof fn law_port_is_the_number_stated(row: Seq<char>, other: Seq<char>, i: int)
    requires
        is_row(row),
        row.len() > 0,
        other.len() == 0 || other == seq!['+'] || (0 <= i < other.len() && !is_digit(other[i]) && (i
            > 0 || other[0] != '+')),
    ensures
        row_value(row) <= 65535 ==> port_of(Some(row)) == row_value(row) && port_of(
            Some(seq!['+'] + row),
        ) == row_value(row),
        row_value(row) > 65535 ==> port_of(Some(row)) == 3000 && port_of(Some(seq!['+'] + row))
            == 3000,
        port_of(Some(other)) == 3000,
        port_of(None) == 3000,
{
    assert(is_digit(row[0]));
    assert(numeral(row) == row);
    let plus = seq!['+'] + row;
    assert(numeral(plus) =~= row);
    let digits = numeral(other);
    if other.len() > 0 && other != seq!['+'] {
        if other[0] == '+' {
            assert(digits[i - 1] == other[i]);
        } else {
            assert(digits[i] == other[i]);
        }
    }
}

/// Every port is stated by its own number.
pub proof fn law_every_port_can_be_stated(port: u16)
    ensures
        port_of(Some(decimal(port as nat))) == port,
{
    law_decimal_states_the_number(port as nat);
    law_port_is_the_number_stated(decimal(port as nat), Seq::empty(), 0);
}

} // verus!
