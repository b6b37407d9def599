//! Reading a double-precision number from text.
//!
//! A number is written with an optional sign, digits with an optional point among
//! them, and an optional exponent. The words `inf`, `infinity` and `nan` are numbers
//! too, in any mixture of upper and lower case.

use crate::digits::{
    canonical, digits_of, digits_value, lemma_value_bounds, lemma_weight_adds, lemma_weight_grows,
    shifted, strip_zeros, weight,
};
use crate::double::{one, size_of_magnitude, Double};
use crate::nearest::{
    is_nearest, lemma_nearest_unique, lemma_reaches_infinity, nearest_magnitude, nearest_of_ratio,
};
use crate::text::{chars_of, decimal, digit_char, signed_decimal};
use vstd::arithmetic::power2::{
    lemma2_to64, lemma_pow2_adds, lemma_pow2_pos, lemma_pow2_strictly_increases, lemma_pow2_unfold,
    pow2,
};
use vstd::prelude::*;

verus! {

/// `c` is a decimal digit.
pub open spec fn is_digit(c: char) -> bool {
    '0' <= c <= '9'
}

/// The value of a decimal digit.
pub open spec fn digit_value(c: char) -> nat {
    (c as int - '0' as int) as nat
}

/// How many digits `s` begins with.
pub open spec fn run(s: Seq<char>) -> nat
    decreases s.len(),
{
    if s.len() > 0 && is_digit(s[0]) {
        1 + run(s.skip(1))
    } else {
        0
    }
}

/// The number that a row of digits makes up.
pub open spec fn row_value(s: Seq<char>) -> nat
    decreases s.len(),
{
    if s.len() == 0 {
        0
    } else {
        10 * row_value(s.drop_last()) + digit_value(s.last())
    }
}

/// Whether `s` begins with a minus sign, and what follows the sign, if there is one.
pub open spec fn signed(s: Seq<char>) -> (bool, Seq<char>) {
    if s.len() > 0 && s[0] == '-' {
        (true, s.skip(1))
    } else if s.len() > 0 && s[0] == '+' {
        (false, s.skip(1))
    } else {
        (false, s)
    }
}

/// `s` spells the word, each letter in either case.
pub open spec fn spells(s: Seq<char>, lower: Seq<char>, upper: Seq<char>) -> bool {
    &&& s.len() == lower.len() == upper.len()
    &&& forall|i: int| 0 <= i < s.len() ==> s[i] == lower[i] || #[trigger] s[i] == upper[i]
}

/// The exponent that `s` states: none is zero.
pub open spec fn exponent_of(s: Seq<char>) -> Option<int> {
    if s.len() == 0 {
        Some(0)
    } else if s[0] == 'e' || s[0] == 'E' {
        let (negative, row) = signed(s.skip(1));
        if row.len() > 0 && run(row) == row.len() {
            Some(
                if negative {
                    -(row_value(row) as int)
                } else {
                    row_value(row) as int
                },
            )
        } else {
            None
        }
    } else {
        None
    }
}

/// The digits after the point at the start of `s`, if there is one, and what follows.
pub open spec fn fraction_of(s: Seq<char>) -> (Seq<char>, Seq<char>) {
    if s.len() > 0 && s[0] == '.' {
        let digits = run(s.skip(1));
        (s.skip(1).take(digits as int), s.skip(1).skip(digits as int))
    } else {
        (Seq::empty(), s)
    }
}

/// The digits of a number without a sign, and the power of ten that they are to be
/// multiplied by.
pub open spec fn decimal_parts(s: Seq<char>) -> Option<(Seq<char>, int)> {
    let whole = s.take(run(s) as int);
    let (fraction, tail) = fraction_of(s.skip(run(s) as int));
    match exponent_of(tail) {
        Some(exponent) if whole.len() + fraction.len() > 0 => Some(
            (whole + fraction, exponent - fraction.len()),
        ),
        _ => None,
    }
}

/// `digits` times ten to the power `exponent` is a ratio; this is its upper part.
pub open spec fn upper_part(digits: nat, exponent: int) -> nat {
    if exponent > 0 {
        digits * weight(exponent as nat)
    } else {
        digits
    }
}

/// The lower part of the same ratio.
pub open spec fn lower_part(exponent: int) -> nat {
    if exponent < 0 {
        weight((-exponent) as nat)
    } else {
        1
    }
}

/// The magnitude of the double nearest to `digits` times ten to the power `exponent`.
pub open spec fn scaled_magnitude(digits: nat, exponent: int) -> nat {
    nearest_magnitude(upper_part(digits, exponent), lower_part(exponent))
}

/// The magnitude of what is written without a sign.
pub open spec fn written_magnitude(s: Seq<char>) -> Option<nat> {
    if spells(s, "inf"@, "INF"@) || spells(s, "infinity"@, "INFINITY"@) {
        Some(0x7ff0_0000_0000_0000)
    } else if spells(s, "nan"@, "NAN"@) {
        Some(0x7ff8_0000_0000_0000)
    } else {
        match decimal_parts(s) {
            Some((digits, exponent)) => Some(scaled_magnitude(row_value(digits), exponent)),
            None => None,
        }
    }
}

/// The number that `s` states.
pub open spec fn number_of(s: Seq<char>) -> Option<Double> {
    let (negative, rest) = signed(s);
    match written_magnitude(rest) {
        Some(magnitude) => Some(
            Double {
                bits: if negative {
                    (0x8000_0000_0000_0000 + magnitude) as u64
                } else {
                    magnitude as u64
                },
            },
        ),
        None => None,
    }
}

fn digit(c: char) -> (b: bool)
    ensures
        b == is_digit(c),
{
    '0' <= c && c <= '9'
}

/// Where the run of digits that begins at `from` stops.
fn run_end(chars: &Vec<char>, from: usize) -> (end: usize)
    requires
        from <= chars@.len(),
    ensures
        from <= end <= chars@.len(),
        run(chars@.skip(from as int)) == end - from,
        forall|i: int| from <= i < end ==> is_digit(chars@[i]),
{
    let mut end: usize = from;
    while end < chars.len() && digit(chars[end])
        invariant
            from <= end <= chars@.len(),
            run(chars@.skip(from as int)) == (end - from) + run(chars@.skip(end as int)),
            forall|i: int| from <= i < end ==> is_digit(chars@[i]),
        decreases chars@.len() - end,
    {
        assert(chars@.skip(end as int).skip(1) =~= chars@.skip(end + 1));
        end += 1;
    }
    end
}

/// Whether what follows `from` spells the word.
fn spelled(chars: &Vec<char>, from: usize, lower: &str, upper: &str) -> (b: bool)
    requires
        from <= chars@.len(),
    ensures
        b == spells(chars@.skip(from as int), lower@, upper@),
{
    let small = chars_of(lower);
    let great = chars_of(upper);
    let size: usize = chars.len() - from;
    if size != small.len() || size != great.len() {
        return false;
    }
    let mut i: usize = 0;
    while i < size
        invariant
            size == small@.len() == great@.len() == chars@.len() - from,
            small@ == lower@,
            great@ == upper@,
            i <= size,
            from + size <= usize::MAX,
            forall|j: int|
                0 <= j < i ==> chars@[from + j] == small@[j] || chars@[from + j] == great@[j],
        decreases size - i,
    {
        if chars[from + i] != small[i] && chars[from + i] != great[i] {
            assert(chars@.skip(from as int)[i as int] == chars@[from + i]);
            return false;
        }
        i += 1;
    }
    true
}

/// Beyond this size an exponent is not told from a greater one.
const FAR: i128 = 1_000_000_000_000_000_000_000_000_000_000;

/// `near` is `exact`, or both lie beyond `limit` on the same side.
spec fn stands_for(near: i128, exact: int, limit: int) -> bool {
    near == exact || (near >= limit && exact >= limit) || (near <= -limit && exact <= -limit)
}

/// The exponent that is stated from `from` on.
fn stated_exponent(chars: &Vec<char>, from: usize) -> (exponent: Option<i128>)
    requires
        from <= chars@.len(),
    ensures
        match exponent_of(chars@.skip(from as int)) {
            Some(exact) => exponent matches Some(near) && stands_for(near, exact, FAR as int) && -10 * FAR - 9
                <= near <= 10 * FAR + 9,
            None => exponent is None,
        },
{
    let ghost s = chars@.skip(from as int);
    if from == chars.len() {
        return Some(0);
    }
    if chars[from] != 'e' && chars[from] != 'E' {
        return None;
    }
    let mut first: usize = from + 1;
    let mut negative: bool = false;
    if first < chars.len() && chars[first] == '-' {
        negative = true;
        first += 1;
    } else if first < chars.len() && chars[first] == '+' {
        first += 1;
    }
    let ghost row = signed(s.skip(1)).1;
    assert(s.skip(1) =~= chars@.skip(from + 1));
    assert(row =~= chars@.skip(first as int));
    let end: usize = run_end(chars, first);
    if first == chars.len() || end != chars.len() {
        return None;
    }
    let mut size: i128 = 0;
    let mut i: usize = first;
    assert(row.take(0) =~= Seq::<char>::empty());
    while i < chars.len()
        invariant
            first <= i <= chars@.len(),
            row == chars@.skip(first as int),
            forall|j: int| first <= j < chars@.len() ==> is_digit(chars@[j]),
            0 <= size <= 10 * FAR + 9,
            size == row_value(row.take(i - first)) || (size >= FAR && row_value(row.take(i - first))
                >= FAR),
        decreases chars@.len() - i,
    {
        let d: i128 = (chars[i] as u32 - '0' as u32) as i128;
        proof {
            let next = row.take(i + 1 - first);
            assert(next.drop_last() =~= row.take(i - first));
            assert(next.last() == chars@[i as int]);
        }
        if size < FAR {
            size = 10 * size + d;
        }
        i += 1;
    }
    assert(row.take(i - first) =~= row);
    Some(
        if negative {
            -size
        } else {
            size
        },
    )
}

/// The digits that stand from `from` to `middle` and from `point` to `to`, as a number.
fn collected(chars: &Vec<char>, from: usize, middle: usize, point: usize, to: usize) -> (digits: Vec<
    u8,
>)
    requires
        from <= middle <= chars@.len(),
        point <= to <= chars@.len(),
        middle - from + to - point > 0,
        forall|i: int| from <= i < middle ==> is_digit(chars@[i]),
        forall|i: int| point <= i < to ==> is_digit(chars@[i]),
    ensures
        canonical(digits@),
        digits_value(digits@) == row_value(
            chars@.subrange(from as int, middle as int) + chars@.subrange(point as int, to as int),
        ),
{
    let ghost whole = chars@.subrange(from as int, middle as int);
    let ghost fraction = chars@.subrange(point as int, to as int);
    let ghost row = whole + fraction;
    let mut digits: Vec<u8> = Vec::new();
    let mut i: usize = to;
    while i > point
        invariant
            point <= i <= to <= chars@.len(),
            forall|j: int| point <= j < to ==> is_digit(chars@[j]),
            fraction == chars@.subrange(point as int, to as int),
            row == whole + fraction,
            digits@.len() == to - i,
            forall|j: int|
                0 <= j < digits@.len() ==> #[trigger] digits@[j] as nat == digit_value(
                    row[row.len() - 1 - j],
                ) && digits@[j] < 10,
        decreases i,
    {
        i -= 1;
        let d: u8 = (chars[i] as u32 - '0' as u32) as u8;
        assert(row[row.len() - 1 - (to - i - 1)] == fraction[i - point]);
        digits.push(d);
    }
    let mut j: usize = middle;
    while j > from
        invariant
            from <= j <= middle <= chars@.len(),
            point <= to,
            forall|k: int| from <= k < middle ==> is_digit(chars@[k]),
            whole == chars@.subrange(from as int, middle as int),
            fraction.len() == to - point,
            row == whole + fraction,
            digits@.len() == to - point + middle - j,
            forall|k: int|
                0 <= k < digits@.len() ==> #[trigger] digits@[k] as nat == digit_value(
                    row[row.len() - 1 - k],
                ) && digits@[k] < 10,
        decreases j,
    {
        j -= 1;
        let d: u8 = (chars[j] as u32 - '0' as u32) as u8;
        assert(row[row.len() - 1 - (to - point + middle - j - 1)] == whole[j - from]);
        digits.push(d);
    }
    proof {
        lemma_row(row, digits@);
    }
    strip_zeros(&mut digits);
    digits
}

/// Digits in reverse make up the number of the row.
proof fn lemma_row(row: Seq<char>, digits: Seq<u8>)
    requires
        digits.len() == row.len(),
        forall|j: int|
            0 <= j < digits.len() ==> #[trigger] digits[j] as nat == digit_value(
                row[row.len() - 1 - j],
            ),
    ensures
        digits_value(digits) == row_value(row),
    decreases row.len(),
{
    if row.len() > 0 {
        let front = row.drop_last();
        let rest = digits.skip(1);
        assert forall|j: int| 0 <= j < rest.len() implies #[trigger] rest[j] as nat == digit_value(
            front[front.len() - 1 - j],
        ) by {
            assert(rest[j] == digits[j + 1]);
        }
        lemma_row(front, rest);
        assert(digits[0] as nat == digit_value(row.last()));
    }
}

proof fn lemma_weight_pow2(k: nat)
    ensures
        weight(k) >= pow2(3 * k),
    decreases k,
{
    lemma2_to64();
    if k > 0 {
        lemma_weight_pow2((k - 1) as nat);
        lemma_pow2_adds(3, (3 * (k - 1)) as nat);
        lemma_pow2_pos((3 * (k - 1)) as nat);
        assert(3 + 3 * (k - 1) == 3 * k);
    }
}

/// A number with its point far to the right is beyond all finite numbers.
proof fn lemma_far_right(digits: Seq<u8>, exponent: int)
    requires
        canonical(digits),
        digits_value(digits) > 0,
        exponent + digits.len() > 400,
    ensures
        is_nearest(
            upper_part(digits_value(digits), exponent),
            lower_part(exponent),
            0x7ff0_0000_0000_0000,
        ),
{
    let v = digits_value(digits);
    let (p, q) = (upper_part(v, exponent), lower_part(exponent));
    let places = (digits.len() - 1) as nat;
    lemma_value_bounds(digits);
    assert(digits.last() > 0) by {
        if digits.len() == 1 {
            assert(digits.skip(1) =~= Seq::<u8>::empty());
            assert(digits_value(digits.skip(1)) == 0);
        }
    }
    let total = (places + exponent) as nat;
    lemma_weight_grows(400, total);
    lemma_weight_pow2(400);
    let w = weight(400);
    if exponent > 0 {
        let e = exponent as nat;
        lemma_weight_adds(places, e);
        lemma_weight_grows(0, e);
        let (a, b) = (weight(places), weight(e));
        assert(v * b >= a * b) by (nonlinear_arith)
            requires
                v >= a,
                b > 0,
        ;
        assert(q * w == w) by (nonlinear_arith)
            requires
                q == 1,
        ;
    } else {
        let k = (-exponent) as nat;
        if exponent < 0 {
            lemma_weight_adds(k, total);
            assert(k + total == places);
        }
        lemma_weight_grows(0, k);
        let t = weight(total);
        assert(v >= q * t) by {
            if exponent == 0 {
                assert(total == places);
                assert(q * t == t) by (nonlinear_arith)
                    requires
                        q == 1,
                ;
            }
        }
        assert(q * t >= q * w) by (nonlinear_arith)
            requires
                t >= w,
        ;
        assert(p >= q * w);
    }
    lemma_pow2_adds(1200, 1074);
    lemma_pow2_strictly_increases(2098, 2274);
    lemma_pow2_pos(1074);
    let (x, y, z) = (pow2(1200), one(), pow2(2098));
    assert(p * y >= q * z) by (nonlinear_arith)
        requires
            p >= q * w,
            w >= x,
            x * y >= z,
            y > 0,
            q >= 0,
    ;
    lemma_lower_positive(exponent);
    lemma_reaches_infinity(p, q, 2046);
}

proof fn lemma_lower_positive(exponent: int)
    ensures
        lower_part(exponent) > 0,
{
    if exponent < 0 {
        lemma_weight_grows(0, (-exponent) as nat);
    }
}

/// A number with its point far to the left is nearest to zero.
proof fn lemma_far_left(digits: Seq<u8>, exponent: int)
    requires
        canonical(digits),
        exponent + digits.len() < -400,
    ensures
        is_nearest(upper_part(digits_value(digits), exponent), lower_part(exponent), 0),
{
    let p = digits_value(digits);
    let q = lower_part(exponent);
    let n = digits.len();
    lemma_value_bounds(digits);
    let rest = (-exponent - n) as nat;
    lemma_weight_adds(n, rest);
    assert(n + rest == -exponent);
    lemma_weight_grows(400, rest);
    lemma_weight_pow2(400);
    lemma_weight_grows(0, n);
    let (a, b) = (weight(n), weight(rest));
    let x = pow2(1200);
    lemma2_to64();
    lemma_pow2_unfold(1075);
    lemma_pow2_strictly_increases(1075, 1200);
    assert(2 * (p * one()) < q) by (nonlinear_arith)
        requires
            p < a,
            q == a * b,
            b >= x,
            2 * one() < x,
            one() >= 0,
    ;
    lemma_smallest(q);
}

/// The middle between zero and the smallest number above it.
proof fn lemma_smallest(q: nat)
    ensures
        q * (size_of_magnitude(0) + size_of_magnitude(1)) == q,
{
    let (a, b) = (size_of_magnitude(0), size_of_magnitude(1));
    assert(q * (a + b) == q) by (nonlinear_arith)
        requires
            a == 0,
            b == 1,
    ;
}

/// The magnitude of the double nearest to the digits times a power of ten.
fn scaled(digits: &Vec<u8>, near: i128, Ghost(exponent): Ghost<int>) -> (magnitude: u64)
    requires
        canonical(digits@),
        stands_for(near, exponent, FAR / 100_000),
        -20 * FAR <= near <= 20 * FAR,
    ensures
        magnitude == scaled_magnitude(digits_value(digits@), exponent),
        magnitude <= 0x7ff0_0000_0000_0000,
{
    let ghost value = digits_value(digits@);
    let ghost p = upper_part(value, exponent);
    let ghost q = lower_part(exponent);
    let places: i128 = digits.len() as i128;
    proof {
        lemma_lower_positive(exponent);
        lemma_smallest(q);
    }
    if digits.len() == 1 && digits[0] == 0 {
        proof {
            assert(digits@.skip(1) =~= Seq::<u8>::empty());
            assert(digits_value(digits@.skip(1)) == 0);
            assert(value == 0);
            if exponent > 0 {
                assert(0 * weight(exponent as nat) == 0);
            }
            assert(p == 0);
            assert(0 * one() == 0);
            lemma_nearest_unique(p, q, 0);
        }
        return 0;
    }
    proof {
        lemma_value_bounds(digits@);
        lemma_weight_grows(0, (digits@.len() - 1) as nat);
        assert(value > 0) by {
            if digits@.len() == 1 {
                assert(digits@.skip(1) =~= Seq::<u8>::empty());
            }
        }
    }
    if near + places > 400 {
        proof {
            lemma_far_right(digits@, exponent);
            lemma_nearest_unique(p, q, 0x7ff0_0000_0000_0000);
        }
        return 0x7ff0_0000_0000_0000;
    }
    if near + places < -400 {
        proof {
            lemma_far_left(digits@, exponent);
            lemma_nearest_unique(p, q, 0);
        }
        return 0;
    }
    assert(near == exponent);
    let unit = digits_of(1);
    let magnitude: u64 = if near > 0 {
        let top = shifted(digits, near as u128);
        nearest_of_ratio(&top, &unit)
    } else if near < 0 {
        let bottom = shifted(&unit, (-near) as u128);
        assert(1 * weight((-near) as nat) == weight((-near) as nat));
        nearest_of_ratio(digits, &bottom)
    } else {
        nearest_of_ratio(digits, &unit)
    };
    proof {
        lemma_nearest_unique(p, q, magnitude as nat);
    }
    magnitude
}

/// Where the digits after a point stand, where one stands at `middle`.
fn fraction_bounds(chars: &Vec<char>, middle: usize) -> (bounds: (usize, usize))
    requires
        middle <= chars@.len(),
    ensures
        middle <= bounds.0 <= bounds.1 <= chars@.len(),
        fraction_of(chars@.skip(middle as int)).0 == chars@.subrange(
            bounds.0 as int,
            bounds.1 as int,
        ),
        fraction_of(chars@.skip(middle as int)).1 == chars@.skip(bounds.1 as int),
        forall|i: int| bounds.0 <= i < bounds.1 ==> is_digit(chars@[i]),
{
    let ghost rest = chars@.skip(middle as int);
    if middle < chars.len() && chars[middle] == '.' {
        let to: usize = run_end(chars, middle + 1);
        assert(rest.skip(1) =~= chars@.skip(middle + 1));
        assert(fraction_of(rest).1 =~= chars@.skip(to as int));
        assert(fraction_of(rest).0 =~= chars@.subrange(middle + 1, to as int));
        (middle + 1, to)
    } else {
        assert(fraction_of(rest).0 =~= chars@.subrange(middle as int, middle as int));
        (middle, middle)
    }
}

/// The magnitude of the digits, point and exponent that are written from `from` on.
#[verifier::spinoff_prover]
fn stated_decimal(chars: &Vec<char>, from: usize) -> (magnitude: Option<u64>)
    requires
        from <= chars@.len(),
    ensures
        match decimal_parts(chars@.skip(from as int)) {
            Some((digits, exponent)) => magnitude matches Some(m) && m == scaled_magnitude(
                row_value(digits),
                exponent,
            ) && m <= 0x7ff0_0000_0000_0000,
            None => magnitude is None,
        },
{
    let ghost s = chars@.skip(from as int);
    let middle: usize = run_end(chars, from);
    let ghost whole = s.take(run(s) as int);
    let ghost rest = s.skip(run(s) as int);
    assert(rest =~= chars@.skip(middle as int));
    assert(whole =~= chars@.subrange(from as int, middle as int));
    let (point, to): (usize, usize) = fraction_bounds(chars, middle);
    let ghost (fraction, tail) = fraction_of(rest);
    match stated_exponent(chars, to) {
        Some(near) if middle > from || to > point => {
            let digits = collected(chars, from, middle, point, to);
            let places: i128 = (to - point) as i128;
            let ghost exact = exponent_of(tail)->0 - fraction.len();
            Some(scaled(&digits, near - places, Ghost(exact)))
        },
        _ => None,
    }
}

/// The magnitude of what is written from `from` on.
fn stated_magnitude(chars: &Vec<char>, from: usize) -> (magnitude: Option<u64>)
    requires
        from <= chars@.len(),
    ensures
        match written_magnitude(chars@.skip(from as int)) {
            Some(exact) => magnitude matches Some(m) && m == exact && m < 0x8000_0000_0000_0000,
            None => magnitude is None,
        },
{
    if spelled(chars, from, "inf", "INF") || spelled(chars, from, "infinity", "INFINITY") {
        Some(0x7ff0_0000_0000_0000)
    } else if spelled(chars, from, "nan", "NAN") {
        Some(0x7ff8_0000_0000_0000)
    } else {
        stated_decimal(chars, from)
    }
}

/// Reads a number.
pub fn parse_number(text: &str) -> (number: Option<Double>)
    ensures
        number == number_of(text@),
{
    let chars = chars_of(text);
    let negative: bool = chars.len() > 0 && chars[0] == '-';
    let from: usize = if negative || (chars.len() > 0 && chars[0] == '+') {
        1
    } else {
        0
    };
    assert(signed(text@).1 =~= text@.skip(from as int));
    match stated_magnitude(&chars, from) {
        None => None,
        Some(magnitude) => Some(
            Double {
                bits: if negative {
                    0x8000_0000_0000_0000 + magnitude
                } else {
                    magnitude
                },
            },
        ),
    }
}

/// Whether all characters are digits.
pub open spec fn is_row(s: Seq<char>) -> bool {
    forall|i: int| 0 <= i < s.len() ==> is_digit(#[trigger] s[i])
}

proof fn lemma_digit_char(d: nat)
    requires
        d < 10,
    ensures
        is_digit(digit_char(d)),
        digit_value(digit_char(d)) == d,
        digit_char(d) == '0' <==> d == 0,
{
}

/// A number in decimal is a row of digits that makes up that number, without a zero before
/// it where it has more than one digit.
pub proof fn law_decimal_states_the_number(n: nat)
    ensures
        decimal(n).len() > 0,
        is_row(decimal(n)),
        row_value(decimal(n)) == n,
        decimal(n).len() > 1 ==> decimal(n)[0] != '0',
        decimal(n)[0] == '0' ==> n == 0,
    decreases n,
{
    if n < 10 {
        lemma_digit_char(n);
        let s = decimal(n);
        assert(s.drop_last() =~= Seq::<char>::empty());
        assert(row_value(s.drop_last()) == 0);
    } else {
        let front = decimal(n / 10);
        law_decimal_states_the_number(n / 10);
        lemma_digit_char(n % 10);
        let s = decimal(n);
        assert(s.drop_last() =~= front);
        assert forall|i: int| 0 <= i < s.len() implies is_digit(#[trigger] s[i]) by {
            if i < front.len() {
                assert(front[i] == s[i]);
            }
        }
        assert(s[0] == front[0]);
    }
}

/// A signed number has a minus sign before its digits just where it is negative, and the
/// digits make up its size.
pub proof fn law_signed_decimal_states_the_number(n: int)
    ensures
        n >= 0 ==> is_row(signed_decimal(n)) && row_value(signed_decimal(n)) == n,
        n < 0 ==> signed_decimal(n)[0] == '-' && is_row(signed_decimal(n).skip(1)) && row_value(
            signed_decimal(n).skip(1),
        ) == -n,
{
    reveal_strlit("-");
    if n >= 0 {
        law_decimal_states_the_number(n as nat);
    } else {
        law_decimal_states_the_number((-n) as nat);
        assert(signed_decimal(n).skip(1) =~= decimal((-n) as nat));
    }
}

/// Different numbers are written differently.
pub proof fn law_decimals_are_distinct(a: int, b: int)
    requires
        signed_decimal(a) == signed_decimal(b),
    ensures
        a == b,
{
    law_signed_decimal_states_the_number(a);
    law_signed_decimal_states_the_number(b);
    if a >= 0 && b < 0 {
        law_decimal_states_the_number(a as nat);
        assert(is_digit(signed_decimal(a)[0]));
    }
    if b >= 0 && a < 0 {
        law_decimal_states_the_number(b as nat);
        assert(is_digit(signed_decimal(b)[0]));
    }
}

} // verus!
