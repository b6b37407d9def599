//! Which texts state a number, and which number they state.

use crate::digits::weight;
use crate::double::{lemma_size_increases, one, size_of_magnitude};
use crate::nearest::{infinite, is_nearest, lemma_nearest_unique, nearest_magnitude};
use crate::number::{
    decimal_parts, exponent_of, fraction_of, is_digit, is_row, lower_part, number_of, row_value,
    run, scaled_magnitude, signed, spells, upper_part, written_magnitude,
};
use vstd::prelude::*;

verus! {

/// The parts that a numeral without a sign is written with.
#[verifier::ext_equal]
pub struct Numeral {
    /// The digits before the point.
    pub whole: Seq<char>,
    /// There is a point.
    pub point: bool,
    /// The digits after the point.
    pub fraction: Seq<char>,
    /// What begins the exponent, and its sign, if it has one.
    pub mark: Seq<char>,
    /// The digits of the exponent.
    pub exponent: Seq<char>,
}

/// What begins an exponent: an `e` in either case, with or without a sign.
pub open spec fn is_mark(mark: Seq<char>) -> bool {
    &&& 1 <= mark.len() <= 2
    &&& mark[0] == 'e' || mark[0] == 'E'
    &&& mark.len() == 2 ==> mark[1] == '+' || mark[1] == '-'
}

impl Numeral {
    /// The parts fit together: there are digits, those after the point only where there is
    /// one, and those of an exponent just where one begins.
    pub open spec fn fits(self) -> bool {
        &&& is_row(self.whole) && is_row(self.fraction) && is_row(self.exponent)
        &&& self.whole.len() + self.fraction.len() > 0
        &&& self.fraction.len() > 0 ==> self.point
        &&& self.mark.len() == 0 <==> self.exponent.len() == 0
        &&& self.mark.len() > 0 ==> is_mark(self.mark)
    }

    /// The numeral as it is written.
    pub open spec fn written(self) -> Seq<char> {
        self.whole + (if self.point {
            seq!['.'] + self.fraction
        } else {
            Seq::empty()
        }) + (self.mark + self.exponent)
    }

    /// The power of ten of the last digit.
    pub open spec fn power(self) -> int {
        let size = row_value(self.exponent);
        (if self.mark.len() == 2 && self.mark[1] == '-' {
            -size
        } else {
            size as int
        }) - self.fraction.len()
    }

    /// The number that all digits make up.
    pub open spec fn digits(self) -> nat {
        row_value(self.whole + self.fraction)
    }
}

proof fn lemma_run(row: Seq<char>, rest: Seq<char>)
    requires
        is_row(row),
        rest.len() == 0 || !is_digit(rest[0]),
    ensures
        run(row + rest) == row.len(),
    decreases row.len(),
{
    let s = row + rest;
    if row.len() == 0 {
        assert(s =~= rest);
    } else {
        let tail = row.skip(1);
        assert(is_digit(row[0]));
        assert forall|i: int| 0 <= i < tail.len() implies is_digit(#[trigger] tail[i]) by {
            assert(is_digit(row[i + 1]));
        }
        lemma_run(tail, rest);
        assert(s.skip(1) =~= tail + rest);
    }
}

proof fn lemma_exponent(numeral: Numeral)
    requires
        numeral.fits(),
    ensures
        exponent_of(numeral.mark + numeral.exponent) == Some(
            numeral.power() + numeral.fraction.len(),
        ),
{
    let tail = numeral.mark + numeral.exponent;
    let row = numeral.exponent;
    if numeral.mark.len() == 0 {
        assert(tail.len() == 0);
        assert(row_value(row) == 0);
    } else {
        assert(row + Seq::<char>::empty() =~= row);
        lemma_run(row, Seq::empty());
        assert(is_digit(row[0]));
        let rest = tail.skip(1);
        if numeral.mark.len() == 1 {
            assert(rest =~= row);
        } else {
            assert(rest[0] == numeral.mark[1]);
            assert(rest.skip(1) =~= row);
        }
    }
}

proof fn lemma_parts(numeral: Numeral)
    requires
        numeral.fits(),
    ensures
        decimal_parts(numeral.written()) == Some(
            (numeral.whole + numeral.fraction, numeral.power()),
        ),
        numeral.written().len() > 0,
        is_digit(numeral.written()[0]) || numeral.written()[0] == '.',
{
    let s = numeral.written();
    let tail = numeral.mark + numeral.exponent;
    let rest = (if numeral.point {
        seq!['.'] + numeral.fraction
    } else {
        Seq::empty()
    }) + tail;
    assert(s =~= numeral.whole + rest);
    if tail.len() > 0 {
        assert(tail[0] == numeral.mark[0]);
    }
    lemma_run(numeral.whole, rest);
    assert(s.take(run(s) as int) =~= numeral.whole);
    assert(s.skip(run(s) as int) =~= rest);
    if numeral.point {
        assert(rest.skip(1) =~= numeral.fraction + tail);
        lemma_run(numeral.fraction, tail);
        assert(rest.skip(1).take(numeral.fraction.len() as int) =~= numeral.fraction);
        assert(rest.skip(1).skip(numeral.fraction.len() as int) =~= tail);
    } else {
        assert(rest =~= tail);
        assert(fraction_of(rest).0 =~= numeral.fraction);
    }
    lemma_exponent(numeral);
    if numeral.whole.len() > 0 {
        assert(is_digit(numeral.whole[0]));
    }
}

proof fn lemma_no_word(s: Seq<char>)
    requires
        s.len() > 0,
        is_digit(s[0]) || s[0] == '.',
    ensures
        written_magnitude(s) == match decimal_parts(s) {
            Some((digits, exponent)) => Some(scaled_magnitude(row_value(digits), exponent)),
            None => None,
        },
{
    reveal_strlit("inf");
    reveal_strlit("INF");
    reveal_strlit("infinity");
    reveal_strlit("INFINITY");
    reveal_strlit("nan");
    reveal_strlit("NAN");
}

/// How far apart two numbers are.
pub open spec fn gap(a: int, b: int) -> int {
    if a < b {
        b - a
    } else {
        a - b
    }
}

proof fn lemma_nearest_exists(p: nat, q: nat, m: nat) -> (found: nat)
    requires
        q > 0,
        m <= infinite(),
        m > 0 ==> ({
            let middle = q * (size_of_magnitude((m - 1) as nat) + size_of_magnitude(m));
            2 * (p * one()) > middle || (2 * (p * one()) == middle && m % 2 == 0)
        }),
    ensures
        is_nearest(p, q, found),
    decreases infinite() - m,
{
    let twice = 2 * (p * one());
    if m == infinite() {
        m
    } else {
        let middle = q * (size_of_magnitude(m) + size_of_magnitude(m + 1));
        if twice < middle || (twice == middle && m % 2 == 0) {
            m
        } else {
            lemma_nearest_exists(p, q, m + 1)
        }
    }
}

/// No double is nearer to a ratio than the nearest one, and of two equally near ones, next to
/// each other, it is the even one.
pub proof fn law_nearest_is_nearest(p: nat, q: nat, other: nat)
    requires
        q > 0,
        other <= infinite(),
    ensures
        nearest_magnitude(p, q) <= infinite(),
        gap((p * one()) as int, (q * size_of_magnitude(nearest_magnitude(p, q))) as int) <= gap(
            (p * one()) as int,
            (q * size_of_magnitude(other)) as int,
        ),
        other != nearest_magnitude(p, q) && gap(
            (p * one()) as int,
            (q * size_of_magnitude(nearest_magnitude(p, q))) as int,
        ) == gap((p * one()) as int, (q * size_of_magnitude(other)) as int)
            ==> nearest_magnitude(p, q) % 2 == 0,
{
    let m = lemma_nearest_exists(p, q, 0);
    lemma_nearest_unique(p, q, m);
    let x = p * one();
    let sm = size_of_magnitude(m);
    let so = size_of_magnitude(other);
    if other < m {
        let below = size_of_magnitude((m - 1) as nat);
        lemma_size_increases((m - 1) as nat, m);
        if other < m - 1 {
            lemma_size_increases(other, (m - 1) as nat);
        }
        assert(q * (below + sm) == q * below + q * sm) by (nonlinear_arith);
        assert(q * so <= q * below) by (nonlinear_arith)
            requires
                so <= below,
        ;
        assert(q * below < q * sm) by (nonlinear_arith)
            requires
                below < sm,
                q > 0,
        ;
    } else if other > m {
        let above = size_of_magnitude(m + 1);
        lemma_size_increases(m, m + 1);
        if other > m + 1 {
            lemma_size_increases(m + 1, other);
        }
        assert(q * (sm + above) == q * sm + q * above) by (nonlinear_arith);
        assert(q * above <= q * so) by (nonlinear_arith)
            requires
                above <= so,
        ;
        assert(q * sm < q * above) by (nonlinear_arith)
            requires
                sm < above,
                q > 0,
        ;
    }
}

proof fn lemma_lower_is_positive(exponent: int)
    ensures
        lower_part(exponent) > 0,
{
    if exponent < 0 {
        lemma_weight_positive((-exponent) as nat);
    }
}

proof fn lemma_weight_positive(n: nat)
    ensures
        weight(n) > 0,
    decreases n,
{
    if n > 0 {
        lemma_weight_positive((n - 1) as nat);
    }
}

/// Every numeral states a number: of all doubles the nearest to the number that its digits
/// make up, times its power of ten. The ratio of the two parts is that number.
pub proof fn law_numeral_states_the_nearest(numeral: Numeral, other: nat)
    requires
        numeral.fits(),
        other <= infinite(),
    ensures
        ({
            let p = upper_part(numeral.digits(), numeral.power());
            let q = lower_part(numeral.power());
            number_of(numeral.written()) matches Some(number) && number.bits <= infinite() && gap(
                (p * one()) as int,
                (q * number.size()) as int,
            ) <= gap((p * one()) as int, (q * size_of_magnitude(other)) as int)
        }),
        ({
            let (n, power) = (numeral.digits(), numeral.power());
            &&& power >= 0 ==> upper_part(n, power) == n * weight(power as nat) && lower_part(power)
                == 1
            &&& power < 0 ==> upper_part(n, power) == n && lower_part(power) == weight(
                (-power) as nat,
            )
        }),
{
    let s = numeral.written();
    lemma_parts(numeral);
    lemma_no_word(s);
    assert(signed(s) == (false, s));
    let (n, power) = (numeral.digits(), numeral.power());
    let (p, q) = (upper_part(n, power), lower_part(power));
    lemma_lower_is_positive(power);
    law_nearest_is_nearest(p, q, other);
    let m = nearest_magnitude(p, q);
    assert(written_magnitude(s) == Some(m));
    assert(n * weight(0) == n) by {
        assert(weight(0) == 1);
        assert(n * 1 == n);
    }
}

/// A text states a number where the text after its sign does. A plus sign makes no difference,
/// a minus sign only turns the sign of the number, and nothing else may stand before it.
pub proof fn law_sign_is_read(s: Seq<char>)
    requires
        s.len() > 0 ==> s[0] != '+' && s[0] != '-',
    ensures
        number_of(s) is Some <==> written_magnitude(s) is Some,
        number_of(s) matches Some(number) ==> number.bits == written_magnitude(s)->0 && number.bits
            < 0x8000_0000_0000_0000,
        number_of(seq!['+'] + s) == number_of(s),
        number_of(seq!['-'] + s) is Some <==> number_of(s) is Some,
        number_of(seq!['-'] + s) matches Some(number) ==> number.bits == number_of(s)->0.bits
            + 0x8000_0000_0000_0000,
{
    assert((seq!['+'] + s).skip(1) =~= s);
    assert((seq!['-'] + s).skip(1) =~= s);
    assert(signed(s) == (false, s));
    if let Some((digits, exponent)) = decimal_parts(s) {
        lemma_lower_is_positive(exponent);
        law_nearest_is_nearest(
            upper_part(row_value(digits), exponent),
            lower_part(exponent),
            0,
        );
    }
}

proof fn lemma_run_is_row(s: Seq<char>)
    ensures
        run(s) <= s.len(),
        is_row(s.take(run(s) as int)),
    decreases s.len(),
{
    if s.len() > 0 && is_digit(s[0]) {
        lemma_run_is_row(s.skip(1));
        let n = run(s) as int;
        assert forall|i: int| 0 <= i < n implies is_digit(#[trigger] s.take(n)[i]) by {
            if i > 0 {
                assert(s.skip(1).take(n - 1)[i - 1] == s[i]);
            }
        }
    }
}

/// Only numerals state a number without a sign, but for the words for infinity and for what is
/// not a number: these are the parts of the numeral.
pub proof fn law_only_numerals_are_read(s: Seq<char>) -> (numeral: Numeral)
    requires
        written_magnitude(s) is Some,
        !spells(s, "inf"@, "INF"@),
        !spells(s, "infinity"@, "INFINITY"@),
        !spells(s, "nan"@, "NAN"@),
    ensures
        numeral.fits(),
        numeral.written() == s,
{
    let whole = s.take(run(s) as int);
    let rest = s.skip(run(s) as int);
    lemma_run_is_row(s);
    let (fraction, tail) = fraction_of(rest);
    let point = rest.len() > 0 && rest[0] == '.';
    if point {
        lemma_run_is_row(rest.skip(1));
    }
    let (mark, exponent): (Seq<char>, Seq<char>) = if tail.len() == 0 {
        (Seq::empty(), Seq::empty())
    } else {
        let after = tail.skip(1);
        let (negative, row) = signed(after);
        (tail.take(tail.len() - row.len()), row)
    };
    if tail.len() > 0 {
        let after = tail.skip(1);
        let (negative, row) = signed(after);
        lemma_run_is_row(row);
        assert(row.take(row.len() as int) =~= row);
        assert(mark + exponent =~= tail);
        if row.len() < after.len() {
            assert(mark.len() == 2 && mark[1] == after[0]);
        } else {
            assert(row == after);
            assert(mark.len() == 1);
        }
    } else {
        assert(mark + exponent =~= tail);
    }
    let numeral = Numeral { whole, point, fraction, mark, exponent };
    if point {
        assert(rest =~= seq!['.'] + fraction + tail);
    } else {
        assert(rest =~= tail);
    }
    assert(s =~= whole + rest);
    assert(numeral.written() =~= s);
    numeral
}

/// The words for infinity and for what is not a number are read in either case of each letter.
pub proof fn law_words_are_read(s: Seq<char>)
    ensures
        spells(s, "inf"@, "INF"@) || spells(s, "infinity"@, "INFINITY"@) ==> (number_of(
            s,
        ) matches Some(number) && number.is_infinite() && !number.negative()),
        spells(s, "nan"@, "NAN"@) ==> (number_of(s) matches Some(number) && number.is_nan()),
        forall|i: int|
            spells(s, "nan"@, "NAN"@) && 0 <= i < 3 ==> s[i] == seq!['n', 'a', 'n'][i] || #[trigger]
                s[i] == seq!['N', 'A', 'N'][i],
{
    reveal_strlit("inf");
    reveal_strlit("INF");
    reveal_strlit("infinity");
    reveal_strlit("INFINITY");
    reveal_strlit("nan");
    reveal_strlit("NAN");
    if s.len() > 0 && (spells(s, "inf"@, "INF"@) || spells(s, "infinity"@, "INFINITY"@) || spells(
        s,
        "nan"@,
        "NAN"@,
    )) {
        assert(s[0] != '-' && s[0] != '+');
        assert(signed(s) == (false, s));
    }
    if spells(s, "nan"@, "NAN"@) {
        assert("nan"@ =~= seq!['n', 'a', 'n']);
        assert("NAN"@ =~= seq!['N', 'A', 'N']);
    }
}

} // verus!
