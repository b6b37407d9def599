//! Whole numbers of any size as lists of decimal digits, the lowest first.

use crate::text::{char_of_digit, decimal, digit_char};
use vstd::prelude::*;

verus! {

/// The number that the digits make up.
pub open spec fn digits_value(digits: Seq<u8>) -> nat
    decreases digits.len(),
{
    if digits.len() == 0 {
        0
    } else {
        digits[0] as nat + 10 * digits_value(digits.skip(1))
    }
}

/// Decimal digits, at least one, without a leading zero unless there is one digit.
pub open spec fn canonical(digits: Seq<u8>) -> bool {
    &&& digits.len() > 0
    &&& forall|i: int| 0 <= i < digits.len() ==> digits[i] < 10
    &&& digits.len() > 1 ==> digits.last() > 0
}

/// The digits as they are written, the highest first.
pub open spec fn written(digits: Seq<u8>) -> Seq<char>
    decreases digits.len(),
{
    if digits.len() == 0 {
        Seq::empty()
    } else {
        written(digits.skip(1)).push(digit_char(digits[0] as nat))
    }
}

proof fn lemma_positive(digits: Seq<u8>)
    requires
        digits.len() > 0,
        digits.last() > 0,
    ensures
        digits_value(digits) > 0,
    decreases digits.len(),
{
    if digits.len() > 1 {
        assert(digits.skip(1).last() == digits.last());
        lemma_positive(digits.skip(1));
    }
}

/// Canonical digits are written as the number they make up.
pub proof fn lemma_written(digits: Seq<u8>)
    requires
        canonical(digits),
    ensures
        written(digits) == decimal(digits_value(digits)),
    decreases digits.len(),
{
    let rest = digits.skip(1);
    if digits.len() == 1 {
        assert(rest.len() == 0);
        assert(written(rest) =~= Seq::<char>::empty());
        assert(written(digits) =~= seq![digit_char(digits[0] as nat)]);
    } else {
        assert(rest.last() == digits.last());
        lemma_positive(rest);
        lemma_written(rest);
        let n = digits_value(digits);
        assert(n >= 10);
        assert(n / 10 == digits_value(rest));
        assert(n % 10 == digits[0] as nat);
    }
}

/// The number made up by the digits above the lowest `k`.
pub proof fn lemma_skip_value(digits: Seq<u8>, k: nat)
    requires
        k < digits.len(),
        forall|i: int| 0 <= i < digits.len() ==> digits[i] < 10,
    ensures
        digits_value(digits.skip(k as int)) == digits[k as int] as nat + 10 * digits_value(
            digits.skip(k as int + 1),
        ),
{
    assert(digits.skip(k as int).skip(1) =~= digits.skip(k as int + 1));
}

/// The digits of `n`.
pub fn digits_of(n: u64) -> (digits: Vec<u8>)
    ensures
        canonical(digits@),
        digits_value(digits@) == n,
{
    let mut digits: Vec<u8> = Vec::new();
    let mut rest: u64 = n;
    digits.push((rest % 10) as u8);
    rest = rest / 10;
    proof {
        assert(digits@.skip(1) =~= Seq::<u8>::empty());
        assert(digits_value(Seq::<u8>::empty()) == 0);
        reveal_with_fuel(weight, 2);
        assert(rest * weight(1) == rest * 10);
    }
    while rest > 0
        invariant
            digits@.len() > 0,
            forall|i: int| 0 <= i < digits@.len() ==> digits@[i] < 10,
            digits_value(digits@) + rest * weight(digits@.len()) == n,
            rest == 0 ==> digits@.len() > 1 ==> digits@.last() > 0,
        decreases rest,
    {
        let d: u8 = (rest % 10) as u8;
        let ghost before = digits@;
        let ghost old_rest = rest;
        digits.push(d);
        rest = rest / 10;
        proof {
            lemma_push_value(before, d);
            let w = weight(before.len());
            assert(weight(digits@.len()) == 10 * w);
            assert(old_rest * w == d * w + rest * (10 * w)) by (nonlinear_arith)
                requires
                    old_rest == 10 * rest + d,
            ;
        }
    }
    digits
}

/// Ten to the power `k`.
pub open spec fn weight(k: nat) -> nat
    decreases k,
{
    if k == 0 {
        1
    } else {
        10 * weight((k - 1) as nat)
    }
}

/// A digit put above the others adds its place's weight that many times.
pub proof fn lemma_push_value(digits: Seq<u8>, d: u8)
    ensures
        digits_value(digits.push(d)) == digits_value(digits) + d * weight(digits.len()),
    decreases digits.len(),
{
    if digits.len() == 0 {
        assert(digits.push(d).skip(1) =~= Seq::<u8>::empty());
        assert(digits_value(Seq::<u8>::empty()) == 0);
        assert(d * weight(0) == d) by (nonlinear_arith)
            requires
                weight(0) == 1,
        ;
    } else {
        lemma_push_value(digits.skip(1), d);
        assert(digits.push(d).skip(1) =~= digits.skip(1).push(d));
        let w = weight((digits.len() - 1) as nat);
        assert(weight(digits.len()) == 10 * w);
        assert(10 * (d * w) == d * (10 * w)) by (nonlinear_arith);
    }
}

/// Twice the number.
pub fn doubled(digits: &Vec<u8>) -> (twice: Vec<u8>)
    requires
        canonical(digits@),
    ensures
        canonical(twice@),
        digits_value(twice@) == 2 * digits_value(digits@),
{
    let mut twice: Vec<u8> = Vec::new();
    let mut carry: u8 = 0;
    let mut i: usize = 0;
    assert(digits@.take(0) =~= Seq::<u8>::empty());
    while i < digits.len()
        invariant
            i <= digits@.len(),
            canonical(digits@),
            carry <= 1,
            twice@.len() == i,
            forall|j: int| 0 <= j < i ==> twice@[j] < 10,
            digits_value(twice@) + carry * weight(i as nat) == 2 * digits_value(
                digits@.take(i as int),
            ),
            i > 0 && carry == 0 && digits@[i - 1] > 0 ==> twice@[i - 1] > 0,
        decreases digits@.len() - i,
    {
        let sum: u8 = 2 * digits[i] + carry;
        let d: u8 = sum % 10;
        let next: u8 = sum / 10;
        let ghost before = twice@;
        twice.push(d);
        proof {
            let w = weight(i as nat);
            lemma_push_value(before, d);
            lemma_push_value(digits@.take(i as int), digits@[i as int]);
            assert(digits@.take(i as int).push(digits@[i as int]) =~= digits@.take(i + 1));
            assert(weight((i + 1) as nat) == 10 * w);
            assert(d * w + next * (10 * w) == 2 * (digits@[i as int] * w) + carry * w)
                by (nonlinear_arith)
                requires
                    d + 10 * next == 2 * digits@[i as int] + carry,
            ;
        }
        carry = next;
        i += 1;
    }
    assert(digits@.take(i as int) =~= digits@);
    if carry > 0 {
        let ghost before = twice@;
        twice.push(carry);
        proof {
            lemma_push_value(before, carry);
        }
    }
    twice
}

/// Writes the number made up by the digits above the lowest `from`.
pub fn push_digits(s: &mut String, digits: &Vec<u8>, from: usize)
    requires
        canonical(digits@),
    ensures
        from < digits@.len() ==> final(s)@ == old(s)@ + decimal(
            digits_value(digits@.skip(from as int)),
        ),
        from >= digits@.len() ==> final(s)@ == old(s)@ + decimal(0),
{
    if from >= digits.len() {
        s.push('0');
        assert(s@ =~= old(s)@ + decimal(0));
        return;
    }
    let mut i: usize = digits.len();
    assert(digits@.skip(i as int) =~= Seq::<u8>::empty());
    assert(s@ =~= old(s)@ + written(digits@.skip(i as int)));
    while i > from
        invariant
            from <= i <= digits@.len(),
            canonical(digits@),
            s@ == old(s)@ + written(digits@.skip(i as int)),
        decreases i,
    {
        i -= 1;
        s.push(char_of_digit(digits[i]));
        proof {
            let rest = digits@.skip(i as int);
            assert(rest.skip(1) =~= digits@.skip(i + 1));
            assert(written(rest) == written(digits@.skip(i + 1)).push(digit_char(rest[0] as nat)));
            assert(s@ =~= old(s)@ + written(rest));
        }
    }
    proof {
        let rest = digits@.skip(from as int);
        assert(rest.last() == digits@.last());
        lemma_written(rest);
    }
}

/// Weights grow with the place.
pub proof fn lemma_weight_grows(a: nat, b: nat)
    requires
        a <= b,
    ensures
        0 < weight(a) <= weight(b),
    decreases b,
{
    if b > 0 {
        if a < b {
            lemma_weight_grows(a, (b - 1) as nat);
        } else {
            lemma_weight_grows((a - 1) as nat, (b - 1) as nat);
        }
    }
}

/// Weights multiply.
pub proof fn lemma_weight_adds(a: nat, b: nat)
    ensures
        weight(a + b) == weight(a) * weight(b),
    decreases a,
{
    if a > 0 {
        lemma_weight_adds((a - 1) as nat, b);
        let (x, y) = (weight((a - 1) as nat), weight(b));
        assert((10 * x) * y == 10 * (x * y)) by (nonlinear_arith);
    } else {
        assert(1 * weight(b) == weight(b));
    }
}

/// A number lies below the weight of the place above its highest digit, and
/// reaches the weight of its highest digit unless that is zero.
pub proof fn lemma_value_bounds(digits: Seq<u8>)
    requires
        forall|i: int| 0 <= i < digits.len() ==> digits[i] < 10,
    ensures
        digits_value(digits) < weight(digits.len()),
        digits.len() > 0 && digits.last() > 0 ==> digits_value(digits) >= weight(
            (digits.len() - 1) as nat,
        ),
    decreases digits.len(),
{
    if digits.len() > 0 {
        let rest = digits.skip(1);
        lemma_value_bounds(rest);
        if digits.len() > 1 {
            assert(rest.last() == digits.last());
        }
    }
}

/// The digits above place `k` do not matter for those below.
proof fn lemma_value_split(digits: Seq<u8>, k: nat)
    requires
        k <= digits.len(),
    ensures
        digits_value(digits) == digits_value(digits.take(k as int)) + weight(k) * digits_value(
            digits.skip(k as int),
        ),
    decreases k,
{
    if k == 0 {
        assert(digits.skip(0) =~= digits);
        assert(digits.take(0) =~= Seq::<u8>::empty());
        assert(digits_value(Seq::<u8>::empty()) == 0);
        assert(1 * digits_value(digits) == digits_value(digits));
    } else {
        let rest = digits.skip(1);
        lemma_value_split(rest, (k - 1) as nat);
        assert(rest.take(k - 1) =~= digits.take(k as int).skip(1));
        assert(rest.skip(k - 1) =~= digits.skip(k as int));
        let (w, v) = (weight((k - 1) as nat), digits_value(digits.skip(k as int)));
        assert(10 * (w * v) == (10 * w) * v) by (nonlinear_arith);
    }
}

/// Whether the first number is less than the second.
pub fn less(a: &Vec<u8>, b: &Vec<u8>) -> (less: bool)
    requires
        canonical(a@),
        canonical(b@),
    ensures
        less == (digits_value(a@) < digits_value(b@)),
{
    proof {
        lemma_value_bounds(a@);
        lemma_value_bounds(b@);
    }
    if a.len() < b.len() {
        proof {
            lemma_weight_grows(a@.len(), (b@.len() - 1) as nat);
        }
        return true;
    }
    if a.len() > b.len() {
        proof {
            lemma_weight_grows(b@.len(), (a@.len() - 1) as nat);
        }
        return false;
    }
    let mut i: usize = a.len();
    while i > 0
        invariant
            canonical(a@),
            canonical(b@),
            a@.len() == b@.len(),
            i <= a@.len(),
            forall|j: int| i <= j < a@.len() ==> a@[j] == b@[j],
        decreases i,
    {
        i -= 1;
        if a[i] != b[i] {
            proof {
                let k = (i + 1) as nat;
                lemma_value_split(a@, k);
                lemma_value_split(b@, k);
                assert(a@.skip(i + 1) =~= b@.skip(i + 1));
                let (x, y) = (a@.take(i as int), b@.take(i as int));
                assert(a@.take(i + 1) =~= x.push(a@[i as int]));
                assert(b@.take(i + 1) =~= y.push(b@[i as int]));
                lemma_push_value(x, a@[i as int]);
                lemma_push_value(y, b@[i as int]);
                lemma_value_bounds(x);
                lemma_value_bounds(y);
                let (w, p, q) = (weight(i as nat), a@[i as int] as nat, b@[i as int] as nat);
                assert(p < q ==> p * w + w <= q * w) by (nonlinear_arith);
                assert(q < p ==> q * w + w <= p * w) by (nonlinear_arith);
            }
            return a[i] < b[i];
        }
    }
    assert(a@ =~= b@);
    false
}

/// Takes away the zeros above the highest digit that is not zero.
pub fn strip_zeros(digits: &mut Vec<u8>)
    requires
        old(digits)@.len() > 0,
        forall|i: int| 0 <= i < old(digits)@.len() ==> old(digits)@[i] < 10,
    ensures
        canonical(final(digits)@),
        digits_value(final(digits)@) == digits_value(old(digits)@),
{
    while digits.len() > 1 && digits[digits.len() - 1] == 0
        invariant
            digits@.len() > 0,
            forall|i: int| 0 <= i < digits@.len() ==> digits@[i] < 10,
            digits_value(digits@) == digits_value(old(digits)@),
        decreases digits@.len(),
    {
        let ghost before = digits@;
        digits.pop();
        proof {
            lemma_push_value(digits@, 0);
            assert(digits@.push(0) =~= before);
            assert(0 * weight(digits@.len()) == 0);
        }
    }
}

/// The first number less the second.
pub fn difference(a: &Vec<u8>, b: &Vec<u8>) -> (rest: Vec<u8>)
    requires
        canonical(a@),
        canonical(b@),
        digits_value(b@) <= digits_value(a@),
    ensures
        canonical(rest@),
        digits_value(rest@) == digits_value(a@) - digits_value(b@),
{
    proof {
        lemma_value_bounds(a@);
        lemma_value_bounds(b@);
        if a@.len() < b@.len() {
            lemma_weight_grows(a@.len(), (b@.len() - 1) as nat);
        }
    }
    let mut rest: Vec<u8> = Vec::new();
    let mut borrow: u8 = 0;
    let mut i: usize = 0;
    assert(a@.take(0) =~= Seq::<u8>::empty());
    assert(b@.take(0) =~= Seq::<u8>::empty());
    while i < a.len()
        invariant
            canonical(a@),
            canonical(b@),
            b@.len() <= a@.len(),
            i <= a@.len(),
            borrow <= 1,
            rest@.len() == i,
            forall|j: int| 0 <= j < i ==> rest@[j] < 10,
            digits_value(rest@) + digits_value(low(b@, i as int)) == digits_value(
                a@.take(i as int),
            ) + borrow * weight(i as nat),
        decreases a@.len() - i,
    {
        let taken: u8 = borrow + if i < b.len() {
            b[i]
        } else {
            0
        };
        let (d, next): (u8, u8) = if a[i] >= taken {
            (a[i] - taken, 0)
        } else {
            (a[i] + 10 - taken, 1)
        };
        let ghost before = rest@;
        rest.push(d);
        proof {
            let w = weight(i as nat);
            lemma_push_value(before, d);
            lemma_push_value(a@.take(i as int), a@[i as int]);
            assert(a@.take(i as int).push(a@[i as int]) =~= a@.take(i + 1));
            assert(weight((i + 1) as nat) == 10 * w);
            let bd: nat = if i < b@.len() {
                b@[i as int] as nat
            } else {
                0
            };
            if i < b@.len() {
                lemma_push_value(b@.take(i as int), b@[i as int]);
                assert(b@.take(i as int).push(b@[i as int]) =~= b@.take(i + 1));
                assert(low(b@, i + 1) =~= b@.take(i + 1));
            } else {
                assert(0 * w == 0);
            }
            assert(digits_value(low(b@, i + 1)) == digits_value(low(b@, i as int)) + bd * w);
            assert(d * w + bd * w + borrow * w == a@[i as int] * w + next * (10 * w))
                by (nonlinear_arith)
                requires
                    d + bd + borrow == a@[i as int] + 10 * next,
            ;
        }
        borrow = next;
        i += 1;
    }
    proof {
        assert(a@.take(a@.len() as int) =~= a@);
        assert(low(b@, a@.len() as int) =~= b@);
        lemma_value_bounds(rest@);
        assert(borrow == 0) by {
            assert(borrow == 1 ==> borrow * weight(i as nat) == weight(i as nat));
        }
        assert(0 * weight(i as nat) == 0);
    }
    strip_zeros(&mut rest);
    rest
}

/// The lowest `k` digits, or all of them where there are fewer.
spec fn low(digits: Seq<u8>, k: int) -> Seq<u8> {
    if k < digits.len() {
        digits.take(k)
    } else {
        digits
    }
}

/// The number with `zeros` zeros written behind it.
pub fn shifted(digits: &Vec<u8>, zeros: u128) -> (product: Vec<u8>)
    requires
        canonical(digits@),
        digits_value(digits@) > 0,
    ensures
        canonical(product@),
        digits_value(product@) == digits_value(digits@) * weight(zeros as nat),
{
    let mut product: Vec<u8> = Vec::new();
    let mut i: u128 = 0;
    assert(digits_value(Seq::<u8>::empty()) == 0);
    while i < zeros
        invariant
            i <= zeros,
            product@.len() == i,
            forall|j: int| 0 <= j < i ==> product@[j] == 0,
            digits_value(product@) == 0,
        decreases zeros - i,
    {
        let ghost before = product@;
        product.push(0);
        proof {
            lemma_push_value(before, 0);
            assert(0 * weight(i as nat) == 0);
        }
        i += 1;
    }
    assert(product@.take(zeros as int) =~= product@);
    let mut j: usize = 0;
    while j < digits.len()
        invariant
            canonical(digits@),
            j <= digits@.len(),
            product@.len() == zeros + j,
            forall|k: int| 0 <= k < zeros ==> product@[k] == 0,
            forall|k: int| 0 <= k < j ==> product@[zeros + k] == digits@[k],
            digits_value(product@.take(zeros as int)) == 0,
        decreases digits@.len() - j,
    {
        let ghost before = product@;
        product.push(digits[j]);
        assert(product@.take(zeros as int) =~= before.take(zeros as int));
        j += 1;
    }
    proof {
        lemma_value_split(product@, zeros as nat);
        assert(product@.skip(zeros as int) =~= digits@);
        let (w, v) = (weight(zeros as nat), digits_value(digits@));
        assert(w * v == v * w) by (nonlinear_arith);
        assert(digits@.len() == 1 ==> digits@.last() > 0) by {
            if digits@.len() == 1 {
                assert(digits@.skip(1) =~= Seq::<u8>::empty());
            }
        }
        assert(product@.last() == digits@.last());
        assert forall|k: int| 0 <= k < product@.len() implies product@[k] < 10 by {
            if k >= zeros {
                assert(product@[zeros + (k - zeros)] == digits@[k - zeros]);
            }
        }
    }
    product
}

} // verus!
