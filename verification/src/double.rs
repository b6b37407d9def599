//! Double-precision numbers, held by their IEEE 754 bits.
//!
//! Every finite double is a whole multiple of 2^-1074. That multiple is the model
//! of a number here: comparing, rounding and writing a number are stated over it.

use crate::digits::{canonical, digits_of, digits_value, doubled, lemma_skip_value, push_digits};
use crate::text::{char_of_digit, decimal, digit_char};
use std::cmp::Ordering;
use vstd::arithmetic::div_mod::{
    lemma_div_multiples_vanish_quotient, lemma_truncate_middle,
};
use vstd::arithmetic::power2::{
    lemma2_to64, lemma2_to64_rest, lemma_pow2_adds, lemma_pow2_pos, lemma_pow2_strictly_increases,
    lemma_pow2_unfold, pow2,
};
use vstd::prelude::*;

verus! {

/// A double-precision number.
#[derive(Clone, Copy, Debug)]
pub struct Double {
    /// The sign bit, the eleven exponent bits and the fifty-two fraction bits.
    pub bits: u64,
}

/// The multiple of 2^-1074 that is one.
pub open spec fn one() -> nat {
    pow2(1074)
}

/// The size of the number whose bits, but for the sign, are `magnitude`.
pub open spec fn size_of_magnitude(magnitude: nat) -> nat {
    let exponent = magnitude / 0x10_0000_0000_0000;
    let fraction = magnitude % 0x10_0000_0000_0000;
    if exponent == 0 {
        fraction
    } else {
        (0x10_0000_0000_0000 + fraction) * pow2((exponent - 1) as nat)
    }
}

/// The whole number nearest to `p / q`, and the greater one of two equally near.
pub open spec fn nearest_up(p: nat, q: nat) -> nat {
    ((2 * p + q) / (2 * q)) as nat
}

/// The whole number nearest to `p / q`, and the even one of two equally near.
pub open spec fn nearest_even(p: nat, q: nat) -> nat {
    let below = p / q;
    let rest = p % q;
    if 2 * rest < q || (2 * rest == q && below % 2 == 0) {
        below
    } else {
        below + 1
    }
}

/// `n` hundredths, written with two places.
pub open spec fn two_places(n: nat) -> Seq<char> {
    decimal(n / 100) + seq!['.', digit_char((n / 10) % 10), digit_char(n % 10)]
}

impl Double {
    /// The sign bit is set.
    pub open spec fn negative(self) -> bool {
        self.bits >= 0x8000_0000_0000_0000
    }

    /// All bits but the sign.
    pub open spec fn magnitude(self) -> nat {
        (self.bits % 0x8000_0000_0000_0000) as nat
    }

    /// Not a number.
    pub open spec fn is_nan(self) -> bool {
        self.magnitude() > 0x7ff0_0000_0000_0000
    }

    /// One of the two infinities.
    pub open spec fn is_infinite(self) -> bool {
        self.magnitude() == 0x7ff0_0000_0000_0000
    }

    /// A finite number.
    pub open spec fn is_finite(self) -> bool {
        self.magnitude() < 0x7ff0_0000_0000_0000
    }

    /// The absolute value, in units of 2^-1074. For an infinity this is a value
    /// above that of every finite number.
    pub open spec fn size(self) -> nat {
        size_of_magnitude(self.magnitude())
    }

    /// The value, in units of 2^-1074.
    pub open spec fn value(self) -> int {
        if self.negative() {
            -(self.size() as int)
        } else {
            self.size() as int
        }
    }

    /// A finite number without a fractional part.
    pub open spec fn is_whole(self) -> bool {
        self.is_finite() && self.size() % one() == 0
    }

    /// The nearest `i64`, halves away from zero; the nearest bound where the number
    /// is out of range, and zero for what is not a number.
    pub open spec fn rounded(self) -> int {
        let nearest = nearest_up(self.size(), one()) as int;
        if self.is_nan() {
            0
        } else if self.negative() {
            if nearest > 0x8000_0000_0000_0000 {
                -0x8000_0000_0000_0000
            } else {
                -nearest
            }
        } else if nearest > 0x7fff_ffff_ffff_ffff {
            0x7fff_ffff_ffff_ffff
        } else {
            nearest
        }
    }

    /// The sign as it is written.
    pub open spec fn sign_text(self) -> Seq<char> {
        if self.negative() {
            "-"@
        } else {
            ""@
        }
    }

    /// The number written with two places, halves to even.
    pub open spec fn two_place_text(self) -> Seq<char> {
        if self.is_nan() {
            "NaN"@
        } else if self.is_infinite() {
            self.sign_text() + "inf"@
        } else {
            self.sign_text() + two_places(nearest_even(self.size() * 100, one()))
        }
    }

    /// A whole number written without places.
    pub open spec fn whole_text(self) -> Seq<char> {
        self.sign_text() + decimal(self.size() / one())
    }
}

/// How two numbers compare; nothing where one of them is not a number.
pub open spec fn order_of(left: Double, right: Double) -> Option<Ordering> {
    if left.is_nan() || right.is_nan() {
        None
    } else if left.value() < right.value() {
        Some(Ordering::Less)
    } else if left.value() == right.value() {
        Some(Ordering::Equal)
    } else {
        Some(Ordering::Greater)
    }
}

/// Two optional numbers are equal as values. What is not a number equals nothing.
pub open spec fn same_optional(left: Option<Double>, right: Option<Double>) -> bool {
    match (left, right) {
        (Some(l), Some(r)) => order_of(l, r) == Some(Ordering::Equal),
        (None, None) => true,
        _ => false,
    }
}

/// A greater magnitude is a greater size.
pub proof fn lemma_size_increases(a: nat, b: nat)
    requires
        a < b,
    ensures
        size_of_magnitude(a) < size_of_magnitude(b),
{
    let m: nat = 0x10_0000_0000_0000;
    let (ea, fa) = (a / m, a % m);
    let (eb, fb) = (b / m, b % m);
    lemma2_to64();
    lemma2_to64_rest();
    assert(ea <= eb);
    if ea == eb {
        assert(fa < fb);
        if ea > 0 {
            lemma_pow2_pos((ea - 1) as nat);
            let p = pow2((ea - 1) as nat);
            assert((m + fa) * p < (m + fb) * p) by (nonlinear_arith)
                requires
                    fa < fb,
                    p > 0,
            ;
        }
    } else {
        let pb = pow2((eb - 1) as nat);
        lemma_pow2_pos((eb - 1) as nat);
        assert((m + fb) * pb >= m * pb) by (nonlinear_arith)
            requires
                pb > 0,
        ;
        if ea == 0 {
            assert(m * pb >= m) by (nonlinear_arith)
                requires
                    pb > 0,
                    m > 0,
            ;
        } else {
            let pa = pow2((ea - 1) as nat);
            lemma_pow2_pos((ea - 1) as nat);
            lemma_pow2_unfold(ea);
            assert(pow2(ea) == 2 * pa);
            if ea < eb - 1 {
                lemma_pow2_strictly_increases(ea, (eb - 1) as nat);
            }
            assert(pb >= 2 * pa);
            assert((m + fa) * pa < m * pb) by (nonlinear_arith)
                requires
                    fa < m,
                    pb >= 2 * pa,
                    pa > 0,
            ;
        }
    }
}

/// Only zero has no size.
pub proof fn lemma_size_zero(m: nat)
    ensures
        size_of_magnitude(m) == 0 <==> m == 0,
{
    assert(size_of_magnitude(0) == 0);
    if m > 0 {
        lemma_size_increases(0, m);
    }
}

impl Double {
    fn nan(self) -> (b: bool)
        ensures
            b == self.is_nan(),
    {
        self.bits % 0x8000_0000_0000_0000 > 0x7ff0_0000_0000_0000
    }

    /// An integer by which numbers are ordered.
    fn order_key(self) -> (key: i64)
        ensures
            self.negative() ==> key == -(self.magnitude() as int),
            !self.negative() ==> key == self.magnitude(),
    {
        let magnitude: u64 = self.bits % 0x8000_0000_0000_0000;
        if self.bits >= 0x8000_0000_0000_0000 {
            -(magnitude as i64)
        } else {
            magnitude as i64
        }
    }

    /// How two numbers compare.
    pub fn partial_order(self, other: Double) -> (order: Option<Ordering>)
        ensures
            order == order_of(self, other),
    {
        if self.nan() || other.nan() {
            return None;
        }
        let left: i64 = self.order_key();
        let right: i64 = other.order_key();
        proof {
            let (a, b) = (self.magnitude(), other.magnitude());
            if a < b {
                lemma_size_increases(a, b);
            }
            if b < a {
                lemma_size_increases(b, a);
            }
            lemma_size_zero(a);
            lemma_size_zero(b);
        }
        if left < right {
            Some(Ordering::Less)
        } else if left == right {
            Some(Ordering::Equal)
        } else {
            Some(Ordering::Greater)
        }
    }
}

/// Whether two optional numbers are equal as values.
pub fn equal_optional(left: Option<Double>, right: Option<Double>) -> (same: bool)
    ensures
        same == same_optional(left, right),
{
    match (left, right) {
        (Some(l), Some(r)) => match l.partial_order(r) {
            Some(Ordering::Equal) => true,
            _ => false,
        },
        (None, None) => true,
        _ => false,
    }
}

proof fn lemma_nearest_up_scaled(p: nat, q: nat, c: nat)
    requires
        q > 0,
        c > 0,
    ensures
        nearest_up(p * c, q * c) == nearest_up(p, q),
{
    lemma_div_multiples_vanish_quotient(c as int, (2 * p + q) as int, (2 * q) as int);
    assert(c * (2 * p + q) == 2 * (p * c) + q * c) by (nonlinear_arith);
    assert(c * (2 * q) == 2 * (q * c)) by (nonlinear_arith);
}

proof fn lemma_nearest_even_scaled(p: nat, q: nat, c: nat)
    requires
        q > 0,
        c > 0,
    ensures
        nearest_even(p * c, q * c) == nearest_even(p, q),
{
    lemma_div_multiples_vanish_quotient(c as int, p as int, q as int);
    lemma_truncate_middle(p as int, c as int, q as int);
    assert(c * p == p * c) by (nonlinear_arith);
    assert(c * q == q * c) by (nonlinear_arith);
    let r = p % q;
    assert((p * c) % (q * c) == c * r);
    assert(2 * (c * r) < q * c <==> 2 * r < q) by (nonlinear_arith)
        requires
            c > 0,
    ;
    assert(2 * (c * r) == q * c <==> 2 * r == q) by (nonlinear_arith)
        requires
            c > 0,
    ;
}

/// Rounding a whole number changes nothing.
proof fn lemma_nearest_whole(n: nat, q: nat)
    requires
        q > 0,
    ensures
        nearest_even(n * q, q) == n,
        nearest_up(n * q, q) == n,
        (n * q) / q == n,
        (n * q) % q == 0,
{
    lemma_nearest_even_scaled(n, 1, q);
    lemma_nearest_up_scaled(n, 1, q);
    assert(1 * q == q);
    assert(nearest_up(n, 1) == (2 * n + 1) / 2);
    vstd::arithmetic::div_mod::lemma_div_by_multiple(n as int, q as int);
    vstd::arithmetic::div_mod::lemma_mod_multiples_basic(n as int, q as int);
}

/// The power of two with exponent `k`.
fn power_of_two(k: u32) -> (p: u64)
    requires
        k < 64,
    ensures
        p == pow2(k as nat),
{
    proof {
        lemma2_to64();
        lemma2_to64_rest();
        if k < 63 {
            lemma_pow2_strictly_increases(k as nat, 63);
        }
        vstd::bits::lemma_u64_shl_is_mul(1, k as u64);
    }
    1u64 << (k as u64)
}

impl Double {
    /// The significand and the exponent of a finite number.
    fn parts(self) -> (parts: (u64, u32))
        requires
            self.is_finite(),
        ensures
            parts.0 < 0x20_0000_0000_0000,
            parts.1 <= 2045,
            self.size() == parts.0 * pow2(parts.1 as nat),
            self.magnitude() >= 0x43e0_0000_0000_0000 <==> parts.1 >= 1085,
            parts.1 >= 1085 ==> parts.0 >= 0x10_0000_0000_0000,
    {
        let magnitude: u64 = self.bits % 0x8000_0000_0000_0000;
        let exponent: u64 = magnitude / 0x10_0000_0000_0000;
        let fraction: u64 = magnitude % 0x10_0000_0000_0000;
        proof {
            lemma2_to64();
        }
        if exponent == 0 {
            assert(fraction * pow2(0) == fraction);
            (fraction, 0)
        } else {
            (0x10_0000_0000_0000 + fraction, (exponent - 1) as u32)
        }
    }

    /// The absolute value rounded to a whole number, for a number below 2^63.
    fn nearest_size(self) -> (n: u64)
        requires
            self.magnitude() < 0x43e0_0000_0000_0000,
        ensures
            n == nearest_up(self.size(), one()),
            n <= 0x8000_0000_0000_0000,
    {
        let (significand, shift) = self.parts();
        proof {
            lemma2_to64();
            lemma2_to64_rest();
            lemma_pow2_pos(shift as nat);
            lemma_pow2_pos(1074);
        }
        if shift >= 1074 {
            let k: u32 = shift - 1074;
            let factor: u64 = power_of_two(k);
            proof {
                if k < 10 {
                    lemma_pow2_strictly_increases(k as nat, 10);
                }
                lemma_pow2_adds(k as nat, 1074);
                let (s, f, o) = (significand as nat, factor as nat, one());
                assert(s * (f * o) == (s * f) * o) by (nonlinear_arith);
                lemma_nearest_whole(s * f, o);
                assert(s * f <= 0x20_0000_0000_0000 * 1024) by (nonlinear_arith)
                    requires
                        s < 0x20_0000_0000_0000,
                        f <= 1024,
                ;
            }
            significand * factor
        } else {
            let k: u32 = 1074 - shift;
            proof {
                lemma_pow2_adds(k as nat, shift as nat);
                lemma_pow2_pos(k as nat);
                lemma_nearest_up_scaled(significand as nat, pow2(k as nat), pow2(shift as nat));
            }
            if k >= 54 {
                proof {
                    if k > 54 {
                        lemma_pow2_strictly_increases(54, k as nat);
                    }
                    let q = pow2(k as nat);
                    assert((2 * significand + q) / (2 * q as int) == 0) by (nonlinear_arith)
                        requires
                            2 * significand < q,
                            q > 0,
                    ;
                }
                0
            } else {
                let unit: u64 = power_of_two(k);
                proof {
                    if k < 53 {
                        lemma_pow2_strictly_increases(k as nat, 53);
                    }
                    lemma_pow2_unfold(k as nat);
                    let half = pow2((k - 1) as nat);
                    lemma_pow2_pos((k - 1) as nat);
                    lemma_div_multiples_vanish_quotient(
                        2,
                        significand + half,
                        unit as int,
                    );
                }
                (significand + unit / 2) / unit
            }
        }
    }

    /// The nearest `i64`.
    pub fn round(self) -> (n: i64)
        ensures
            n == self.rounded(),
    {
        if self.nan() {
            return 0;
        }
        let negative: bool = self.bits >= 0x8000_0000_0000_0000;
        let magnitude: u64 = self.bits % 0x8000_0000_0000_0000;
        if magnitude >= 0x43e0_0000_0000_0000 {
            proof {
                self.lemma_large();
            }
            if negative {
                i64::MIN
            } else {
                i64::MAX
            }
        } else {
            let n: u64 = self.nearest_size();
            if negative {
                (-(n as i128)) as i64
            } else if n > 0x7fff_ffff_ffff_ffff {
                i64::MAX
            } else {
                n as i64
            }
        }
    }

    /// A number of at least 2^63 rounds to at least that.
    proof fn lemma_large(self)
        requires
            self.magnitude() >= 0x43e0_0000_0000_0000,
        ensures
            nearest_up(self.size(), one()) >= 0x8000_0000_0000_0000,
    {
        let least: nat = 0x43e0_0000_0000_0000;
        if self.magnitude() > least {
            lemma_size_increases(least, self.magnitude());
        }
        lemma2_to64();
        lemma2_to64_rest();
        lemma_pow2_adds(11, 1074);
        lemma_pow2_pos(1074);
        let o = one();
        assert(least / 0x10_0000_0000_0000 == 1086);
        assert(least % 0x10_0000_0000_0000 == 0);
        assert(size_of_magnitude(least) == 0x10_0000_0000_0000 * pow2(1085));
        assert(pow2(1085) == 2048 * o);
        assert(size_of_magnitude(least) == 0x8000_0000_0000_0000 * o);
        lemma_nearest_whole(0x8000_0000_0000_0000, o);
        vstd::arithmetic::div_mod::lemma_div_is_ordered(
            (2 * size_of_magnitude(least) + o) as int,
            (2 * self.size() + o) as int,
            (2 * o) as int,
        );
    }

    /// The digits of the number times `scale`, rounded to a whole number.
    fn scaled_digits(self, scale: u64) -> (digits: Vec<u8>)
        requires
            self.is_finite(),
            scale == 1 || scale == 100,
        ensures
            canonical(digits@),
            digits_value(digits@) == nearest_even(self.size() * scale as nat, one()),
    {
        let (significand, shift) = self.parts();
        let p: u64 = significand * scale;
        proof {
            lemma2_to64();
            lemma2_to64_rest();
            lemma_pow2_pos(shift as nat);
            lemma_pow2_pos(1074);
            let (s, c, w) = (significand as nat, scale as nat, pow2(shift as nat));
            assert((s * w) * c == (s * c) * w) by (nonlinear_arith);
        }
        if shift >= 1074 {
            let mut digits = digits_of(p);
            let times: u32 = shift - 1074;
            let mut i: u32 = 0;
            proof {
                assert(p * pow2(0) == p);
            }
            while i < times
                invariant
                    i <= times,
                    canonical(digits@),
                    digits_value(digits@) == p * pow2(i as nat),
                decreases times - i,
            {
                digits = doubled(&digits);
                proof {
                    lemma_pow2_unfold((i + 1) as nat);
                    let w = pow2(i as nat);
                    assert(2 * (p * w) == p * (2 * w)) by (nonlinear_arith);
                }
                i += 1;
            }
            proof {
                lemma_pow2_adds(times as nat, 1074);
                let (t, o) = (pow2(times as nat), one());
                assert((p as nat) * (t * o) == (p as nat * t) * o) by (nonlinear_arith);
                lemma_nearest_whole(p as nat * t, o);
            }
            digits
        } else {
            let k: u32 = 1074 - shift;
            proof {
                lemma_pow2_adds(k as nat, shift as nat);
                lemma_pow2_pos(k as nat);
                lemma_nearest_even_scaled(p as nat, pow2(k as nat), pow2(shift as nat));
            }
            if k >= 61 {
                proof {
                    if k > 61 {
                        lemma_pow2_strictly_increases(61, k as nat);
                    }
                    let q = pow2(k as nat);
                    assert(2 * p < q);
                    vstd::arithmetic::div_mod::lemma_small_mod(p as nat, q);
                    vstd::arithmetic::div_mod::lemma_basic_div(p as int, q as int);
                }
                digits_of(0)
            } else {
                let q: u64 = power_of_two(k);
                proof {
                    if k < 60 {
                        lemma_pow2_strictly_increases(k as nat, 60);
                    }
                }
                let below: u64 = p / q;
                let rest: u64 = p % q;
                proof {
                    assert(below <= p) by (nonlinear_arith)
                        requires
                            below == p / q,
                            q > 0,
                    ;
                }
                if 2 * rest < q || (2 * rest == q && below % 2 == 0) {
                    digits_of(below)
                } else {
                    digits_of(below + 1)
                }
            }
        }
    }

    /// The number written with two places.
    pub fn two_place_string(self) -> (s: String)
        ensures
            s@ == self.two_place_text(),
    {
        let mut s = String::new();
        if self.nan() {
            s.append("NaN");
            assert(s@ =~= "NaN"@);
            return s;
        }
        if self.bits >= 0x8000_0000_0000_0000 {
            s.append("-");
        } else {
            s.append("");
        }
        assert(s@ =~= self.sign_text());
        if self.bits % 0x8000_0000_0000_0000 == 0x7ff0_0000_0000_0000 {
            s.append("inf");
            return s;
        }
        let digits = self.scaled_digits(100);
        let tens: u8 = if digits.len() > 1 {
            digits[1]
        } else {
            0
        };
        proof {
            let d = digits@;
            assert(d.skip(0) =~= d);
            lemma_skip_value(d, 0);
            if d.len() > 1 {
                lemma_skip_value(d, 1);
            }
            assert(d.skip(d.len() as int) =~= Seq::<u8>::empty());
            assert(digits_value(Seq::<u8>::empty()) == 0);
        }
        push_digits(&mut s, &digits, 2);
        s.push('.');
        s.push(char_of_digit(tens));
        s.push(char_of_digit(digits[0]));
        proof {
            let n = digits_value(digits@);
            assert(n % 10 == digits@[0] as nat);
            assert((n / 10) % 10 == tens as nat);
            assert(s@ =~= self.sign_text() + two_places(n));
        }
        s
    }

    /// Whether the number is finite and has no fractional part.
    pub fn whole(self) -> (b: bool)
        ensures
            b == self.is_whole(),
    {
        if self.bits % 0x8000_0000_0000_0000 >= 0x7ff0_0000_0000_0000 {
            return false;
        }
        let (significand, shift) = self.parts();
        proof {
            lemma2_to64();
            lemma2_to64_rest();
            lemma_pow2_pos(shift as nat);
            lemma_pow2_pos(1074);
        }
        if shift >= 1074 {
            proof {
                let k = (shift - 1074) as nat;
                lemma_pow2_adds(k, 1074);
                let (s, f, o) = (significand as nat, pow2(k), one());
                assert(s * (f * o) == (s * f) * o) by (nonlinear_arith);
                lemma_nearest_whole(s * f, o);
            }
            true
        } else {
            let k: u32 = 1074 - shift;
            proof {
                let (q, w) = (pow2(k as nat), pow2(shift as nat));
                lemma_pow2_adds(k as nat, shift as nat);
                lemma_pow2_pos(k as nat);
                lemma_truncate_middle(significand as int, w as int, q as int);
                assert(w * significand == significand * w) by (nonlinear_arith);
                assert(w * q == q * w) by (nonlinear_arith);
                let r = (significand as nat) % q;
                assert(w * r == 0 <==> r == 0) by (nonlinear_arith)
                    requires
                        w > 0,
                ;
            }
            if k >= 53 {
                proof {
                    if k > 53 {
                        lemma_pow2_strictly_increases(53, k as nat);
                    }
                    vstd::arithmetic::div_mod::lemma_small_mod(
                        significand as nat,
                        pow2(k as nat),
                    );
                }
                significand == 0
            } else {
                significand % power_of_two(k) == 0
            }
        }
    }

    /// A whole number written without places.
    pub fn whole_string(self) -> (s: String)
        requires
            self.is_whole(),
        ensures
            s@ == self.whole_text(),
    {
        let mut s = String::new();
        if self.bits >= 0x8000_0000_0000_0000 {
            s.append("-");
        } else {
            s.append("");
        }
        assert(s@ =~= self.sign_text());
        let digits = self.scaled_digits(1);
        proof {
            lemma_pow2_pos(1074);
            assert(digits@.skip(0) =~= digits@);
        }
        push_digits(&mut s, &digits, 0);
        s
    }
}

/// Numbers without a sign are ordered as their bits are, those with one the other way
/// round, and every one with a sign comes before every one without, but for the two zeros,
/// which are equal. What is not a number has no order.
pub proof fn law_order_follows_bits(left: Double, right: Double)
    ensures
        left.is_nan() || right.is_nan() ==> order_of(left, right) is None,
        !left.is_nan() && !right.is_nan() && left.bits < 0x8000_0000_0000_0000 && right.bits
            < 0x8000_0000_0000_0000 ==> {
            &&& left.bits < right.bits ==> order_of(left, right) == Some(Ordering::Less)
            &&& left.bits == right.bits ==> order_of(left, right) == Some(Ordering::Equal)
            &&& left.bits > right.bits ==> order_of(left, right) == Some(Ordering::Greater)
        },
        !left.is_nan() && !right.is_nan() && left.bits >= 0x8000_0000_0000_0000 && right.bits
            >= 0x8000_0000_0000_0000 ==> {
            &&& left.bits < right.bits ==> order_of(left, right) == Some(Ordering::Greater)
            &&& left.bits == right.bits ==> order_of(left, right) == Some(Ordering::Equal)
            &&& left.bits > right.bits ==> order_of(left, right) == Some(Ordering::Less)
        },
        !left.is_nan() && !right.is_nan() && left.bits >= 0x8000_0000_0000_0000 && right.bits
            < 0x8000_0000_0000_0000 ==> {
            let zeros = left.bits == 0x8000_0000_0000_0000 && right.bits == 0;
            &&& zeros ==> order_of(left, right) == Some(Ordering::Equal) && order_of(right, left)
                == Some(Ordering::Equal)
            &&& !zeros ==> order_of(left, right) == Some(Ordering::Less) && order_of(right, left)
                == Some(Ordering::Greater)
        },
{
    let (a, b) = (left.magnitude(), right.magnitude());
    if a < b {
        lemma_size_increases(a, b);
    }
    if b < a {
        lemma_size_increases(b, a);
    }
    lemma_size_zero(a);
    lemma_size_zero(b);
}

/// Two optional numbers are equal where both are missing, or both are there and neither
/// comes before the other.
pub proof fn law_equal_numbers(left: Option<Double>, right: Option<Double>)
    ensures
        same_optional(left, right) <==> (left is None && right is None) || (left is Some && right
            is Some && !left->0.is_nan() && !right->0.is_nan() && left->0.value()
            == right->0.value()),
{
}

/// The eleven bits after the sign tell infinities, and what is not a number, from numbers:
/// there they are all set, and only in an infinity no other bit is.
pub proof fn law_kinds_of_numbers(number: Double)
    ensures
        number.is_finite() <==> (number.bits / 0x10_0000_0000_0000) % 2048 != 2047,
        number.is_infinite() <==> (number.bits / 0x10_0000_0000_0000) % 2048 == 2047 && number.bits
            % 0x10_0000_0000_0000 == 0,
        number.is_nan() <==> (number.bits / 0x10_0000_0000_0000) % 2048 == 2047 && number.bits
            % 0x10_0000_0000_0000 != 0,
        number.negative() <==> number.bits / 0x8000_0000_0000_0000 == 1,
{
}

/// The smallest magnitudes are their own size; from there on, each step of the exponent
/// doubles the size.
pub proof fn law_exponent_doubles_the_size(magnitude: nat)
    ensures
        magnitude < 0x20_0000_0000_0000 ==> size_of_magnitude(magnitude) == magnitude,
        magnitude >= 0x10_0000_0000_0000 ==> size_of_magnitude(magnitude + 0x10_0000_0000_0000)
            == 2 * size_of_magnitude(magnitude),
{
    let m: nat = 0x10_0000_0000_0000;
    lemma2_to64();
    let (e, f) = (magnitude / m, magnitude % m);
    if magnitude < m {
        assert(e == 0);
    } else {
        assert((magnitude + m) / m == e + 1);
        assert((magnitude + m) % m == f);
        lemma_pow2_unfold(e);
        let w = pow2((e - 1) as nat);
        assert((m + f) * (2 * w) == 2 * ((m + f) * w)) by (nonlinear_arith);
        if magnitude < 2 * m {
            assert(e == 1);
            assert((m + f) * 1 == m + f);
        }
    }
}

/// The sign of a value is the sign bit, and the two signs of a size are opposite values.
pub proof fn law_sign_turns_the_value(number: Double, other: Double)
    requires
        number.bits < 0x8000_0000_0000_0000,
        other.bits == number.bits + 0x8000_0000_0000_0000,
    ensures
        number.value() == size_of_magnitude(number.bits as nat),
        other.value() == -number.value(),
{
}

} // verus!
