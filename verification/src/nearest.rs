//! The double nearest to a ratio of two whole numbers.

use crate::digits::{canonical, difference, digits_value, doubled, less};
use crate::double::{lemma_size_increases, nearest_even, one, size_of_magnitude};
use vstd::arithmetic::div_mod::lemma_fundamental_div_mod_converse;
use vstd::arithmetic::power2::{
    lemma2_to64, lemma2_to64_rest, lemma_pow2_adds, lemma_pow2_pos, lemma_pow2_strictly_increases,
    lemma_pow2_unfold, pow2,
};
use vstd::prelude::*;

verus! {

/// The magnitude of infinity.
pub open spec fn infinite() -> nat {
    0x7ff0_0000_0000_0000
}

/// No magnitude is nearer to `p / q` than `m`, and of two equally near ones `m` is the
/// even one. Beyond the greatest finite number lies infinity, at the place where the
/// next number would be.
pub open spec fn is_nearest(p: nat, q: nat, m: nat) -> bool {
    let twice = 2 * (p * one());
    &&& m <= infinite()
    &&& m > 0 ==> {
        let middle = q * (size_of_magnitude((m - 1) as nat) + size_of_magnitude(m));
        twice > middle || (twice == middle && m % 2 == 0)
    }
    &&& m < infinite() ==> {
        let middle = q * (size_of_magnitude(m) + size_of_magnitude(m + 1));
        twice < middle || (twice == middle && m % 2 == 0)
    }
}

/// The magnitude of the double nearest to `p / q`.
pub open spec fn nearest_magnitude(p: nat, q: nat) -> nat {
    choose|m: nat| is_nearest(p, q, m)
}

/// There is one nearest magnitude.
pub proof fn lemma_nearest_unique(p: nat, q: nat, m: nat)
    requires
        q > 0,
        is_nearest(p, q, m),
    ensures
        nearest_magnitude(p, q) == m,
{
    let other = nearest_magnitude(p, q);
    assert(is_nearest(p, q, other));
    if m <= other {
        lemma_nearest_same(p, q, m, other);
    } else {
        lemma_nearest_same(p, q, other, m);
    }
}

proof fn lemma_nearest_same(p: nat, q: nat, a: nat, b: nat)
    requires
        q > 0,
        a <= b,
        is_nearest(p, q, a),
        is_nearest(p, q, b),
    ensures
        a == b,
{
    if a < b {
        let (sa, sa1) = (size_of_magnitude(a), size_of_magnitude(a + 1));
        let (sb, sb1) = (size_of_magnitude(b), size_of_magnitude((b - 1) as nat));
        if a + 1 < b {
            lemma_size_increases(a, (b - 1) as nat);
            lemma_size_increases(a + 1, b);
            assert(q * (sa + sa1) < q * (sb1 + sb)) by (nonlinear_arith)
                requires
                    q > 0,
                    sa < sb1,
                    sa1 < sb,
            ;
        } else {
            assert(q * (sa + sa1) == q * (sb1 + sb));
        }
    }
}

/// The size of a magnitude that is made of a shift and a significand.
proof fn lemma_size_at(s: nat, m: nat)
    requires
        m <= 0x20_0000_0000_0000,
        s > 0 ==> m >= 0x10_0000_0000_0000,
    ensures
        size_of_magnitude(s * 0x10_0000_0000_0000 + m) == m * pow2(s),
{
    let u: nat = 0x10_0000_0000_0000;
    let magnitude = s * u + m;
    lemma2_to64();
    if m < u {
        assert(magnitude / u == 0);
        assert(m * pow2(0) == m);
    } else if m < 2 * u {
        assert(magnitude == (s + 1) * u + (m - u));
        assert(magnitude / u == s + 1);
        assert(magnitude % u == m - u);
    } else {
        assert(magnitude == (s + 2) * u);
        assert(magnitude / u == s + 2);
        assert(magnitude % u == 0);
        lemma_pow2_unfold(s + 1);
        let w = pow2(s);
        assert(u * (2 * w) == (2 * u) * w) by (nonlinear_arith);
    }
}

/// The shift `s` brings `p / q` into the range of a significand.
spec fn is_shift(p: nat, q: nat, s: nat) -> bool {
    &&& p * one() < q * pow2(53 + s)
    &&& s > 0 ==> p * one() >= q * pow2(52 + s)
}

/// A value in reach of infinity is nearest to it.
pub proof fn lemma_reaches_infinity(p: nat, q: nat, s: nat)
    requires
        q > 0,
        s >= 2046,
        p * one() >= q * pow2(52 + s),
    ensures
        is_nearest(p, q, infinite()),
{
    let top = size_of_magnitude(infinite());
    let below = size_of_magnitude((infinite() - 1) as nat);
    lemma2_to64();
    lemma2_to64_rest();
    lemma_size_increases((infinite() - 1) as nat, infinite());
    assert(infinite() / 0x10_0000_0000_0000 == 2047);
    assert(infinite() % 0x10_0000_0000_0000 == 0);
    lemma_pow2_adds(52, 2046);
    assert(top == pow2(2098));
    if s > 2046 {
        lemma_pow2_strictly_increases(2098, 52 + s);
    }
    let w = pow2(52 + s);
    assert(2 * (q * w) > q * (below + top)) by (nonlinear_arith)
        requires
            q > 0,
            below < top <= w,
    ;
}

/// Rounding the significand gives the nearest magnitude.
proof fn lemma_rounded_significand(p: nat, q: nat, s: nat)
    requires
        q > 0,
        s <= 2046,
        is_shift(p, q, s),
    ensures
        ({
            let m = nearest_even(p * one(), q * pow2(s));
            let magnitude = s * 0x10_0000_0000_0000 + m;
            &&& m <= 0x20_0000_0000_0000
            &&& is_nearest(p, q, if magnitude < infinite() { magnitude } else { infinite() })
        }),
{
    let u: nat = 0x10_0000_0000_0000;
    let x = p * one();
    let w = pow2(s);
    let d = q * w;
    let below = x / d;
    let rest = x % d;
    let m = nearest_even(x, d);
    let magnitude = s * u + m;
    lemma2_to64();
    lemma2_to64_rest();
    lemma_pow2_pos(s);
    lemma_pow2_adds(53, s);
    lemma_pow2_adds(52, s);
    assert(d > 0) by (nonlinear_arith)
        requires
            q > 0,
            w > 0,
            d == q * w,
    ;
    vstd::arithmetic::div_mod::lemma_fundamental_div_mod(x as int, d as int);
    vstd::arithmetic::div_mod::lemma_mod_bound(x as int, d as int);
    assert(x == d * below + rest);
    assert(x < d * (2 * u)) by (nonlinear_arith)
        requires
            x < q * ((2 * u) * w),
            d == q * w,
    ;
    assert(below < 2 * u) by (nonlinear_arith)
        requires
            x == d * below + rest,
            x < d * (2 * u),
            d > 0,
    ;
    assert(m <= 2 * u);
    if s > 0 {
        assert(x >= d * u) by (nonlinear_arith)
            requires
                x >= q * (u * w),
                d == q * w,
        ;
        assert(below >= u) by (nonlinear_arith)
            requires
                x == d * below + rest,
                x >= d * u,
                rest < d,
                d > 0,
        ;
    }
    lemma_size_at(s, m);
    assert(magnitude % 2 == m % 2);
    let size = size_of_magnitude(magnitude);
    assert(size == m * w);
    // How far the value lies from the significand that was chosen.
    assert(2 * x <= d * (2 * m + 1)) by (nonlinear_arith)
        requires
            x == d * below + rest,
            rest < d,
            (m == below && 2 * rest <= d) || m == below + 1,
    ;
    assert(2 * x + d >= d * (2 * m)) by (nonlinear_arith)
        requires
            x == d * below + rest,
            (m == below) || (m == below + 1 && 2 * rest >= d),
    ;
    if 2 * x == d * (2 * m + 1) || 2 * x + d == d * (2 * m) {
        assert(2 * rest == d) by (nonlinear_arith)
            requires
                x == d * below + rest,
                rest < d,
                d > 0,
                m == below || m == below + 1,
                m == below ==> 2 * rest <= d,
                m == below + 1 ==> 2 * rest >= d,
                2 * x == d * (2 * m + 1) || 2 * x + d == d * (2 * m),
        ;
        assert(m % 2 == 0);
    }
    // The neighbour below.
    if m > 0 || s > 0 {
        let prior = (magnitude - 1) as nat;
        let prior_size = size_of_magnitude(prior);
        if s == 0 || m > u {
            lemma_size_at(s, (m - 1) as nat);
            assert(prior_size == (m - 1) * w);
            assert(q * (prior_size + size) == d * (2 * m) - d) by (nonlinear_arith)
                requires
                    prior_size == (m - 1) * w,
                    size == m * w,
                    d == q * w,
            ;
        } else {
            lemma_size_increases(prior, magnitude);
            assert(2 * x > q * (prior_size + size)) by (nonlinear_arith)
                requires
                    x >= d * u,
                    d == q * w,
                    size == u * w,
                    prior_size < size,
                    q > 0,
            ;
        }
    }
    // The neighbour above.
    let next_size = size_of_magnitude(magnitude + 1);
    if m < 2 * u {
        lemma_size_at(s, m + 1);
        assert(next_size == (m + 1) * w);
        assert(q * (size + next_size) == d * (2 * m + 1)) by (nonlinear_arith)
            requires
                next_size == (m + 1) * w,
                size == m * w,
                d == q * w,
        ;
    } else {
        lemma_size_increases(magnitude, magnitude + 1);
        assert(2 * x < q * (size + next_size)) by (nonlinear_arith)
            requires
                x < d * (2 * u),
                d == q * w,
                size == (2 * u) * w,
                next_size > size,
                q > 0,
        ;
    }
    if magnitude > infinite() {
        assert(s == 2046);
        lemma_reaches_infinity(p, q, s);
    }
}

/// The number doubled `times` times.
fn doubled_times(digits: &Vec<u8>, times: u32) -> (product: Vec<u8>)
    requires
        canonical(digits@),
    ensures
        canonical(product@),
        digits_value(product@) == digits_value(digits@) * pow2(times as nat),
{
    let mut product = copy_of(digits);
    let mut i: u32 = 0;
    proof {
        lemma2_to64();
        assert(digits_value(digits@) * 1 == digits_value(digits@));
    }
    while i < times
        invariant
            i <= times,
            canonical(product@),
            digits_value(product@) == digits_value(digits@) * pow2(i as nat),
        decreases times - i,
    {
        product = doubled(&product);
        proof {
            lemma_pow2_unfold((i + 1) as nat);
            let (v, w) = (digits_value(digits@), pow2(i as nat));
            assert(2 * (v * w) == v * (2 * w)) by (nonlinear_arith);
        }
        i += 1;
    }
    product
}

/// A copy of the digits.
fn copy_of(digits: &Vec<u8>) -> (copy: Vec<u8>)
    ensures
        copy@ == digits@,
{
    let mut copy: Vec<u8> = Vec::new();
    let mut i: usize = 0;
    while i < digits.len()
        invariant
            i <= digits@.len(),
            copy@ == digits@.take(i as int),
        decreases digits@.len() - i,
    {
        copy.push(digits[i]);
        i += 1;
        assert(digits@.take(i as int) =~= digits@.take(i - 1).push(digits@[i - 1]));
    }
    assert(digits@.take(i as int) =~= digits@);
    copy
}

/// The magnitude of the double nearest to the ratio of two numbers.
pub fn nearest_of_ratio(top: &Vec<u8>, bottom: &Vec<u8>) -> (magnitude: u64)
    requires
        canonical(top@),
        canonical(bottom@),
        digits_value(bottom@) > 0,
    ensures
        is_nearest(digits_value(top@), digits_value(bottom@), magnitude as nat),
{
    let ghost p = digits_value(top@);
    let ghost q = digits_value(bottom@);
    let x = doubled_times(top, 1074);
    let mut limit = doubled_times(bottom, 53);
    let mut shift: u64 = 0;
    while shift < 2047 && !less(&x, &limit)
        invariant
            canonical(x@),
            canonical(limit@),
            shift <= 2047,
            digits_value(x@) == p * one(),
            digits_value(limit@) == q * pow2(53 + shift as nat),
            shift > 0 ==> p * one() >= q * pow2((52 + shift) as nat),
        decreases 2047 - shift,
    {
        limit = doubled(&limit);
        proof {
            let w = pow2((53 + shift) as nat);
            lemma_pow2_unfold((54 + shift) as nat);
            assert(2 * (q * w) == q * (2 * w)) by (nonlinear_arith);
        }
        shift += 1;
    }
    if shift == 2047 {
        proof {
            lemma_reaches_infinity(p, q, 2047);
        }
        return 0x7ff0_0000_0000_0000;
    }
    let mut rest = copy_of(&x);
    let mut significand: u64 = 0;
    let mut i: u32 = 0;
    let ghost (v, t) = (digits_value(x@), digits_value(limit@));
    proof {
        lemma2_to64();
        lemma2_to64_rest();
        assert(v * pow2(0) == v);
        assert(0 * t == 0);
    }
    while i < 53
        invariant
            i <= 53,
            canonical(rest@),
            canonical(limit@),
            digits_value(limit@) == t,
            digits_value(rest@) < t,
            v * pow2(i as nat) == significand * t + digits_value(rest@),
            significand < pow2(i as nat),
            i < 53 ==> pow2(i as nat) <= 0x10_0000_0000_0000,
            pow2(53) == 0x20_0000_0000_0000,
        decreases 53 - i,
    {
        let ghost r = digits_value(rest@);
        let ghost w = pow2(i as nat);
        let ghost before = significand;
        rest = doubled(&rest);
        significand = 2 * significand;
        if !less(&rest, &limit) {
            rest = difference(&rest, &limit);
            significand = significand + 1;
        }
        proof {
            lemma_pow2_unfold((i + 1) as nat);
            if i + 1 < 52 {
                lemma_pow2_strictly_increases((i + 1) as nat, 52);
            }
            lemma2_to64();
            lemma2_to64_rest();
            let more: int = significand - 2 * before;
            assert(v * (2 * w) == significand * t + digits_value(rest@)) by (nonlinear_arith)
                requires
                    v * w == before * t + r,
                    significand == 2 * before + more,
                    digits_value(rest@) == 2 * r - more * t,
            ;
        }
        i += 1;
    }
    let ghost s = shift as nat;
    let ghost d = q * pow2(s);
    let ghost remainder = v - significand * d;
    proof {
        lemma_pow2_adds(53, s);
        lemma_pow2_pos(s);
        let (a, w) = (pow2(53), pow2(s));
        assert(d > 0) by (nonlinear_arith)
            requires
                q > 0,
                w > 0,
                d == q * w,
        ;
        assert(t == a * d) by (nonlinear_arith)
            requires
                t == q * (a * w),
                d == q * w,
        ;
        assert(digits_value(rest@) == a * remainder) by (nonlinear_arith)
            requires
                v * a == significand * t + digits_value(rest@),
                t == a * d,
                remainder == v - significand * d,
        ;
        assert(0 <= remainder < d) by (nonlinear_arith)
            requires
                0 <= a * remainder < a * d,
                a > 0,
        ;
        lemma_fundamental_div_mod_converse(
            v as int,
            d as int,
            significand as int,
            remainder,
        );
        assert(2 * (a * remainder) < a * d <==> 2 * remainder < d) by (nonlinear_arith)
            requires
                a > 0,
        ;
        assert(2 * (a * remainder) == a * d <==> 2 * remainder == d) by (nonlinear_arith)
            requires
                a > 0,
        ;
        lemma_rounded_significand(p, q, s);
    }
    let twice = doubled(&rest);
    let up: bool = if less(&twice, &limit) {
        false
    } else if less(&limit, &twice) {
        true
    } else {
        significand % 2 == 1
    };
    let rounded: u64 = if up {
        significand + 1
    } else {
        significand
    };
    assert(rounded == nearest_even(v, d));
    let magnitude: u64 = shift * 0x10_0000_0000_0000 + rounded;
    if magnitude < 0x7ff0_0000_0000_0000 {
        magnitude
    } else {
        0x7ff0_0000_0000_0000
    }
}

} // verus!
