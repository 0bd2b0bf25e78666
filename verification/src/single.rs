//! Single precision numbers.
//!
//! A single precision number is a whole number of a smallest unit. This module
//! says which whole numbers are, how any other is rounded to one, and does the
//! sums that the motors need, in whole numbers throughout.

use vstd::arithmetic::div_mod::{
    lemma_div_denominator, lemma_fundamental_div_mod, lemma_fundamental_div_mod_converse,
    lemma_truncate_middle,
};
use vstd::prelude::*;

verus! {

/// How far the single precision numbers around `x` units are apart. They have
/// 24 significant bits; below 2^24 units every whole number of units is one.
pub open spec fn quantum(x: int) -> int
    decreases x,
{
    if x < 0x100_0000 {
        1
    } else {
        2 * quantum(x / 2)
    }
}

/// Whether `x` units are a single precision number.
pub open spec fn is_single(x: int) -> bool {
    x % quantum(x) == 0
}

/// The greatest single precision number that is not above `x`.
pub open spec fn floor_single(x: int) -> int {
    x - x % quantum(x)
}

/// `num / den` units rounded to single precision: to the nearer neighbour, and
/// from the middle between two to the one whose last bit is 0.
pub open spec fn nearest_ratio(num: int, den: int) -> int {
    let q = quantum(num / den);
    let low = floor_single(num / den);
    let above = num - low * den;
    if 2 * above < q * den {
        low
    } else if 2 * above > q * den {
        low + q
    } else if (low / q) % 2 == 0 {
        low
    } else {
        low + q
    }
}

/// `x` units rounded to single precision.
pub open spec fn nearest_single(x: int) -> int {
    nearest_ratio(x, 1)
}

/// Halving `x` halves its quantum and the number below it.
pub proof fn lemma_halve(x: int)
    requires
        x >= 0x100_0000,
    ensures
        quantum(x) == 2 * quantum(x / 2),
        quantum(x / 2) > 0,
        floor_single(x) == 2 * floor_single(x / 2),
        x % quantum(x) == 2 * ((x / 2) % quantum(x / 2)) + x % 2,
{
    let h = x / 2;
    let q = quantum(h);
    lemma_quantum_positive(h);
    lemma_div_denominator(x, 2, q);
    lemma_fundamental_div_mod(x, 2 * q);
    lemma_fundamental_div_mod(h, q);
    assert(x == 2 * h + x % 2);
    assert((2 * q) * (h / q) == 2 * (q * (h / q))) by (nonlinear_arith);
}

/// A quantum is positive, and bounds what is left over.
pub proof fn lemma_quantum_positive(x: int)
    ensures
        quantum(x) >= 1,
        x >= 0 ==> 0 <= x % quantum(x) < quantum(x),
    decreases x,
{
    if x >= 0x100_0000 {
        lemma_quantum_positive(x / 2);
    }
    assert(0 <= x % quantum(x) < quantum(x)) by (nonlinear_arith)
        requires
            quantum(x) >= 1,
    ;
}

/// Doubling a single precision number gives one.
pub proof fn lemma_double(y: int)
    requires
        y >= 0,
        is_single(y),
    ensures
        is_single(2 * y),
{
    lemma_quantum_positive(y);
    assert((2 * y) / 2 == y);
    lemma_truncate_middle(y, 2, quantum(y));
}

/// The neighbours of `x`, below and above, are single precision numbers.
pub proof fn lemma_neighbours(x: int)
    requires
        x >= 0,
    ensures
        is_single(floor_single(x)),
        is_single(floor_single(x) + quantum(x)),
        x >= 0x80_0000 ==> floor_single(x) >= 0x80_0000,
        x >= 0x100_0000 ==> floor_single(x) >= 0x100_0000,
        floor_single(x) <= x < floor_single(x) + quantum(x),
    decreases x,
{
    lemma_quantum_positive(x);
    if x >= 0x100_0000 {
        let h = x / 2;
        lemma_neighbours(h);
        lemma_halve(x);
        lemma_double(floor_single(h));
        lemma_double(floor_single(h) + quantum(h));
    } else {
        assert(floor_single(x) == x);
        if x + 1 == 0x100_0000 {
            assert(quantum(0x100_0000) == 2 * quantum(0x80_0000));
            assert(is_single(0x100_0000));
        } else {
            assert(quantum(x + 1) == 1);
        }
    }
}

/// Between the neighbours of `x` there is no further single precision number.
pub proof fn lemma_no_single_between(x: int, s: int)
    requires
        x >= 0,
        is_single(s),
    ensures
        s <= floor_single(x) || s >= floor_single(x) + quantum(x),
    decreases x,
{
    lemma_neighbours(x);
    if x >= 0x100_0000 && floor_single(x) < s < floor_single(x) + quantum(x) {
        let h = x / 2;
        lemma_halve(x);
        lemma_halve(s);
        lemma_quantum_positive(s / 2);
        assert(is_single(s / 2));
        assert(s == 2 * (s / 2));
        lemma_no_single_between(h, s / 2);
    }
}

/// The neighbours of a ratio, and what rounding makes of it.
pub proof fn lemma_nearest_ratio(num: int, den: int)
    requires
        num >= 0,
        den > 0,
    ensures
        ({
            let x = num / den;
            let q = quantum(x);
            let low = floor_single(x);
            &&& 0 <= low
            &&& q >= 1
            &&& low * den <= num < (low + q) * den
            &&& nearest_ratio(num, den) == low || nearest_ratio(num, den) == low + q
            &&& num == low * den ==> nearest_ratio(num, den) == low
            &&& is_single(nearest_ratio(num, den))
        }),
{
    let x = num / den;
    let q = quantum(x);
    let low = floor_single(x);
    lemma_fundamental_div_mod(num, den);
    assert(num >= 0 && den > 0 ==> num / den >= 0) by (nonlinear_arith);
    lemma_quantum_positive(x);
    lemma_neighbours(x);
    assert(low >= 0) by (nonlinear_arith)
        requires
            low == x - x % q,
            x >= 0,
            q >= 1,
    ;
    assert(low * den <= num < (low + q) * den) by (nonlinear_arith)
        requires
            num == den * x + num % den,
            0 <= num % den < den,
            low <= x < low + q,
            den > 0,
    ;
    assert(q * den > 0) by (nonlinear_arith)
        requires
            q >= 1,
            den > 0,
    ;
}

/// Rounding gives a single precision number, and no other one is nearer.
pub proof fn law_nearest_ratio(num: int, den: int, s: int)
    requires
        num >= 0,
        den > 0,
        is_single(s),
    ensures
        is_single(nearest_ratio(num, den)),
        ({
            let off = nearest_ratio(num, den) * den - num;
            let other = s * den - num;
            (off <= other || off <= -other) && (-off <= other || -off <= -other)
        }),
{
    let x = num / den;
    let q = quantum(x);
    let low = floor_single(x);
    lemma_nearest_ratio(num, den);
    lemma_no_single_between(x, s);
    assert((low + q) * den == low * den + q * den) by (nonlinear_arith);
    if s <= low {
        assert(s * den <= low * den) by (nonlinear_arith)
            requires
                s <= low,
                den > 0,
        ;
    } else {
        assert(s * den >= (low + q) * den) by (nonlinear_arith)
            requires
                s >= low + q,
                den > 0,
        ;
    }
}

/// Rounds a ratio of units to single precision.
pub fn round_ratio(num: u128, den: u128) -> (r: u128)
    requires
        num < 0x1_0000_0000_0000_0000_0000_0000,
        0 < den <= 0x100_0000,
    ensures
        r == nearest_ratio(num as int, den as int),
{
    let x: u128 = num / den;
    let mut q: u128 = 1;
    let mut high: u128 = x;
    assert(x <= num) by (nonlinear_arith)
        requires
            x == num / den,
            den > 0,
    ;
    while high >= 0x100_0000
        invariant
            x < 0x1_0000_0000_0000_0000_0000_0000,
            q >= 1,
            quantum(x as int) == q * quantum(high as int),
            q * high <= x,
            q > 1 ==> high >= 0x80_0000,
        decreases high,
    {
        proof {
            lemma_quantum_positive(high as int / 2);
            assert((q * 2) * (high / 2) <= q * high) by (nonlinear_arith)
                requires
                    q >= 1,
            ;
            assert(q <= q * high) by (nonlinear_arith)
                requires
                    high >= 1,
            ;
            let half = quantum(high as int / 2);
            assert(q * (2 * half) == (q * 2) * half) by (nonlinear_arith);
        }
        q = q * 2;
        high = high / 2;
    }
    assert(quantum(x as int) == q);
    proof {
        lemma_nearest_ratio(num as int, den as int);
        lemma_neighbours(x as int);
        assert(q > 1 ==> q * 0x80_0000 <= x) by (nonlinear_arith)
            requires
                q * high <= x,
                q > 1 ==> high >= 0x80_0000,
        ;
        assert(q * den < 0x2_0000_0000_0000_0000_0000_0000) by (nonlinear_arith)
            requires
                q <= 1 || q * 0x80_0000 <= x,
                q >= 1,
                den <= 0x100_0000,
                x < 0x1_0000_0000_0000_0000_0000_0000,
        ;
    }
    let low: u128 = x - x % q;
    proof {
        assert((low + q) * den == low * den + q * den) by (nonlinear_arith);
        assert(low * den >= 0) by (nonlinear_arith);
    }
    let above: u128 = num - low * den;
    if 2 * above < q * den || (2 * above == q * den && (low / q) % 2 == 0) {
        low
    } else {
        low + q
    }
}

/// `x` doubled `n` times.
pub open spec fn scale(x: int, n: nat) -> int
    decreases n,
{
    if n == 0 {
        x
    } else {
        2 * scale(x, (n - 1) as nat)
    }
}

/// Doubling goes part by part and keeps the order.
pub proof fn lemma_scale_sum(x: int, y: int, n: nat)
    ensures
        scale(x + y, n) == scale(x, n) + scale(y, n),
        scale(x - y, n) == scale(x, n) - scale(y, n),
        scale(-x, n) == -scale(x, n),
        scale(2 * x, n) == scale(x, n + 1),
        x >= 0 ==> scale(x, n) >= x,
        x > y ==> scale(x, n) > scale(y, n),
        x >= y ==> scale(x, n) >= scale(y, n),
        scale(0, n) == 0,
    decreases n,
{
    if n > 0 {
        lemma_scale_sum(x, y, (n - 1) as nat);
    }
}

pub proof fn lemma_scale_twice(x: int, a: nat, b: nat)
    ensures
        scale(scale(x, a), b) == scale(x, a + b),
    decreases b,
{
    if b > 0 {
        lemma_scale_twice(x, a, (b - 1) as nat);
    }
}

pub proof fn lemma_scale_product(x: int, k: int, n: nat)
    ensures
        scale(x * k, n) == scale(x, n) * k,
    decreases n,
{
    if n > 0 {
        lemma_scale_product(x, k, (n - 1) as nat);
        let s = scale(x, (n - 1) as nat);
        assert((2 * s) * k == 2 * (s * k)) by (nonlinear_arith);
    }
}

proof fn lemma_scale_8(x: int)
    ensures
        scale(x, 8) == 0x100 * x,
{
    reveal_with_fuel(scale, 9);
}

/// Some powers of two.
pub proof fn lemma_scale_constants()
    ensures
        scale(1, 7) == 0x80,
        scale(1, 23) == 0x80_0000,
        scale(1, 24) == 0x100_0000,
        scale(0x100_0000, 40) == 0x1_0000_0000_0000_0000,
        scale(0x100_0000, 72) == 0x1_0000_0000_0000_0000_0000_0000,
{
    let x: int = 0x100_0000;
    lemma_scale_8(1);
    lemma_scale_8(0x100);
    lemma_scale_8(0x1_0000);
    lemma_scale_twice(1, 8, 8);
    lemma_scale_twice(1, 16, 8);
    assert(scale(1, 24) == 2 * scale(1, 23));
    assert(scale(1, 8) == 2 * scale(1, 7));
    lemma_scale_8(x);
    lemma_scale_8(0x1_0000_0000);
    lemma_scale_8(0x100_0000_0000);
    lemma_scale_8(0x1_0000_0000_0000);
    lemma_scale_8(0x100_0000_0000_0000);
    lemma_scale_8(0x1_0000_0000_0000_0000);
    lemma_scale_8(0x100_0000_0000_0000_0000);
    lemma_scale_8(0x1_0000_0000_0000_0000_0000);
    lemma_scale_8(0x100_0000_0000_0000_0000_0000);
    lemma_scale_twice(x, 8, 8);
    lemma_scale_twice(x, 16, 8);
    lemma_scale_twice(x, 24, 8);
    lemma_scale_twice(x, 32, 8);
    lemma_scale_twice(x, 40, 8);
    lemma_scale_twice(x, 48, 8);
    lemma_scale_twice(x, 56, 8);
    lemma_scale_twice(x, 64, 8);
}

/// A quantum is not larger than the number.
proof fn lemma_quantum_small(x: int)
    requires
        x >= 1,
    ensures
        quantum(x) <= x,
    decreases x,
{
    if x >= 0x100_0000 {
        lemma_quantum_small(x / 2);
    }
}

/// A mantissa and an exponent make a single precision number, and the exponent
/// of a mantissa of 24 bits gives its quantum.
pub proof fn lemma_canonical(mantissa: int, exponent: nat)
    requires
        0 <= mantissa < 0x100_0000,
    ensures
        is_single(scale(mantissa, exponent)),
        mantissa >= 0x80_0000 ==> quantum(scale(mantissa, exponent)) == scale(1, exponent),
    decreases exponent,
{
    if exponent > 0 {
        let half = scale(mantissa, (exponent - 1) as nat);
        lemma_canonical(mantissa, (exponent - 1) as nat);
        lemma_scale_sum(mantissa, 0, (exponent - 1) as nat);
        lemma_double(half);
        assert((2 * half) / 2 == half);
    }
}

/// Every quantum is a power of two.
pub proof fn lemma_quantum_power(x: int) -> (k: nat)
    ensures
        quantum(x) == scale(1, k),
    decreases x,
{
    if x >= 0x100_0000 {
        lemma_quantum_power(x / 2) + 1
    } else {
        0
    }
}

/// A single precision number is not changed by rounding.
pub proof fn lemma_exact(s: int)
    requires
        s >= 0,
        is_single(s),
    ensures
        nearest_single(s) == s,
{
    lemma_quantum_positive(s);
}

/// Doubling commutes with rounding, where 24 bits are there to round to.
proof fn lemma_double_ratio(num: int, den: int)
    requires
        den > 0,
        num / den >= 0x80_0000,
    ensures
        nearest_ratio(2 * num, den) == 2 * nearest_ratio(num, den),
        (2 * num) / den >= 0x80_0000,
{
    let x = num / den;
    let y = (2 * num) / den;
    lemma_fundamental_div_mod(num, den);
    lemma_fundamental_div_mod(2 * num, den);
    assert(y == 2 * x || y == 2 * x + 1) by (nonlinear_arith)
        requires
            num == den * x + num % den,
            2 * num == den * y + (2 * num) % den,
            0 <= num % den < den,
            0 <= (2 * num) % den < den,
            den > 0,
    ;
    assert(y / 2 == x);
    lemma_halve(y);
    let q = quantum(x);
    let low = floor_single(x);
    assert((2 * low) * den == 2 * (low * den)) by (nonlinear_arith);
    assert((2 * q) * den == 2 * (q * den)) by (nonlinear_arith);
    lemma_neighbours(x);
    lemma_div_denominator(2 * low, 2, q);
}

proof fn lemma_scale_ratio(num: int, den: int, n: nat)
    requires
        den > 0,
        num / den >= 0x80_0000,
    ensures
        nearest_ratio(scale(num, n), den) == scale(nearest_ratio(num, den), n),
        scale(num, n) / den >= 0x80_0000,
    decreases n,
{
    if n > 0 {
        lemma_scale_ratio(num, den, (n - 1) as nat);
        lemma_double_ratio(scale(num, (n - 1) as nat), den);
    }
}

/// Rounding does not depend on the unit: a number rounds alike in units of any
/// smaller power of two.
pub proof fn law_scale_nearest(x: int, n: nat)
    requires
        x >= 0,
    ensures
        nearest_single(scale(x, n)) == scale(nearest_single(x), n),
{
    if x >= 0x80_0000 {
        lemma_scale_ratio(x, 1, n);
    } else {
        lemma_canonical(x, n);
        lemma_scale_sum(x, 0, n);
        lemma_exact(scale(x, n));
        lemma_exact(x);
    }
}

/// Just below a number with a mantissa of 24 bits, the quantum is still at
/// least half of the number's own.
proof fn lemma_quantum_below(mantissa: int, exponent: nat)
    requires
        0x80_0000 <= mantissa < 0x100_0000,
        exponent > 0,
    ensures
        2 * quantum(scale(mantissa, exponent) - 1) >= scale(1, exponent),
    decreases exponent,
{
    let half = scale(mantissa, (exponent - 1) as nat);
    lemma_quantum_positive(2 * half - 1);
    lemma_scale_sum(mantissa, 0, (exponent - 1) as nat);
    if exponent > 1 {
        lemma_quantum_below(mantissa, (exponent - 1) as nat);
        lemma_scale_sum(mantissa, 0, (exponent - 2) as nat);
        assert((2 * half - 1) / 2 == half - 1);
    } else {
        assert(scale(1, 1) == 2 * scale(1, 0));
    }
}

/// A number is not changed by adding something that is less than a quarter of
/// its quantum.
proof fn lemma_absorb(mantissa: int, exponent: nat, x: int)
    requires
        0x80_0000 <= mantissa < 0x100_0000,
        exponent > 0,
        4 * (x - scale(mantissa, exponent)) < scale(1, exponent),
        4 * (scale(mantissa, exponent) - x) < scale(1, exponent),
        x >= 0,
    ensures
        nearest_single(x) == scale(mantissa, exponent),
{
    let a = scale(mantissa, exponent);
    let r = nearest_single(x);
    lemma_canonical(mantissa, exponent);
    lemma_scale_sum(mantissa, 0, exponent);
    law_nearest_ratio(x, 1, a);
    lemma_exact(a);
    lemma_no_single_between(a, r);
    lemma_neighbours(a - 1);
    lemma_no_single_between(a - 1, r);
    lemma_no_single_between(a - 1, a);
    lemma_quantum_below(mantissa, exponent);
}

/// `x` units, which may be negative, rounded to single precision.
pub open spec fn rounded(x: int) -> int {
    rounded_ratio(x, 1)
}

/// `num / den` units, which may be negative, rounded to single precision.
pub open spec fn rounded_ratio(num: int, den: int) -> int {
    if num >= 0 {
        nearest_ratio(num, den)
    } else {
        -nearest_ratio(-num, den)
    }
}

/// Rounding to single precision keeps to the side of a number that is one.
pub proof fn lemma_rounded_order(x: int, s: int)
    requires
        s >= 0 ==> is_single(s),
        s < 0 ==> is_single(-s),
    ensures
        x <= s ==> rounded(x) <= s,
        x >= s ==> rounded(x) >= s,
{
    if x >= 0 {
        lemma_nearest_ratio(x, 1);
        if s >= 0 {
            if x <= s {
                lemma_nearest_at_most(x, 1, s);
            }
            if x >= s {
                lemma_nearest_at_least(x, 1, s);
            }
        }
    } else {
        lemma_nearest_ratio(-x, 1);
        if s < 0 {
            if x >= s {
                lemma_nearest_at_most(-x, 1, -s);
            }
            if x <= s {
                lemma_nearest_at_least(-x, 1, -s);
            }
        }
    }
}

/// Rounding to single precision keeps the order.
pub proof fn law_nearest_keeps_order(a: int, b: int)
    requires
        0 <= a <= b,
    ensures
        nearest_single(a) <= nearest_single(b),
{
    law_nearest_ratio_keeps_order(a, b, 1);
}

/// So does rounding fractions of the same denominator.
pub proof fn law_nearest_ratio_keeps_order(a: int, b: int, den: int)
    requires
        0 <= a <= b,
        den > 0,
    ensures
        nearest_ratio(a, den) <= nearest_ratio(b, den),
{
    let near_a = nearest_ratio(a, den);
    let near_b = nearest_ratio(b, den);
    lemma_nearest_ratio(a, den);
    lemma_nearest_ratio(b, den);
    law_nearest_ratio(a, den, near_b);
    law_nearest_ratio(b, den, near_a);
    assert(near_a > near_b ==> near_a * den > near_b * den) by (nonlinear_arith)
        requires
            den > 0,
    ;
}

/// A quantum is at most the 2^23rd part of the number below.
pub proof fn lemma_quantum_part(x: int)
    requires
        x >= 0x80_0000,
    ensures
        0x80_0000 * quantum(x) <= floor_single(x),
    decreases x,
{
    if x >= 0x100_0000 {
        lemma_quantum_part(x / 2);
        lemma_halve(x);
    }
}

/// The number one, in units of 2^-149.
pub open spec fn one() -> int {
    scale(1, 149)
}

/// What no single precision number reaches, in units of 2^-149: 2^128.
pub open spec fn limit() -> int {
    scale(1, 277)
}

/// A value of single precision arithmetic: a number, in units of 2^-149, an
/// infinity, by whether it is negative, or none of these. The two zeros are one.
pub enum Real {
    Number(int),
    Infinite(bool),
    Nan,
}

impl Real {
    /// A rounded result: an infinity where it reaches the limit.
    pub open spec fn finish(x: int) -> Real {
        if -limit() < x < limit() {
            Real::Number(x)
        } else {
            Real::Infinite(x < 0)
        }
    }

    pub open spec fn negative(self) -> Real {
        match self {
            Real::Number(x) => Real::Number(-x),
            Real::Infinite(negative) => Real::Infinite(!negative),
            Real::Nan => Real::Nan,
        }
    }

    /// The sum, rounded.
    pub open spec fn sum(self, other: Real) -> Real {
        match (self, other) {
            (Real::Number(x), Real::Number(y)) => Real::finish(rounded(x + y)),
            (Real::Infinite(a), Real::Infinite(b)) => if a == b {
                self
            } else {
                Real::Nan
            },
            (Real::Infinite(_), Real::Number(_)) => self,
            (Real::Number(_), Real::Infinite(_)) => other,
            _ => Real::Nan,
        }
    }

    /// The product with `parts` times 2^-24, rounded.
    pub open spec fn product(self, parts: u32) -> Real
        recommends
            parts > 0,
    {
        match self {
            Real::Number(x) => Real::finish(rounded_ratio(x * parts, 0x100_0000)),
            _ => self,
        }
    }

    /// The whole part, towards zero, or the nearest `i8` where that is none.
    /// What is not a number counts as 0.
    pub open spec fn whole(self) -> int {
        match self {
            Real::Number(x) => if x >= 0 {
                if x / one() <= 127 {
                    x / one()
                } else {
                    127
                }
            } else {
                if (-x) / one() <= 128 {
                    -((-x) / one())
                } else {
                    -128
                }
            },
            Real::Infinite(negative) => if negative {
                -128
            } else {
                127
            },
            Real::Nan => 0,
        }
    }
}

/// The value with the given bits: a sign, an exponent of 8 bits and a fraction
/// of 23.
pub open spec fn bits_value(bits: u32) -> Real {
    let negative = bits >= 0x8000_0000;
    let exponent = (bits / 0x80_0000) % 0x100;
    let fraction = bits % 0x80_0000;
    if exponent == 255 {
        if fraction == 0 {
            Real::Infinite(negative)
        } else {
            Real::Nan
        }
    } else {
        let magnitude = if exponent == 0 {
            fraction as int
        } else {
            scale(fraction + 0x80_0000, (exponent - 1) as nat)
        };
        Real::Number(if negative {
            -magnitude
        } else {
            magnitude
        })
    }
}

/// A single precision number: up to its sign, a mantissa of 24 bits at most
/// that is doubled as often as the exponent says, in units of 2^-149.
#[derive(Debug, Clone, Copy, PartialEq, Eq, Structural)]
pub struct Single {
    pub negative: bool,
    pub mantissa: u32,
    pub exponent: u32,
}

impl Single {
    /// The mantissa has all its 24 bits unless the exponent is the least.
    pub open spec fn wf(self) -> bool {
        &&& self.mantissa < 0x100_0000
        &&& self.exponent > 0 ==> self.mantissa >= 0x80_0000
        &&& self.exponent <= 253
        &&& self.mantissa == 0 ==> !self.negative
    }

    pub open spec fn magnitude(self) -> int {
        scale(self.mantissa as int, self.exponent as nat)
    }

    pub open spec fn value(self) -> int {
        if self.negative {
            -self.magnitude()
        } else {
            self.magnitude()
        }
    }

    pub fn zero() -> (r: Single)
        ensures
            r.wf(),
            r.value() == 0,
    {
        Single { negative: false, mantissa: 0, exponent: 0 }
    }

    /// A whole number.
    pub fn from_i8(n: i8) -> (r: Single)
        ensures
            r.wf(),
            r.value() == n * one(),
    {
        let negative = n < 0;
        let size: i16 = if negative {
            -(n as i16)
        } else {
            n as i16
        };
        proof {
            lemma_scale_product(1, size as int, 149);
            assert(1 * size as int == size as int);
            assert(scale(size as int, 149) == size * one()) by (nonlinear_arith)
                requires
                    scale(size as int, 149) == one() * size,
            ;
            lemma_scale_sum(size as int, 0, 149);
            lemma_limit(size as int, 149);
            assert(n < 0 ==> n * one() == -(size * one())) by (nonlinear_arith)
                requires
                    n < 0 ==> n == -size,
            ;
        }
        match normal(negative, size as u128, 149) {
            Float::Number(s) => s,
            _ => Single::zero(),
        }
    }

    /// The sum, rounded.
    pub fn plus(self, other: Single) -> (r: Float)
        requires
            self.wf(),
            other.wf(),
        ensures
            r.wf(),
            r@ == Real::finish(rounded(self.value() + other.value())),
    {
        let (big, small) = if self.exponent >= other.exponent {
            (self, other)
        } else {
            (other, self)
        };
        let gap: u32 = big.exponent - small.exponent;
        proof {
            lemma_scale_sum(big.mantissa as int, 0, big.exponent as nat);
            lemma_scale_sum(small.mantissa as int, 0, small.exponent as nat);
        }
        if gap > 40 {
            proof {
                lemma_far_apart(big, small);
                lemma_limit(big.mantissa as int, big.exponent as nat);
            }
            return Float::Number(big);
        }
        let ghost e = small.exponent as nat;
        proof {
            lemma_scale_twice(big.mantissa as int, gap as nat, e);
            lemma_scale_small(big.mantissa as int, gap as nat);
        }
        let a: u128 = double(big.mantissa as u128, gap);
        let b: u128 = small.mantissa as u128;
        let (negative, sum): (bool, u128) = if big.negative == small.negative {
            (big.negative, a + b)
        } else if a >= b {
            (big.negative, a - b)
        } else {
            (small.negative, b - a)
        };
        proof {
            lemma_scale_sum(a as int, b as int, e);
            lemma_scale_sum(b as int, a as int, e);
            law_scale_nearest(sum as int, e);
            lemma_scale_sum(sum as int, 0, e);
            lemma_nearest_ratio(sum as int, 1);
            if sum > 0 {
                lemma_quantum_small(sum as int);
            }
        }
        normal(negative, round_ratio(sum, 1), small.exponent)
    }

    /// The negative of a number.
    pub fn negated(self) -> (r: Single)
        requires
            self.wf(),
        ensures
            r.wf(),
            r.value() == -self.value(),
    {
        proof {
            lemma_scale_sum(0, 0, self.exponent as nat);
        }
        Single { negative: !self.negative && self.mantissa > 0, ..self }
    }

    /// The product with `parts` times 2^-24, rounded.
    pub fn times(self, parts: u32) -> (r: Float)
        requires
            self.wf(),
            parts > 0,
        ensures
            r.wf(),
            r@ == Real::finish(rounded_ratio(self.value() * parts, 0x100_0000)),
    {
        let shift: u32 = if self.exponent < 24 {
            self.exponent
        } else {
            24
        };
        assert(self.mantissa * parts < 0x100_0000_0000_0000) by (nonlinear_arith)
            requires
                self.mantissa < 0x100_0000,
                parts <= 0xffff_ffff,
        ;
        let product: u128 = self.mantissa as u128 * parts as u128;
        let ghost rest = (self.exponent - shift) as nat;
        let ghost num = scale(product as int, shift as nat);
        proof {
            lemma_scale_product(self.mantissa as int, parts as int, self.exponent as nat);
            lemma_scale_twice(product as int, shift as nat, rest);
            lemma_scale_sum(product as int, 0, shift as nat);
            lemma_scale_sum(num, 0, rest);
            lemma_scale_sum(self.mantissa as int, 0, self.exponent as nat);
            lemma_scale_constants();
            lemma_scale_twice(product as int, shift as nat, (24 - shift) as nat);
            lemma_scale_sum(num, 0, (24 - shift) as nat);
            lemma_scale_product(1, product as int, 24);
            assert(1 * product as int == product as int);
            assert(scale(product as int, 24) == 0x100_0000 * product);
            let m = self.magnitude();
            assert((-m) * parts == -(m * parts)) by (nonlinear_arith);
            assert(m * parts >= 0) by (nonlinear_arith)
                requires
                    m >= 0,
            ;
            lemma_nearest_ratio(num, 0x100_0000);
            lemma_quotient_small(num);
            if rest > 0 {
                assert(num == 0x100_0000 * product);
                assert(num / 0x100_0000 == product);
                assert(product >= 0x80_0000) by (nonlinear_arith)
                    requires
                        product == self.mantissa * parts,
                        self.mantissa >= 0x80_0000,
                        parts >= 1,
                ;
                lemma_scale_ratio(num, 0x100_0000, rest);
            }
            assert(self.negative ==> m * parts > 0) by (nonlinear_arith)
                requires
                    self.negative ==> m > 0,
                    parts >= 1,
            ;
        }
        normal(self.negative, round_ratio(double(product, shift), 0x100_0000), self.exponent - shift)
    }
}

/// A value of single precision arithmetic.
#[derive(Debug, Clone, Copy, PartialEq, Eq, Structural)]
pub enum Float {
    Number(Single),
    Infinite { negative: bool },
    Nan,
}

impl View for Float {
    type V = Real;

    open spec fn view(&self) -> Real {
        match self {
            Float::Number(s) => Real::Number(s.value()),
            Float::Infinite { negative } => Real::Infinite(*negative),
            Float::Nan => Real::Nan,
        }
    }
}

impl Float {
    pub open spec fn wf(self) -> bool {
        self matches Float::Number(s) ==> s.wf()
    }

    pub fn zero() -> (r: Float)
        ensures
            r.wf(),
            r@ == Real::Number(0),
    {
        Float::Number(Single::zero())
    }

    /// The value with the given bits.
    pub fn from_bits(bits: u32) -> (r: Float)
        ensures
            r.wf(),
            r@ == bits_value(bits),
    {
        let negative = bits >= 0x8000_0000;
        let exponent: u32 = (bits / 0x80_0000) % 0x100;
        let fraction: u32 = bits % 0x80_0000;
        if exponent == 255 {
            if fraction == 0 {
                Float::Infinite { negative }
            } else {
                Float::Nan
            }
        } else if exponent == 0 {
            Float::Number(Single { negative: negative && fraction > 0, mantissa: fraction, exponent })
        } else {
            Float::Number(
                Single { negative, mantissa: fraction + 0x80_0000, exponent: exponent - 1 },
            )
        }
    }

    /// The negative of a value.
    pub fn negated(self) -> (r: Float)
        requires
            self.wf(),
        ensures
            r.wf(),
            r@ == self@.negative(),
    {
        match self {
            Float::Number(s) => Float::Number(s.negated()),
            Float::Infinite { negative } => Float::Infinite { negative: !negative },
            Float::Nan => Float::Nan,
        }
    }

    /// The sum, rounded.
    pub fn plus(self, other: Float) -> (r: Float)
        requires
            self.wf(),
            other.wf(),
        ensures
            r.wf(),
            r@ == self@.sum(other@),
    {
        match (self, other) {
            (Float::Number(x), Float::Number(y)) => x.plus(y),
            (Float::Infinite { negative: a }, Float::Infinite { negative: b }) => if a == b {
                self
            } else {
                Float::Nan
            },
            (Float::Infinite { .. }, Float::Number(_)) => self,
            (Float::Number(_), Float::Infinite { .. }) => other,
            _ => Float::Nan,
        }
    }

    /// The product with `parts` times 2^-24, rounded.
    pub fn times(self, parts: u32) -> (r: Float)
        requires
            self.wf(),
            parts > 0,
        ensures
            r.wf(),
            r@ == self@.product(parts),
    {
        match self {
            Float::Number(s) => s.times(parts),
            _ => self,
        }
    }

    /// The whole part, as far as it is an `i8`.
    pub fn to_i8(self) -> (r: i8)
        requires
            self.wf(),
        ensures
            r == self@.whole(),
    {
        match self {
            Float::Number(s) => {
                proof {
                    let d = one();
                    let m = s.magnitude();
                    lemma_scale_sum(s.mantissa as int, 0, s.exponent as nat);
                    lemma_scale_sum(1, 0, 149);
                    assert(m / d >= 0) by (nonlinear_arith)
                        requires
                            m >= 0,
                            d > 0,
                    ;
                }
                if s.negative {
                    (-(whole_up_to(s.mantissa as u128, s.exponent, 128) as i16)) as i8
                } else {
                    whole_up_to(s.mantissa as u128, s.exponent, 127) as i8
                }
            },
            Float::Infinite { negative } => if negative {
                -128
            } else {
                127
            },
            Float::Nan => 0,
        }
    }
}

/// A mantissa of 24 bits with an exponent of up to 253 stays below the limit,
/// and with a larger one does not.
pub proof fn lemma_limit(mantissa: int, exponent: nat)
    requires
        0 <= mantissa < 0x100_0000,
    ensures
        exponent <= 253 ==> 0 <= scale(mantissa, exponent) < limit(),
        exponent >= 254 && mantissa >= 0x80_0000 ==> scale(mantissa, exponent) >= limit(),
{
    lemma_scale_constants();
    lemma_scale_sum(mantissa, 0, exponent);
    if exponent <= 253 {
        lemma_scale_sum(0x100_0000, mantissa, exponent);
        lemma_scale_twice(1, 24, exponent);
        lemma_scale_twice(1, 24 + exponent, (253 - exponent) as nat);
        lemma_scale_sum(1, 0, 24 + exponent);
        lemma_scale_sum(scale(1, 24 + exponent), 0, (253 - exponent) as nat);
    } else if mantissa >= 0x80_0000 {
        lemma_scale_sum(mantissa, 0x80_0000, exponent);
        lemma_scale_twice(1, 23, exponent);
        lemma_scale_twice(1, 277, (exponent - 254) as nat);
        lemma_scale_sum(1, 0, 277);
        lemma_scale_sum(scale(1, 277), 0, (exponent - 254) as nat);
    }
}

proof fn lemma_quotient_small(num: int)
    requires
        0 <= num < 0x1_0000_0000_0000_0000_0000,
    ensures
        0 <= nearest_ratio(num, 0x100_0000) < 0x1_0000_0000_0000_0000,
{
    let x = num / 0x100_0000;
    lemma_nearest_ratio(num, 0x100_0000);
    if x > 0 {
        lemma_quantum_small(x);
    }
    lemma_neighbours(x);
}

/// The whole part of `r`, doubled `e` times, or `cap` where that is larger.
pub fn whole_up_to(r: u128, e: u32, cap: u32) -> (w: u32)
    requires
        r < 0x1_0000_0000_0000_0000_0000_0000,
    ensures
        w == (if scale(r as int, e as nat) / one() <= cap {
            scale(r as int, e as nat) / one()
        } else {
            cap as int
        }),
{
    let ghost whole = scale(r as int, e as nat) / one();
    let mut rest: u128 = r;
    if e >= 149 {
        let mut left: u32 = e - 149;
        proof {
            lemma_scale_twice(r as int, left as nat, 149);
            lemma_scale_whole(scale(r as int, left as nat), 149);
        }
        while left > 0
            invariant
                whole == scale(r as int, e as nat) / one(),
                scale(rest as int, left as nat) == whole,
                rest < 0x2_0000_0000_0000_0000_0000_0000,
            decreases left,
        {
            if rest > cap as u128 {
                proof {
                    lemma_scale_sum(rest as int, 0, left as nat);
                }
                return cap;
            }
            proof {
                lemma_scale_sum(rest as int, 0, (left - 1) as nat);
            }
            rest = rest * 2;
            left = left - 1;
        }
    } else {
        let mut left: u32 = 149 - e;
        proof {
            lemma_scale_twice(1, left as nat, e as nat);
            lemma_scale_quotient(r as int, left as nat, e as nat);
        }
        while left > 0
            invariant
                rest as int / scale(1, left as nat) == whole,
            decreases left,
        {
            proof {
                lemma_scale_sum(1, 0, (left - 1) as nat);
                lemma_div_denominator(rest as int, 2, scale(1, (left - 1) as nat));
            }
            rest = rest / 2;
            left = left - 1;
        }
        assert(rest as int / 1 == rest);
    }
    if rest > cap as u128 {
        cap
    } else {
        rest as u32
    }
}

pub proof fn lemma_scale_whole(x: int, n: nat)
    ensures
        scale(x, n) / scale(1, n) == x,
{
    lemma_scale_product(1, x, n);
    lemma_scale_sum(1, 0, n);
    let d = scale(1, n);
    assert(1 * x == x);
    assert(d * x == x * d) by (nonlinear_arith);
    lemma_fundamental_div_mod_converse(d * x, d, x, 0);
}

proof fn lemma_scale_quotient(x: int, k: nat, n: nat)
    requires
        x >= 0,
    ensures
        scale(x, n) / scale(1, k + n) == x / scale(1, k),
{
    lemma_scale_twice(1, k, n);
    lemma_scale_twice(1, n, k);
    lemma_scale_sum(1, 0, n);
    lemma_scale_sum(1, 0, k);
    lemma_scale_sum(x, 0, n);
    lemma_scale_product(1, scale(1, k), n);
    lemma_scale_whole(x, n);
    assert(1 * scale(1, k) == scale(1, k));
    lemma_div_denominator(scale(x, n), scale(1, n), scale(1, k));
}

/// `x` doubled `n` times.
fn double(x: u128, n: u32) -> (r: u128)
    requires
        scale(x as int, n as nat) <= u128::MAX,
    ensures
        r == scale(x as int, n as nat),
{
    let mut r: u128 = x;
    let mut i: u32 = 0;
    while i < n
        invariant
            i <= n,
            r == scale(x as int, i as nat),
            scale(x as int, n as nat) <= u128::MAX,
        decreases n - i,
    {
        proof {
            lemma_scale_twice(x as int, i as nat, 1);
            lemma_scale_twice(x as int, (i + 1) as nat, (n - i - 1) as nat);
            lemma_scale_sum(scale(x as int, (i + 1) as nat), 0, (n - i - 1) as nat);
            lemma_scale_sum(x as int, 0, (i + 1) as nat);
            assert(scale(r as int, 1) == 2 * scale(r as int, 0));
        }
        r = r * 2;
        i += 1;
    }
    r
}

/// The number `r`, doubled `e` times, up to the sign.
fn normal(negative: bool, r: u128, e: u32) -> (s: Float)
    requires
        is_single(r as int),
        r < 0x1_0000_0000_0000_0000_0000_0000,
        e <= 253,
    ensures
        s.wf(),
        s@ == Real::finish(
            if negative {
                -scale(r as int, e as nat)
            } else {
                scale(r as int, e as nat)
            },
        ),
{
    if r == 0 {
        proof {
            lemma_scale_sum(0, 0, e as nat);
            lemma_scale_sum(1, 0, 277);
        }
        return Float::zero();
    }
    let ghost whole = scale(r as int, e as nat);
    let mut mantissa: u128 = r;
    let mut exponent: u32 = e;
    while mantissa >= 0x100_0000
        invariant
            0 < mantissa,
            is_single(mantissa as int),
            scale(mantissa as int, exponent as nat) == whole,
            e <= 253,
            exponent >= e,
            scale(mantissa as int, (exponent - e) as nat) < 0x1_0000_0000_0000_0000_0000_0000,
            exponent <= e + 72,
            mantissa < 0x1_0000_0000_0000_0000_0000_0000,
            exponent > e ==> mantissa >= 0x80_0000,
        decreases mantissa,
    {
        proof {
            lemma_halve(mantissa as int);
            lemma_quantum_positive(mantissa as int / 2);
            assert(mantissa as int == 2 * (mantissa as int / 2));
            lemma_scale_sum(mantissa as int / 2, 0, exponent as nat);
            lemma_scale_sum(mantissa as int / 2, 0, (exponent - e) as nat);
            if exponent - e >= 72 {
                lemma_too_many_bits(mantissa as int, (exponent - e) as nat);
            }
        }
        mantissa = mantissa / 2;
        exponent = exponent + 1;
    }
    while mantissa < 0x80_0000 && exponent > 0
        invariant
            0 < mantissa < 0x100_0000,
            scale(mantissa as int, exponent as nat) == whole,
            exponent <= 325,
        decreases exponent,
    {
        proof {
            lemma_scale_sum(mantissa as int, 0, (exponent - 1) as nat);
        }
        mantissa = mantissa * 2;
        exponent = exponent - 1;
    }
    proof {
        lemma_limit(mantissa as int, exponent as nat);
        lemma_scale_sum(mantissa as int, 0, exponent as nat);
    }
    if exponent > 253 {
        Float::Infinite { negative }
    } else {
        Float::Number(Single { negative, mantissa: mantissa as u32, exponent })
    }
}

proof fn lemma_too_many_bits(x: int, n: nat)
    requires
        x >= 0x100_0000,
        n >= 72,
    ensures
        scale(x, n) >= 0x1_0000_0000_0000_0000_0000_0000,
{
    lemma_scale_constants();
    lemma_scale_sum(x, 0x100_0000, 72);
    lemma_scale_twice(x, 72, (n - 72) as nat);
    lemma_scale_sum(scale(x, 72), 0, (n - 72) as nat);
}

/// A number that is far smaller does not count.
proof fn lemma_far_apart(big: Single, small: Single)
    requires
        big.wf(),
        small.wf(),
        big.exponent - small.exponent > 40,
    ensures
        rounded(big.value() + small.value()) == big.value(),
{
    let e = big.exponent as nat;
    lemma_scale_sum(0x100_0000, small.mantissa as int, small.exponent as nat);
    lemma_scale_sum(small.mantissa as int, 0, small.exponent as nat);
    lemma_scale_constants();
    lemma_scale_twice(1, 24, small.exponent as nat);
    lemma_scale_twice(1, (24 + small.exponent) as nat, (e - 24 - small.exponent) as nat);
    let part = scale(1, (24 + small.exponent) as nat);
    lemma_scale_sum(1, 0, (24 + small.exponent) as nat);
    lemma_scale_sum(part, 0, (e - 26 - small.exponent) as nat);
    assert(scale(1, e) == 4 * scale(part, (e - 26 - small.exponent) as nat)) by {
        reveal_with_fuel(scale, 3);
    }
    lemma_scale_sum(big.mantissa as int, 1, e);
    let x = if big.negative {
        -(big.value() + small.value())
    } else {
        big.value() + small.value()
    };
    lemma_absorb(big.mantissa as int, e, x);
}

proof fn lemma_scale_small(x: int, n: nat)
    requires
        0 <= x < 0x100_0000,
        n <= 40,
    ensures
        0 <= scale(x, n) < 0x1_0000_0000_0000_0000,
{
    lemma_scale_sum(0x100_0000, x, n);
    lemma_scale_sum(x, 0, n);
    lemma_scale_twice(0x100_0000, n, (40 - n) as nat);
    lemma_scale_sum(0x100_0000, 0, n);
    lemma_scale_sum(scale(0x100_0000, n), 0, (40 - n) as nat);
    lemma_scale_constants();
}

/// Rounding does not pass a single precision number below.
pub proof fn lemma_nearest_at_least(num: int, den: int, s: int)
    requires
        num >= 0,
        den > 0,
        num >= s * den,
        is_single(s),
    ensures
        nearest_ratio(num, den) >= s,
{
    let x = num / den;
    let q = quantum(x);
    let low = floor_single(x);
    lemma_nearest_ratio(num, den);
    lemma_no_single_between(x, s);
    if s > low {
        assert(s * den >= (low + q) * den) by (nonlinear_arith)
            requires
                s >= low + q,
                den > 0,
        ;
    }
}

/// Rounding does not pass a single precision number above.
pub proof fn lemma_nearest_at_most(num: int, den: int, s: int)
    requires
        num >= 0,
        den > 0,
        num <= s * den,
        is_single(s),
    ensures
        nearest_ratio(num, den) <= s,
{
    let x = num / den;
    let q = quantum(x);
    let low = floor_single(x);
    lemma_nearest_ratio(num, den);
    lemma_no_single_between(x, s);
    if s < low {
        assert(s * den < low * den) by (nonlinear_arith)
            requires
                s < low,
                den > 0,
        ;
    }
}

} // verus!
