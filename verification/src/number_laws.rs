//! What single precision arithmetic does, number by number.

use vstd::prelude::*;

use crate::motor::{is_number, signed_single};
use crate::server_laws::{law_whole_parts_keep_order, lemma_whole_part, whole_part};
use crate::single::{
    floor_single, is_single, law_nearest_ratio, lemma_canonical, lemma_limit,
    lemma_nearest_ratio, lemma_quantum_positive, lemma_scale_constants, lemma_scale_sum,
    lemma_scale_twice, limit, nearest_ratio, one, quantum, round_ratio, rounded, rounded_ratio,
    scale, whole_up_to, Float, Real, Single,
};

verus! {

/// Single precision numbers have 24 significant bits: a number of 24 bits and
/// more lies between 2^23 and 2^24 times the distance to the next one, and
/// twice as large numbers are twice as far apart.
pub proof fn law_24_significant_bits(x: int)
    ensures
        x < 0x100_0000 ==> quantum(x) == 1,
        x >= 0x80_0000 ==> 0x80_0000 * quantum(x) <= x < 0x100_0000 * quantum(x),
        x >= 0x80_0000 ==> quantum(2 * x) == 2 * quantum(x),
    decreases x,
{
    if x >= 0x100_0000 {
        law_24_significant_bits(x / 2);
    }
    assert((2 * x) / 2 == x);
}

/// In the middle between two single precision numbers, the one with an even last
/// bit is taken.
pub proof fn law_ties_go_to_even(num: int, den: int, low: int)
    requires
        num >= 0,
        den > 0,
        low == floor_single(num / den),
        2 * (num - low * den) == quantum(num / den) * den,
    ensures
        (nearest_ratio(num, den) / quantum(num / den)) % 2 == 0,
        nearest_ratio(num, den) == low || nearest_ratio(num, den) == low + quantum(num / den),
{
    let q = quantum(num / den);
    lemma_quantum_positive(num / den);
    lemma_nearest_ratio(num, den);
    assert((low + q) / q == low / q + 1) by (nonlinear_arith)
        requires
            q > 0,
    ;
}

/// The high bit of a value is its sign, and nothing but that.
pub proof fn law_high_bit_is_the_sign(bits: u32, a: Float, b: Float)
    requires
        bits < 0x8000_0000,
        call_ensures(Float::from_bits, (bits,), a),
        call_ensures(Float::from_bits, ((bits + 0x8000_0000) as u32,), b),
    ensures
        b@ == a@.negative(),
        a@ matches Real::Number(x) ==> b@ == Real::Number(-x),
        a@ matches Real::Infinite(negative) ==> !negative && b@ == Real::Infinite(true),
        a@ is Nan ==> b@ is Nan,
{
    let high = (bits + 0x8000_0000) as u32;
    assert(high / 0x80_0000 == bits / 0x80_0000 + 0x100);
    assert(high % 0x80_0000 == bits % 0x80_0000);
}

/// Without a sign, bits 0 stand for 0, and each next bits for the next single
/// precision number, up to infinity; the ones after that for no number.
pub proof fn law_bits_count_the_numbers(bits: u32, a: Float, b: Float)
    requires
        bits < 0x7fff_ffff,
        call_ensures(Float::from_bits, (bits,), a),
        call_ensures(Float::from_bits, ((bits + 1) as u32,), b),
    ensures
        bits == 0 ==> a@ == Real::Number(0),
        bits < 0x7f80_0000 ==> a@ is Number,
        bits + 1 < 0x7f80_0000 ==> b@ == Real::Number(a@->Number_0 + quantum(a@->Number_0)),
        bits + 1 == 0x7f80_0000 ==> b@ == Real::Infinite(false),
        bits >= 0x7f80_0000 ==> b@ is Nan,
{
    let exponent = (bits / 0x80_0000) % 0x100;
    let fraction = bits % 0x80_0000;
    let next = (bits + 1) as u32;
    if bits + 1 < 0x7f80_0000 {
        assert(exponent < 255);
        if exponent == 0 {
            law_24_significant_bits(fraction as int);
            if fraction == 0x7f_ffff {
                assert(next % 0x80_0000 == 0 && (next / 0x80_0000) % 0x100 == 1);
                assert(scale(0x80_0000, 0) == 0x80_0000);
            } else {
                assert(next % 0x80_0000 == fraction + 1 && (next / 0x80_0000) % 0x100 == 0);
            }
        } else {
            let e = (exponent - 1) as nat;
            let m = fraction + 0x80_0000;
            lemma_canonical(m, e);
            lemma_scale_sum(m, 1, e);
            lemma_scale_sum(0x80_0000, 0, e);
            if fraction == 0x7f_ffff {
                assert(next % 0x80_0000 == 0 && (next / 0x80_0000) % 0x100 == exponent + 1);
                assert(m + 1 == 2 * 0x80_0000);
            } else {
                assert(next % 0x80_0000 == fraction + 1 && (next / 0x80_0000) % 0x100 == exponent);
                assert(next % 0x80_0000 + 0x80_0000 == m + 1);
            }
        }
    }
}

/// The number one is where it belongs: its bits are 127 times 2^23, and it is
/// its own whole part, on either side of 0.
pub proof fn law_one_is_one(a: Float, b: Float, m: i8, n: i8)
    requires
        call_ensures(Float::from_bits, (0x3f80_0000u32,), a),
        call_ensures(Float::from_bits, (0xbf80_0000u32,), b),
        call_ensures(Float::to_i8, (a,), m),
        call_ensures(Float::to_i8, (b,), n),
    ensures
        a@ == Real::Number(one()),
        b@ == Real::Number(-one()),
        m == 1,
        n == -1,
{
    let d = one();
    lemma_scale_constants();
    lemma_scale_twice(1, 23, 126);
    lemma_scale_sum(1, 0, 149);
    assert(d / d == 1) by (nonlinear_arith)
        requires
            d > 0,
    ;
}

/// The whole part of a value, as far as it is an `i8`, keeps its sign and the
/// order of the values.
pub proof fn law_whole_parts(a: Float, b: Float, m: i8, n: i8)
    requires
        a.wf(),
        b.wf(),
        call_ensures(Float::to_i8, (a,), m),
        call_ensures(Float::to_i8, (b,), n),
    ensures
        whole_part(a@, m),
        a@ is Number && b@ is Number && a@->Number_0 <= b@->Number_0 ==> m <= n,
{
    lemma_whole_part(a@);
    lemma_whole_part(b@);
    if a@ is Number && b@ is Number {
        law_whole_parts_keep_order(a@, b@, m, n);
    }
}

/// Whether `x` is as near to `num / den` as `s` is, or nearer.
pub open spec fn no_further(x: int, s: int, num: int, den: int) -> bool {
    let off = x * den - num;
    let other = s * den - num;
    (off <= other || off <= -other) && (-off <= other || -off <= -other)
}

proof fn lemma_rounded_is_nearest(num: int, den: int, s: int)
    requires
        den > 0,
        signed_single(s),
    ensures
        signed_single(rounded_ratio(num, den)),
        no_further(rounded_ratio(num, den), s, num, den),
{
    if num >= 0 {
        lemma_nearest_ratio(num, den);
        law_nearest_ratio(num, den, 0);
        if s >= 0 {
            law_nearest_ratio(num, den, s);
        } else {
            assert(s * den <= 0) by (nonlinear_arith)
                requires
                    s <= 0,
                    den > 0,
            ;
        }
        assert(0 * den == 0);
    } else {
        let r = nearest_ratio(-num, den);
        lemma_nearest_ratio(-num, den);
        law_nearest_ratio(-num, den, 0);
        if s <= 0 {
            law_nearest_ratio(-num, den, -s);
        } else {
            assert(s * den >= 0) by (nonlinear_arith)
                requires
                    s >= 0,
                    den > 0,
            ;
        }
        assert((-r) * den == -(r * den) && (-s) * den == -(s * den)) by (nonlinear_arith);
        assert(0 * den == 0);
    }
}

/// The sum of two numbers is the number nearest to it; where that is out of
/// range, an infinity of its sign.
pub proof fn law_sum_is_nearest(a: Float, b: Float, r: Float, x: int, y: int, s: int)
    requires
        a.wf(),
        b.wf(),
        call_ensures(Float::plus, (a, b), r),
        a@ == Real::Number(x),
        b@ == Real::Number(y),
        signed_single(s),
    ensures
        r.wf(),
        r@ !is Nan,
        r@ matches Real::Number(z) ==> is_number(z) && no_further(z, s, x + y, 1),
        r@ is Infinite <==> rounded(x + y) <= -limit() || rounded(x + y) >= limit(),
        r@ matches Real::Infinite(negative) ==> (negative <==> x + y < 0),
        x + y == 0 ==> r@ == Real::Number(0),
{
    lemma_rounded_is_nearest(x + y, 1, s);
    lemma_rounded_is_nearest(x + y, 1, 0);
    lemma_scale_sum(1, 0, 277);
    if x + y >= 0 {
        lemma_nearest_ratio(x + y, 1);
    } else {
        lemma_nearest_ratio(-(x + y), 1);
    }
}

/// Sums with an infinity: it stays, unless it meets the opposite one. What is no
/// number stays that.
pub proof fn law_sums_without_end(a: Float, b: Float, r: Float)
    requires
        a.wf(),
        b.wf(),
        call_ensures(Float::plus, (a, b), r),
    ensures
        a@ is Nan || b@ is Nan ==> r@ is Nan,
        a@ is Infinite && b@ is Number ==> r@ == a@,
        a@ is Number && b@ is Infinite ==> r@ == b@,
        a@ is Infinite && b@ is Infinite && a@ == b@ ==> r@ == a@,
        a@ is Infinite && b@ is Infinite && a@ != b@ ==> r@ is Nan,
{
}

/// The order of two summands does not count.
pub proof fn law_sum_both_ways(a: Float, b: Float, r: Float, t: Float)
    requires
        a.wf(),
        b.wf(),
        call_ensures(Float::plus, (a, b), r),
        call_ensures(Float::plus, (b, a), t),
    ensures
        r@ == t@,
{
}

/// The product of a number with a number of 2^-24ths is the number nearest to
/// it; where that is out of range, an infinity of its sign. What is no number
/// stays what it is.
pub proof fn law_product_is_nearest(a: Float, parts: u32, r: Float, s: int)
    requires
        a.wf(),
        parts > 0,
        call_ensures(Float::times, (a, parts), r),
        signed_single(s),
    ensures
        r.wf(),
        a@ !is Number ==> r@ == a@,
        a@ matches Real::Number(x) ==> {
            &&& r@ !is Nan
            &&& r@ matches Real::Number(z) ==> is_number(z) && no_further(
                z,
                s,
                x * parts,
                0x100_0000,
            )
            &&& r@ is Infinite <==> {
                ||| rounded_ratio(x * parts, 0x100_0000) <= -limit()
                ||| rounded_ratio(x * parts, 0x100_0000) >= limit()
            }
            &&& r@ matches Real::Infinite(negative) ==> (negative <==> x < 0)
        },
{
    if let Real::Number(x) = a@ {
        lemma_rounded_is_nearest(x * parts, 0x100_0000, s);
        lemma_scale_sum(1, 0, 277);
        assert((x >= 0 ==> x * parts >= 0) && (x < 0 ==> x * parts < 0)) by (nonlinear_arith)
            requires
                parts > 0,
        ;
        if x >= 0 {
            lemma_nearest_ratio(x * parts, 0x100_0000);
        } else {
            lemma_nearest_ratio(-(x * parts), 0x100_0000);
        }
    }
}

/// The negative of a value has the same size and the other sign, and its own
/// negative is the value again.
pub proof fn law_negative(a: Float, r: Float, t: Float)
    requires
        a.wf(),
        call_ensures(Float::negated, (a,), r),
        call_ensures(Float::negated, (r,), t),
    ensures
        a@ matches Real::Number(x) ==> r@ == Real::Number(-x),
        a@ matches Real::Infinite(negative) ==> r@ == Real::Infinite(!negative),
        a@ is Nan ==> r@ is Nan,
        t@ == a@,
{
}

/// Whole numbers are taken over as they are.
pub proof fn law_whole_numbers(n: i8, r: Single, zero: Float)
    requires
        call_ensures(Single::from_i8, (n,), r),
        call_ensures(Float::zero, (), zero),
    ensures
        r.wf(),
        r.value() == n * one(),
        zero.wf(),
        zero@ == Real::Number(0),
{
}

/// A fraction is rounded to a single precision number, and no other one is
/// nearer.
pub proof fn law_rounding_a_fraction(num: u128, den: u128, r: u128, s: int)
    requires
        num < 0x1_0000_0000_0000_0000_0000_0000,
        0 < den <= 0x100_0000,
        call_ensures(round_ratio, (num, den), r),
        is_single(s),
        s >= 0,
    ensures
        is_single(r as int),
        no_further(r as int, s, num as int, den as int),
{
    law_nearest_ratio(num as int, den as int, s);
}

/// Every number that fits in 24 bits and an exponent up to 253 is below the
/// limit, and is its own nearest.
pub proof fn law_numbers_are_below_the_limit(s: Single)
    requires
        s.wf(),
    ensures
        is_number(s.value()),
        limit() == scale(0x100_0000, 253),
{
    lemma_canonical(s.mantissa as int, s.exponent as nat);
    lemma_limit(s.mantissa as int, s.exponent as nat);
    lemma_scale_sum(s.mantissa as int, 0, s.exponent as nat);
    lemma_scale_constants();
    lemma_scale_twice(1, 24, 253);
}

/// The whole part of a number, up to a cap.
pub proof fn law_whole_up_to(r: u128, e: u32, cap: u32, w: u32)
    requires
        r < 0x1_0000_0000_0000_0000_0000_0000,
        call_ensures(whole_up_to, (r, e, cap), w),
    ensures
        w <= cap,
        w * one() <= scale(r as int, e as nat),
        w == cap || scale(r as int, e as nat) < (w + 1) * one(),
{
    let d = one();
    let x = scale(r as int, e as nat);
    let q = x / d;
    lemma_scale_sum(1, 0, 149);
    lemma_scale_sum(r as int, 0, e as nat);
    assert(0 <= q && q * d <= x < (q + 1) * d) by (nonlinear_arith)
        requires
            x >= 0,
            d > 0,
            q == x / d,
    ;
    assert(q > cap ==> cap * d <= x) by (nonlinear_arith)
        requires
            q * d <= x,
            d > 0,
    ;
}

} // verus!
