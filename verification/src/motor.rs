//! The motors of a tank. Speeds are single precision numbers.

use vstd::prelude::*;

use crate::single::{
    floor_single, is_single, law_nearest_keeps_order, law_nearest_ratio, lemma_canonical,
    lemma_exact, lemma_limit, lemma_nearest_at_least, lemma_nearest_at_most, lemma_nearest_ratio,
    lemma_neighbours, lemma_no_single_between, lemma_quantum_part, lemma_quantum_power,
    lemma_rounded_order, lemma_scale_constants, lemma_scale_product, lemma_scale_sum,
    lemma_scale_twice, lemma_scale_whole, limit, nearest_ratio, nearest_single, one, quantum,
    rounded, rounded_ratio, scale, whole_up_to, Float, Real, Single,
};

verus! {

/// The single precision number nearest to 0.8, in parts of 2^-24: how much of
/// the way to its new speed a motor goes with every message.
pub const EASE: u32 = 13_421_773;

/// The number 100, in parts of 2^-24: full speed as a count of the pulse timer.
pub const FULL_SPEED: u32 = 1_677_721_600;

/// The signals of a motor: the level of its phase pin, and the count of the
/// pulse timer at which the pulse ends.
#[derive(Debug, Clone, Copy, PartialEq, Eq, Structural)]
pub struct Motor {
    pub phase_high: bool,
    pub timestamp: u16,
}

/// Whether a speed is within what a stick can ask for.
pub open spec fn in_reach(v: Real) -> bool {
    v matches Real::Number(x) && -128 * one() <= x <= 128 * one()
}

/// The speed after one step from `past` towards `current`.
pub open spec fn eased(past: Real, current: Real) -> Real {
    past.sum(current.sum(past.negative()).product(EASE))
}

/// The count of the pulse timer for a speed, whichever way it goes.
pub open spec fn pulse(speed: int) -> int {
    let count = nearest_ratio(speed * FULL_SPEED, 0x100_0000) / one();
    if count <= 65535 {
        count
    } else {
        65535
    }
}

impl Motor {
    /// The signals for a speed. The phase is low to go forward, and only then.
    pub open spec fn signals(v: Real) -> Motor {
        match v {
            Real::Number(x) => Motor {
                phase_high: x <= 0,
                timestamp: pulse(
                    if x >= 0 {
                        x
                    } else {
                        -x
                    },
                ) as u16,
            },
            Real::Infinite(negative) => Motor { phase_high: negative, timestamp: 65535 },
            Real::Nan => Motor { phase_high: true, timestamp: 0 },
        }
    }

    /// A motor that has not been driven.
    pub fn new() -> (r: Motor)
        ensures
            !r.phase_high,
            r.timestamp == 0,
    {
        Motor { phase_high: false, timestamp: 0 }
    }

    /// Sets a speed.
    pub fn set_velocity(&mut self, v: Float)
        requires
            v.wf(),
        ensures
            *final(self) == Motor::signals(v@),
    {
        match v {
            Float::Number(s) => {
                proof {
                    lemma_scale_sum(s.mantissa as int, 0, s.exponent as nat);
                }
                self.phase_high = s.negative || s.mantissa == 0;
                self.timestamp = pulse_count(Single { negative: false, ..s });
            },
            Float::Infinite { negative } => {
                self.phase_high = negative;
                self.timestamp = 65535;
            },
            Float::Nan => {
                self.phase_high = true;
                self.timestamp = 0;
            },
        }
    }
}

/// The count of the pulse timer for a speed that is not negative.
fn pulse_count(s: Single) -> (r: u16)
    requires
        s.wf(),
        !s.negative,
    ensures
        r == pulse(s.magnitude()),
{
    proof {
        let speed = s.magnitude();
        lemma_scale_sum(s.mantissa as int, 0, s.exponent as nat);
        assert(speed * FULL_SPEED >= 0) by (nonlinear_arith)
            requires
                speed >= 0,
        ;
        lemma_nearest_ratio(speed * FULL_SPEED, 0x100_0000);
        lemma_scale_sum(1, 0, 277);
    }
    match s.times(FULL_SPEED) {
        Float::Number(count) => {
            proof {
                lemma_scale_sum(count.mantissa as int, 0, count.exponent as nat);
                lemma_scale_sum(1, 0, 149);
                let c = count.magnitude();
                assert(c / one() >= 0) by (nonlinear_arith)
                    requires
                        c >= 0,
                        one() > 0,
                ;
            }
            whole_up_to(count.mantissa as u128, count.exponent, 65535) as u16
        },
        _ => {
            proof {
                lemma_past_count(nearest_ratio(s.magnitude() * FULL_SPEED, 0x100_0000));
            }
            65535
        },
    }
}

/// What is no number any more is beyond what the pulse timer can count.
proof fn lemma_past_count(count: int)
    requires
        count >= limit(),
    ensures
        count / one() > 65535,
{
    let d = one();
    let times = scale(1, 128);
    lemma_scale_constants();
    lemma_scale_twice(1, 24, 104);
    lemma_scale_twice(1, 128, 149);
    lemma_scale_sum(0x100_0000, 0, 104);
    lemma_scale_sum(1, 0, 149);
    lemma_scale_whole(times, 149);
    assert(count / d >= scale(times, 149) / d) by (nonlinear_arith)
        requires
            count >= scale(times, 149),
            d > 0,
    ;
}

/// Brings a motor's speed closer to the one that is asked for, and returns it.
/// Between two numbers that are not too far apart, the new speed is a number
/// from the old one to the one that is asked for.
pub fn ease_motor(past: &mut Float, current: Float) -> (r: Float)
    requires
        old(past).wf(),
        current.wf(),
    ensures
        final(past).wf(),
        final(past)@ == eased(old(past)@, current@),
        r == *final(past),
        match (old(past)@, current@) {
            (Real::Number(p), Real::Number(c)) => near(p, c) ==> {
                &&& final(past)@ matches Real::Number(x)
                &&& p <= c ==> p <= x <= c
                &&& p >= c ==> p >= x >= c
            },
            _ => true,
        },
        in_reach(old(past)@) && in_reach(current@) ==> in_reach(final(past)@),
{
    proof {
        if let (Float::Number(p), Float::Number(c)) = (*past, current) {
            lemma_finite(p);
            lemma_finite(c);
            if near(p.value(), c.value()) {
                law_eased_stays_between(p.value(), c.value());
            }
            if in_reach(past@) && in_reach(current@) {
                lemma_reach(p.value(), c.value());
            }
        }
    }
    let difference = current.plus(past.negated());
    let delta = difference.times(EASE);
    *past = past.plus(delta);
    *past
}

/// Whether the difference of two numbers is a number.
pub open spec fn near(past: int, current: int) -> bool {
    -limit() < rounded(current - past) < limit()
}

/// A position of a stick is a number.
pub proof fn lemma_position_is_number(position: i8)
    ensures
        is_number(position * one()),
{
    let size = if position >= 0 {
        position as int
    } else {
        -(position as int)
    };
    let d = one();
    lemma_scale_sum(1, 0, 149);
    lemma_scale_product(1, size, 149);
    lemma_canonical(size, 149);
    lemma_limit(size, 149);
    assert(1 * size == size);
    assert(d * size == size * d && (-size) * d == -(size * d)) by (nonlinear_arith);
}

/// A step from a number towards another that is near is the sum that `eased`
/// makes of it, and stays between them.
pub proof fn lemma_step_of_numbers(past: Single, current: int)
    requires
        past.wf(),
        is_number(current),
        near(past.value(), current) || in_reach(Real::Number(past.value())) && in_reach(
            Real::Number(current),
        ),
    ensures
        ({
            let p = past.value();
            let step = rounded_ratio(rounded(current - p) * 13_421_773, 0x100_0000);
            let sum = rounded(p + step);
            &&& eased(Real::Number(p), Real::Number(current)) == Real::Number(sum)
            &&& p <= current ==> p <= sum <= current
            &&& p >= current ==> p >= sum >= current
        }),
{
    lemma_finite(past);
    if in_reach(Real::Number(past.value())) && in_reach(Real::Number(current)) {
        lemma_reach(past.value(), current);
    }
    lemma_eased_number(past.value(), current);
}

/// What a number is worth.
pub proof fn lemma_finite(s: Single)
    requires
        s.wf(),
    ensures
        is_number(s.value()),
{
    lemma_canonical(s.mantissa as int, s.exponent as nat);
    lemma_limit(s.mantissa as int, s.exponent as nat);
    lemma_scale_sum(s.mantissa as int, 0, s.exponent as nat);
}

/// Speeds within reach are near each other.
proof fn lemma_reach(past: int, current: int)
    requires
        in_reach(Real::Number(past)),
        in_reach(Real::Number(current)),
    ensures
        near(past, current),
{
    let x = current - past;
    lemma_scale_twice(1, 149, 8);
    lemma_scale_constants();
    assert(scale(one(), 8) == 256 * one()) by {
        reveal_with_fuel(scale, 9);
    }
    lemma_scale_twice(1, 23, 134);
    lemma_canonical(0x80_0000, 134);
    lemma_limit(0x80_0000, 134);
    lemma_scale_sum(1, 0, 157);
    lemma_rounded_order(x, scale(1, 157));
    lemma_rounded_order(x, -scale(1, 157));
}

/// Whether a number, which may be negative, is a single precision number.
pub open spec fn signed_single(x: int) -> bool {
    if x >= 0 {
        is_single(x)
    } else {
        is_single(-x)
    }
}

/// Whether a value, in units of 2^-149, is that of a number.
pub open spec fn is_number(x: int) -> bool {
    signed_single(x) && -limit() < x < limit()
}

/// One step from a number towards another, as long as both steps in between
/// stay numbers.
spec fn eased_number(past: int, current: int) -> int {
    let delta = rounded_ratio(rounded(current - past) * EASE, 0x100_0000);
    rounded(past + delta)
}

/// A step goes no further than the distance.
proof fn lemma_step_fits(x: int)
    requires
        x >= 0,
    ensures
        0 <= rounded(x) * EASE,
        0 <= rounded_ratio(rounded(x) * EASE, 0x100_0000) <= x,
        rounded_ratio(rounded(x) * EASE, 0x100_0000) <= rounded(x),
{
    let d = nearest_single(x);
    let low = floor_single(x);
    lemma_nearest_ratio(x, 1);
    lemma_neighbours(x);
    if x >= 0x100_0000 {
        lemma_quantum_part(x);
        assert(d * EASE <= low * 0x100_0000) by {
            assert(d <= low + quantum(x));
            assert(0x80_0000 * d <= 0x80_0001 * low);
        }
    }
    lemma_nearest_ratio(d * EASE, 0x100_0000);
    lemma_nearest_at_most(d * EASE, 0x100_0000, low);
}

/// Between numbers that are near each other, every step on the way gives a
/// number.
proof fn lemma_eased_number(past: int, current: int)
    requires
        is_number(past),
        is_number(current),
        near(past, current),
    ensures
        ({
            let next = eased_number(past, current);
            &&& eased(Real::Number(past), Real::Number(current)) == Real::Number(next)
            &&& past <= current ==> past <= next <= current
            &&& past >= current ==> past >= next >= current
            &&& is_number(next)
            &&& near(next, current)
        }),
{
    let x = current - past;
    if x >= 0 {
        lemma_step_fits(x);
    } else {
        lemma_step_fits(-x);
        let d = nearest_single(-x);
        assert((-d) * EASE == -(d * EASE));
        if d == 0 {
            lemma_nearest_ratio(0, 0x100_0000);
        }
    }
    let delta = rounded_ratio(rounded(x) * EASE, 0x100_0000);
    let next = rounded(past + delta);
    lemma_rounded_order(past + delta, past);
    lemma_rounded_order(past + delta, current);
    if past + delta >= 0 {
        lemma_nearest_ratio(past + delta, 1);
    } else {
        lemma_nearest_ratio(-(past + delta), 1);
    }
    if x >= 0 {
        law_nearest_keeps_order(current - next, x);
        lemma_nearest_ratio(current - next, 1);
    } else {
        law_nearest_keeps_order(next - current, -x);
        lemma_nearest_ratio(next - current, 1);
    }
}

/// A motor is eased towards its new speed and never beyond it.
pub proof fn law_eased_stays_between(past: int, current: int)
    requires
        is_number(past),
        is_number(current),
        near(past, current),
    ensures
        eased(Real::Number(past), Real::Number(current)) matches Real::Number(next) && {
            &&& past <= current ==> past <= next <= current
            &&& past >= current ==> past >= next >= current
        },
{
    lemma_eased_number(past, current);
}

/// A step towards a speed that is `x` away goes more than half of any power of
/// two up to `x`.
proof fn lemma_step_reaches(x: int, k: nat)
    requires
        x >= scale(1, k),
    ensures
        2 * rounded_ratio(rounded(x) * EASE, 0x100_0000) > scale(1, k),
{
    let g = scale(1, k);
    let d = nearest_single(x);
    lemma_scale_sum(1, 0, k);
    lemma_canonical(1, k);
    lemma_nearest_at_least(x, 1, g);
    if k >= 2 {
        let s = scale(3, (k - 2) as nat);
        lemma_canonical(3, (k - 2) as nat);
        lemma_scale_product(1, 3, (k - 2) as nat);
        assert(g == 4 * scale(1, (k - 2) as nat)) by {
            reveal_with_fuel(scale, 3);
        }
        lemma_nearest_at_least(d * EASE, 0x100_0000, s);
    } else if k == 1 {
        assert(g == 2 * scale(1, 0));
        if d >= 3 {
            lemma_nearest_at_least(d * EASE, 0x100_0000, 2);
        } else {
            assert(d * EASE == 26_843_546);
            assert(26_843_546int / 0x100_0000 == 1);
        }
    } else {
        if d >= 2 {
            lemma_nearest_at_least(d * EASE, 0x100_0000, 1);
        } else {
            assert(d * EASE == 13_421_773);
            assert(13_421_773int / 0x100_0000 == 0);
        }
    }
}

/// Upwards, a step leaves the speed that it comes from.
proof fn lemma_moves_up(past: int, current: int)
    requires
        signed_single(past),
        signed_single(current),
        past < current,
    ensures
        eased_number(past, current) > past,
{
    let x = current - past;
    let t = rounded_ratio(rounded(x) * EASE, 0x100_0000);
    if past >= 0 {
        let g = quantum(past);
        let k = lemma_quantum_power(past);
        lemma_neighbours(past);
        lemma_exact(past);
        lemma_no_single_between(past, current);
        lemma_step_reaches(x, k);
        lemma_scale_sum(1, 0, k);
        law_nearest_ratio(past + t, 1, past + g);
    } else {
        let size = -past;
        let g = quantum(size - 1);
        let k = lemma_quantum_power(size - 1);
        lemma_neighbours(size - 1);
        lemma_no_single_between(size - 1, size);
        if current < 0 {
            lemma_no_single_between(size - 1, -current);
        }
        lemma_step_reaches(x, k);
        lemma_scale_sum(1, 0, k);
        if past + t >= 0 {
            lemma_nearest_ratio(past + t, 1);
        } else {
            law_nearest_ratio(size - t, 1, size - g);
        }
    }
}

/// Easing is the same both ways.
proof fn lemma_eased_mirror(past: int, current: int)
    ensures
        eased_number(-past, -current) == -eased_number(past, current),
{
    let x = current - past;
    lemma_rounded_mirror(x, 1);
    let d = rounded(x);
    assert((-d) * EASE == -(d * EASE));
    lemma_rounded_mirror(d * EASE, 0x100_0000);
    lemma_rounded_mirror(past + rounded_ratio(d * EASE, 0x100_0000), 1);
}

proof fn lemma_rounded_mirror(num: int, den: int)
    requires
        den == 1 || den == 0x100_0000,
    ensures
        rounded_ratio(-num, den) == -rounded_ratio(num, den),
{
    if num == 0 {
        assert(0int / den == 0);
    }
}

/// A motor that has not reached its speed does not stay where it is.
pub proof fn law_eased_moves(past: int, current: int)
    requires
        is_number(past),
        is_number(current),
        near(past, current),
        past != current,
    ensures
        eased(Real::Number(past), Real::Number(current)) != Real::Number(past),
{
    lemma_eased_number(past, current);
    if past < current {
        lemma_moves_up(past, current);
    } else {
        lemma_moves_up(-past, -current);
        lemma_eased_mirror(past, current);
    }
}

/// The speed after `n` steps towards the same speed.
pub open spec fn eased_times(past: Real, current: Real, n: nat) -> Real
    decreases n,
{
    if n == 0 {
        past
    } else {
        eased_times(eased(past, current), current, (n - 1) as nat)
    }
}

/// A motor reaches the speed that it is eased towards.
pub proof fn law_eased_arrives(past: int, current: int)
    requires
        is_number(past),
        is_number(current),
        near(past, current),
    ensures
        exists|n: nat|
            eased_times(Real::Number(past), Real::Number(current), n) == Real::Number(current),
    decreases
            (if past <= current {
                current - past
            } else {
                past - current
            }),
{
    let goal = Real::Number(current);
    if past == current {
        assert(eased_times(Real::Number(past), goal, 0) == goal);
    } else {
        let next = eased_number(past, current);
        lemma_eased_number(past, current);
        law_eased_moves(past, current);
        law_eased_arrives(next, current);
        let n = choose|n: nat| eased_times(Real::Number(next), goal, n) == goal;
        assert(eased_times(Real::Number(past), goal, n + 1) == goal);
    }
}

/// Up to a speed of one, the pulse timer counts to 100 at most, and to 100 at
/// that speed.
pub proof fn law_pulse_up_to_full_speed(speed: int)
    requires
        0 <= speed <= one(),
    ensures
        0 <= pulse(speed) <= 100,
        pulse(one()) == 100,
{
    let d = one();
    lemma_scale_sum(1, 0, 149);
    lemma_pulse_at_one();
    let count = nearest_ratio(speed * FULL_SPEED, 0x100_0000);
    lemma_nearest_ratio(speed * FULL_SPEED, 0x100_0000);
    lemma_nearest_at_most(speed * FULL_SPEED, 0x100_0000, 100 * d);
    assert(0 <= count / d <= 100) by (nonlinear_arith)
        requires
            0 <= count <= 100 * d,
            d > 0,
    ;
}

/// A motor without speed gets no pulse.
pub proof fn law_no_speed_no_pulse()
    ensures
        pulse(0) == 0,
{
    lemma_scale_sum(1, 0, 149);
    law_pulse_up_to_full_speed(0);
    lemma_nearest_at_most(0, 0x100_0000, 0);
    lemma_nearest_ratio(0, 0x100_0000);
    let d = one();
    assert(0int / d == 0) by (nonlinear_arith)
        requires
            d > 0,
    ;
}

proof fn lemma_pulse_at_one()
    ensures
        is_single(100 * one()),
        pulse(one()) == 100,
{
    let d = one();
    lemma_scale_sum(1, 0, 149);
    lemma_scale_product(1, 100, 149);
    lemma_canonical(100, 149);
    lemma_scale_whole(100, 149);
    lemma_nearest_ratio(d * FULL_SPEED, 0x100_0000);
    lemma_nearest_at_most(d * FULL_SPEED, 0x100_0000, 100 * d);
    lemma_nearest_at_least(d * FULL_SPEED, 0x100_0000, 100 * d);
}

/// A motor that has reached its speed keeps it.
pub proof fn law_eased_rests(speed: int)
    requires
        is_number(speed),
    ensures
        eased(Real::Number(speed), Real::Number(speed)) == Real::Number(speed),
{
    lemma_nearest_ratio(0, 1);
    lemma_nearest_at_most(0, 1, 0);
    law_eased_stays_between(speed, speed);
}

/// Speeds from -1 to 1 stay there.
pub proof fn law_eased_keeps_to_one(past: int, current: int)
    requires
        is_number(past),
        is_number(current),
        -one() <= past <= one(),
        -one() <= current <= one(),
    ensures
        eased(Real::Number(past), Real::Number(current)) matches Real::Number(next) && -one()
            <= next <= one(),
{
    lemma_scale_sum(1, 0, 149);
    lemma_reach(past, current);
    law_eased_stays_between(past, current);
}

} // verus!
