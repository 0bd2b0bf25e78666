//! The clock of a round.
//!
//! The time left is a single precision number of seconds, and each tick takes
//! a single precision tenth of a second off it. Both are kept here as whole
//! numbers of a unit that is small enough to hold every value the clock can
//! take: 2^-27 s.

use vstd::arithmetic::div_mod::{lemma_fundamental_div_mod, lemma_fundamental_div_mod_converse};
use vstd::prelude::*;

use crate::single::{
    is_single, lemma_nearest_ratio, lemma_quantum_positive, nearest_single, quantum, round_ratio,
};

verus! {

/// Units in a second.
pub const UNITS_PER_SECOND: u64 = 0x800_0000;

/// The length of a round in units: 180 s.
pub const TIMER_MAX: u64 = 24_159_191_040;

/// What a tick takes off the clock: the single precision number nearest to a
/// tenth of a second.
pub const TICK: u64 = 13_421_773;

/// The clock after `n` ticks, when it is not set anew on the way.
pub open spec fn countdown(units: int, n: nat) -> int
    decreases n,
{
    if n == 0 {
        units
    } else {
        countdown(nearest_single(units - TICK), (n - 1) as nat)
    }
}

/// The quantum of a number is the one of its band: the numbers from 2^23 to
/// 2^24 quanta.
proof fn lemma_band(x: int, q: int)
    requires
        q == 1 || q == 2 || q == 4 || q == 8 || q == 16 || q == 32 || q == 64 || q == 128 || q == 256
            || q == 512 || q == 1024 || q == 2048,
        0x80_0000 * q <= x < 0x100_0000 * q,
    ensures
        quantum(x) == q,
    decreases q,
{
    if q > 1 {
        lemma_band(x / 2, q / 2);
    }
}

/// A tick inside the band of quantum `q` takes the multiple of `q` next to a
/// tenth of a second off the clock.
proof fn lemma_band_step(units: int, q: int, step: int)
    requires
        quantum(units - TICK) == q,
        q > 0,
        units % q == 0,
        step % q == 0,
        -q < 2 * (step - TICK) < q,
    ensures
        nearest_single(units - TICK) == units - step,
        (units - step) % q == 0,
{
    let x = units - TICK;
    let off = step - TICK;
    lemma_fundamental_div_mod(units, q);
    lemma_fundamental_div_mod(step, q);
    let k = units / q - step / q;
    assert(units - step == k * q) by (nonlinear_arith)
        requires
            units == q * (units / q),
            step == q * (step / q),
            k == units / q - step / q,
    ;
    lemma_fundamental_div_mod_converse(units - step, q, k, 0);
    if off >= 0 {
        lemma_fundamental_div_mod_converse(x, q, k, off);
    } else {
        assert(k * q == (k - 1) * q + q) by (nonlinear_arith);
        lemma_fundamental_div_mod_converse(x, q, k - 1, q + off);
    }
}

/// As long as the clock stays inside the band of quantum `q`, every tick takes
/// the same `step` off it.
proof fn lemma_run(units: int, q: int, step: int, n: nat, m: nat)
    requires
        q == 1 || q == 2 || q == 4 || q == 8 || q == 16 || q == 32 || q == 64 || q == 128 || q == 256
            || q == 512 || q == 1024 || q == 2048,
        units % q == 0,
        step % q == 0,
        step > 0,
        -q < 2 * (step - TICK) < q,
        units - TICK < 0x100_0000 * q,
        n > 0 ==> units - (n - 1) * step - TICK >= 0x80_0000 * q,
    ensures
        countdown(units, n + m) == countdown(units - n * step, m),
    decreases n,
{
    if n > 0 {
        assert((n - 1) * step >= 0) by (nonlinear_arith)
            requires
                n > 0,
                step > 0,
        ;
        lemma_band(units - TICK, q);
        lemma_band_step(units, q, step);
        assert((n - 1) * step == step + (n - 2) * step && n * step == step + (n - 1) * step)
            by (nonlinear_arith);
        lemma_run(units - step, q, step, (n - 1) as nat, m);
    } else {
        assert(n * step == 0) by (nonlinear_arith)
            requires
                n == 0,
        ;
    }
}

/// The first 1799 ticks of a round, band by band.
proof fn lemma_whole_countdown(m: nat)
    ensures
        countdown(TIMER_MAX as int, 1799 + m) == countdown(13_181_651, m),
{
    lemma_run(24_159_191_040, 2048, 13_422_592, 519, 1280 + m);
    lemma_run(17_192_865_792, 1024, 13_421_568, 640, 640 + m);
    lemma_run(8_603_062_272, 512, 13_421_568, 320, 320 + m);
    lemma_run(4_308_160_512, 256, 13_421_824, 160, 160 + m);
    lemma_run(2_160_668_672, 128, 13_421_824, 80, 80 + m);
    lemma_run(1_086_922_752, 64, 13_421_760, 40, 40 + m);
    lemma_run(550_052_352, 32, 13_421_760, 20, 20 + m);
    lemma_run(281_617_152, 16, 13_421_776, 10, 10 + m);
    lemma_run(147_399_392, 8, 13_421_776, 5, 5 + m);
    lemma_run(80_290_512, 4, 13_421_772, 3, 2 + m);
    lemma_band(40_025_196 - TICK, 2);
    assert(countdown(40_025_196, 2 + m) == countdown(26_603_424, 1 + m));
    lemma_run(26_603_424, 1, 13_421_773, 1, m);
}

/// A tick always takes something off the clock.
proof fn lemma_tick_decreases(units: int)
    requires
        units <= TIMER_MAX,
    ensures
        nearest_single(units - TICK) < units,
{
    let x = units - TICK;
    lemma_quantum_bound(x);
    lemma_quantum_positive(x);
    if x < 0 {
        assert(x % 1 == 0);
    }
}

proof fn lemma_quantum_bound(x: int)
    requires
        x < 0x10_0000_0000,
    ensures
        quantum(x) <= 4096,
{
    reveal_with_fuel(quantum, 14);
}

/// Fewer ticks leave more on the clock.
proof fn lemma_countdown_decreases(units: int, n: nat, m: nat)
    requires
        units <= TIMER_MAX,
        n < m,
    ensures
        countdown(units, m) < countdown(units, n),
    decreases m,
{
    let next = nearest_single(units - TICK);
    lemma_tick_decreases(units);
    if n > 0 {
        lemma_countdown_decreases(next, (n - 1) as nat, (m - 1) as nat);
    } else if m > 1 {
        lemma_countdown_decreases(next, 0, (m - 1) as nat);
    } else {
        assert(countdown(next, 0) == next);
    }
}

/// A round lasts 1800 ticks: the clock shows more than nothing after every
/// smaller number of ticks, and no more than nothing after 1800.
pub proof fn law_round_lasts_1800_ticks(n: nat)
    ensures
        n < 1800 <==> countdown(TIMER_MAX as int, n) > 0,
{
    lemma_whole_countdown(0);
    lemma_whole_countdown(1);
    assert(countdown(13_181_651, 0) == 13_181_651);
    assert(countdown(13_181_651, 1) == countdown(nearest_single(13_181_651 - TICK), 0));
    if n < 1799 {
        lemma_countdown_decreases(TIMER_MAX as int, n, 1799);
    } else if n > 1800 {
        lemma_countdown_decreases(TIMER_MAX as int, 1800, n);
    }
}

/// A full clock shows a single precision number.
pub proof fn lemma_full_wf()
    ensures
        (Clock { units: TIMER_MAX }).wf(),
{
    lemma_band(TIMER_MAX as int, 2048);
}

/// A tick that leaves time on the clock leaves a single precision number.
pub proof fn lemma_tick_keeps_wf(clock: Clock)
    requires
        clock.wf(),
    ensures
        ({
            let rest = nearest_single(clock.units - TICK);
            rest > 0 ==> rest <= TIMER_MAX && (Clock { units: rest as u64 }).wf()
        }),
        (Clock { units: TIMER_MAX }).wf(),
{
    lemma_full_wf();
    lemma_tick_decreases(clock.units as int);
    if clock.units >= TICK {
        lemma_nearest_ratio(clock.units - TICK, 1);
    }
}

/// The time left in a round.
#[derive(Debug, Clone, Copy, PartialEq, Eq, Structural)]
pub struct Clock {
    pub units: u64,
}

impl Clock {
    /// The clock shows a single precision number of seconds, and at most the
    /// length of a round.
    pub open spec fn wf(self) -> bool {
        &&& self.units <= TIMER_MAX
        &&& is_single(self.units as int)
    }

    /// A clock with a whole round left.
    pub fn full() -> (r: Clock)
        ensures
            r.units == TIMER_MAX,
            r.wf(),
    {
        proof {
            lemma_full_wf();
        }
        Clock { units: TIMER_MAX }
    }

    /// A clock with no time left.
    pub fn empty() -> (r: Clock)
        ensures
            r.units == 0,
            r.wf(),
    {
        Clock { units: 0 }
    }

    /// Takes a tick off the clock. When that leaves no time, the clock is
    /// filled again for the next round.
    pub fn tick(&mut self) -> (expired: bool)
        requires
            old(self).wf(),
        ensures
            final(self).wf(),
            expired <==> nearest_single(old(self).units - TICK) <= 0,
            final(self).units == (if expired {
                TIMER_MAX as int
            } else {
                nearest_single(old(self).units - TICK)
            }),
    {
        if self.units <= TICK {
            *self = Clock::full();
            true
        } else {
            proof {
                lemma_nearest_ratio(self.units - TICK, 1);
                lemma_tick_keeps_wf(*self);
            }
            let rest: u64 = round_ratio((self.units - TICK) as u128, 1) as u64;
            if rest == 0 {
                *self = Clock::full();
                true
            } else {
                self.units = rest;
                false
            }
        }
    }

    /// The whole seconds that are left.
    pub fn seconds(&self) -> (r: u32)
        requires
            self.wf(),
        ensures
            r == self.units / UNITS_PER_SECOND,
    {
        (self.units / UNITS_PER_SECOND) as u32
    }
}

} // verus!
