//! A single periodic gate and its value at an instant.

use vstd::arithmetic::div_mod::{
    lemma_mod_add_multiples_vanish, lemma_mod_multiples_vanish, lemma_small_mod,
};
use vstd::prelude::*;

verus! {

/// Ticks in one second. Phases are drawn on a grid of this many steps per
/// period, so a gate whose durations are whole seconds has every phase on a tick.
pub const TICKS_PER_SECOND: u64 = 100_000;

/// The longest period, in ticks, that a gate may have: twice this still fits
/// a signed 64-bit instant.
pub const MAX_PERIOD: u64 = 0x4000_0000_0000_0000;

/// What a gate is, mathematically: two durations and a phase offset, in ticks.
pub struct GateModel {
    pub high: nat,
    pub low: nat,
    pub start: int,
}

impl GateModel {
    /// Length of one full cycle.
    pub open spec fn period(self) -> nat {
        self.high + self.low
    }

    /// A gate has a positive period that is no longer than [`MAX_PERIOD`].
    pub open spec fn wf(self) -> bool {
        0 < self.period() <= MAX_PERIOD
    }

    /// Position of instant `t` inside the cycle, in `[0, period)`.
    pub open spec fn phase_at(self, t: int) -> int {
        (t - self.start) % (self.period() as int)
    }

    /// A gate is on during the first `high` ticks of each cycle.
    pub open spec fn is_on(self, t: int) -> bool {
        self.phase_at(t) < self.high
    }

    /// 1 while this gate is on, 0 while it is off.
    pub open spec fn value_at(self, t: int) -> nat {
        if self.is_on(t) {
            1
        } else {
            0
        }
    }

    /// The same gate with another phase offset.
    pub open spec fn with_start(self, start: int) -> GateModel {
        GateModel { high: self.high, low: self.low, start }
    }
}

/// A periodic pulse source: on for `high_duration` ticks, then off for
/// `low_duration` ticks, shifted by `start_time`.
#[derive(Clone, Copy, Debug, PartialEq, Eq)]
pub struct Gate {
    high_duration: u64,
    low_duration: u64,
    start_time: i64,
}

impl View for Gate {
    type V = GateModel;

    closed spec fn view(&self) -> GateModel {
        GateModel {
            high: self.high_duration as nat,
            low: self.low_duration as nat,
            start: self.start_time as int,
        }
    }
}

impl Gate {
    #[verifier::type_invariant]
    spec fn inv(self) -> bool {
        self@.wf()
    }

    /// Builds a gate, or nothing when the period would be zero or longer than
    /// [`MAX_PERIOD`].
    pub fn new(high_duration: u64, low_duration: u64, start_time: i64) -> (r: Option<Gate>)
        ensures
            r is Some <==> 0 < high_duration + low_duration <= MAX_PERIOD,
            r matches Some(g) ==> g@ == (GateModel {
                high: high_duration as nat,
                low: low_duration as nat,
                start: start_time as int,
            }),
    {
        if high_duration > MAX_PERIOD || low_duration > MAX_PERIOD {
            return None;
        }
        let period: u64 = high_duration + low_duration;
        if period == 0 || period > MAX_PERIOD {
            return None;
        }
        Some(Gate { high_duration, low_duration, start_time })
    }

    /// Builds a gate from durations whose sum is known to be a valid period.
    pub(crate) fn from_valid_parts(high_duration: u64, low_duration: u64, start_time: i64) -> (g:
        Gate)
        requires
            0 < high_duration + low_duration <= MAX_PERIOD,
        ensures
            g@ == (GateModel {
                high: high_duration as nat,
                low: low_duration as nat,
                start: start_time as int,
            }),
    {
        Gate { high_duration, low_duration, start_time }
    }

    /// The same gate shifted to another phase offset.
    pub fn with_start_time(self, start_time: i64) -> (g: Gate)
        ensures
            g@ == self@.with_start(start_time as int),
    {
        proof {
            use_type_invariant(self);
        }
        Gate {
            high_duration: self.high_duration,
            low_duration: self.low_duration,
            start_time,
        }
    }

    /// Ticks per cycle during which this gate is on.
    pub fn high_duration(&self) -> (r: u64)
        ensures
            r == self@.high,
    {
        self.high_duration
    }

    /// Ticks per cycle during which this gate is off.
    pub fn low_duration(&self) -> (r: u64)
        ensures
            r == self@.low,
    {
        self.low_duration
    }

    /// Phase offset: an instant at which an on-phase begins.
    pub fn start_time(&self) -> (r: i64)
        ensures
            r == self@.start,
    {
        self.start_time
    }

    /// Length of one cycle, always positive.
    pub fn period(&self) -> (r: u64)
        ensures
            r == self@.high + self@.low,
            r == self@.period(),
            0 < r <= MAX_PERIOD,
            self@.wf(),
    {
        proof {
            use_type_invariant(self);
        }
        self.high_duration + self.low_duration
    }

    /// Value of this gate at instant `t`: 1 when `t` falls in the on-part of a
    /// cycle, 0 otherwise. Instants before `start_time` wrap into the cycle.
    pub fn calculate_value(&self, t: i64) -> (v: u64)
        ensures
            v == self@.value_at(t as int),
            v == 1 <==> 0 <= self@.phase_at(t as int) < self@.high,
            v == 0 <==> self@.high <= self@.phase_at(t as int) < self@.period(),
    {
        let period: u64 = self.period();
        let offset: i128 = t as i128 - self.start_time as i128;
        let phase = offset.checked_rem_euclid(period as i128);
        proof {
            lemma_phase_in_cycle(self@, t as int);
        }
        // A period is never zero, so the remainder always exists.
        match phase {
            Some(p) => {
                if p < self.high_duration as i128 {
                    1
                } else {
                    0
                }
            },
            None => 0,
        }
    }
}

/// The phase of any instant lies inside the cycle.
pub proof fn lemma_phase_in_cycle(g: GateModel, t: int)
    requires
        g.wf(),
    ensures
        0 <= g.phase_at(t) < g.period(),
{
}

/// A gate's value repeats after one period.
pub proof fn lemma_value_periodic(g: GateModel, t: int)
    requires
        g.wf(),
    ensures
        g.phase_at(t + g.period()) == g.phase_at(t),
        g.value_at(t + g.period()) == g.value_at(t),
{
    let p = g.period() as int;
    lemma_mod_add_multiples_vanish(t - g.start, p);
    assert(t + g.period() - g.start == p + (t - g.start));
}

/// A gate's value repeats after any whole number of periods, forwards or
/// backwards.
pub proof fn lemma_value_periodic_multiple(g: GateModel, t: int, cycles: int)
    requires
        g.wf(),
    ensures
        g.value_at(t + cycles * g.period()) == g.value_at(t),
{
    let p = g.period() as int;
    lemma_mod_multiples_vanish(cycles, t - g.start, p);
    assert(t + cycles * g.period() - g.start == p * cycles + (t - g.start)) by (nonlinear_arith)
        requires
            p == g.period(),
    ;
}

/// Inside every cycle a gate is on for exactly the first `high` ticks and
/// off for the remaining `low` ticks: at `offset` ticks after the start of the
/// cycle numbered `cycle`, the phase is `offset`, and the value is 1 when
/// `offset < high` and 0 otherwise.
pub proof fn lemma_value_within_cycle(g: GateModel, cycle: int, offset: int)
    requires
        g.wf(),
        0 <= offset < g.period(),
    ensures
        g.phase_at(g.start + cycle * g.period() + offset) == offset,
        offset < g.high ==> g.value_at(g.start + cycle * g.period() + offset) == 1,
        g.high <= offset ==> g.value_at(g.start + cycle * g.period() + offset) == 0,
{
    let p = g.period() as int;
    let t = g.start + cycle * g.period() + offset;
    lemma_mod_multiples_vanish(cycle, offset, p);
    lemma_small_mod(offset as nat, p as nat);
    assert(t - g.start == p * cycle + offset) by (nonlinear_arith)
        requires
            t == g.start + cycle * g.period() + offset,
            p == g.period(),
    ;
}

} // verus!
