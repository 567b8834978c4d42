//! Building populations of gates: independent random gates, and fresh phases
//! for an existing population.

use crate::gate::{Gate, GateModel, TICKS_PER_SECOND};
use crate::random::draw_in_range;
use crate::ratio::{lemma_ceil_parts_cover, Ratio, RatioModel};
use vstd::prelude::*;

verus! {

/// Number of equally spaced phases per period from which a start time is drawn.
pub const PHASE_STEPS: u64 = 100_000;

/// Shortest period, in seconds, of a randomly generated gate.
pub const MIN_PERIOD_SECONDS: u32 = 10;

/// The phase offset that lies `step` grid steps into a period of `period`
/// ticks, rounded down to a tick.
pub open spec fn phase_offset(period: nat, step: nat) -> nat {
    ((step * period) / (PHASE_STEPS as nat)) as nat
}

/// `n` seconds, in ticks.
pub open spec fn seconds(n: nat) -> nat {
    n * (TICKS_PER_SECOND as nat)
}

/// `ticks` rounded up to a whole number of seconds.
pub open spec fn round_up_to_second(ticks: nat) -> nat {
    (((ticks + TICKS_PER_SECOND - 1) / (TICKS_PER_SECOND as int)) * TICKS_PER_SECOND) as nat
}

/// What is generated from a drawn period of `period_secs` seconds, a target
/// duty ratio and a drawn phase step. The off-time is the complement's share
/// of the period and the on-time is the rest of it, each rounded up to a whole
/// second; the start is the drawn phase, rounded up to a whole second.
pub open spec fn generated_gate(period_secs: nat, high_ratio: RatioModel, step: nat) -> GateModel {
    GateModel {
        high: seconds(high_ratio.ceil_of(period_secs)),
        low: seconds(high_ratio.complement().ceil_of(period_secs)),
        start: round_up_to_second(phase_offset(seconds(period_secs), step)) as int,
    }
}

/// `g` is one of the gates that random generation can produce for periods
/// below `max_period` seconds.
pub open spec fn is_generated(g: GateModel, max_period: nat, high_ratio: RatioModel) -> bool {
    exists|period_secs: nat, step: nat|
        MIN_PERIOD_SECONDS <= period_secs < max_period && step < PHASE_STEPS && g
            == #[trigger] generated_gate(period_secs, high_ratio, step)
}

/// `after` is `before` with its start time moved onto one of the grid phases
/// of its period.
pub open spec fn is_rephased(before: GateModel, after: GateModel) -> bool {
    exists|step: nat|
        step < PHASE_STEPS && after == before.with_start(
            #[trigger] phase_offset(before.period(), step) as int,
        )
}

/// Every gate of `after` is its counterpart at the same place in `before`,
/// rephased.
pub open spec fn all_rephased(before: Seq<Gate>, after: Seq<Gate>) -> bool {
    &&& after.len() == before.len()
    &&& forall|i: int| 0 <= i < before.len() ==> is_rephased(before[i]@, #[trigger] after[i]@)
}

/// A generated gate is a valid gate: its period is at least the drawn period
/// and at most one second longer, and its start lies within the drawn period.
pub proof fn lemma_generated_gate_valid(period_secs: nat, high_ratio: RatioModel, step: nat)
    requires
        0 < period_secs <= u32::MAX,
        high_ratio.wf(),
        step < PHASE_STEPS,
    ensures
        generated_gate(period_secs, high_ratio, step).wf(),
        generated_gate(period_secs, high_ratio, step).period() > 0,
        period_secs * TICKS_PER_SECOND <= generated_gate(period_secs, high_ratio, step).period()
            <= (period_secs + 1) * TICKS_PER_SECOND,
        0 <= generated_gate(period_secs, high_ratio, step).start <= period_secs
            * TICKS_PER_SECOND,
{
    let g = generated_gate(period_secs, high_ratio, step);
    let h = high_ratio.ceil_of(period_secs);
    let l = high_ratio.complement().ceil_of(period_secs);
    lemma_ceil_parts_cover(high_ratio, period_secs);
    assert(g.period() == (h + l) * TICKS_PER_SECOND) by (nonlinear_arith)
        requires
            g.period() == h * TICKS_PER_SECOND + l * TICKS_PER_SECOND,
    ;
    assert(period_secs * TICKS_PER_SECOND <= (h + l) * TICKS_PER_SECOND <= (period_secs + 1)
        * TICKS_PER_SECOND) by (nonlinear_arith)
        requires
            period_secs <= h + l <= period_secs + 1,
    ;
    lemma_start_seconds(period_secs, step);
}

/// The drawn phase of a period of whole seconds, rounded up to a second, is
/// the product of step and seconds divided by the grid, rounded up, and does
/// not exceed the period.
proof fn lemma_start_seconds(period_secs: nat, step: nat)
    requires
        step < PHASE_STEPS,
    ensures
        phase_offset(seconds(period_secs), step) == step * period_secs,
        round_up_to_second(step * period_secs) == ((step * period_secs + 99_999) / 100_000)
            * 100_000,
        (step * period_secs + 99_999) / 100_000 <= period_secs,
        0 <= (step * period_secs + 99_999) / 100_000,
{
    let x = step * period_secs;
    assert(step * (period_secs * 100_000) == x * 100_000) by (nonlinear_arith)
        requires
            x == step * period_secs,
    ;
    assert((x * 100_000) / 100_000 == x) by (nonlinear_arith);
    assert(0 <= x <= 99_999 * period_secs) by (nonlinear_arith)
        requires
            x == step * period_secs,
            step <= 99_999,
    ;
}

impl Gate {
    /// Builds a gate from a drawn period and a drawn phase step.
    pub fn new_periodic(period_secs: u32, high_ratio: Ratio, step: u64) -> (g: Gate)
        requires
            0 < period_secs,
            step < PHASE_STEPS,
        ensures
            g@ == generated_gate(period_secs as nat, high_ratio@, step as nat),
            g@.wf(),
    {
        let complement = high_ratio.complement();
        let low_secs: u64 = complement.ceil_of(period_secs as u64);
        let high_secs: u64 = high_ratio.ceil_of(period_secs as u64);
        proof {
            lemma_generated_gate_valid(period_secs as nat, high_ratio@, step as nat);
            lemma_start_seconds(period_secs as nat, step as nat);
            assert(step * period_secs <= 99_999 * 0xffff_ffff) by (nonlinear_arith)
                requires
                    step <= 99_999,
                    period_secs <= 0xffff_ffff,
            ;
        }
        let drawn: u64 = step * (period_secs as u64);
        let start_secs: u64 = (drawn + (TICKS_PER_SECOND - 1)) / TICKS_PER_SECOND;
        Gate::from_valid_parts(
            high_secs * TICKS_PER_SECOND,
            low_secs * TICKS_PER_SECOND,
            (start_secs * TICKS_PER_SECOND) as i64,
        )
    }

    /// Creates a gate with randomly drawn parameters: a whole period of at
    /// least [`MIN_PERIOD_SECONDS`] and less than `max_period` seconds, split
    /// by `high_ratio`, and a start time within that period.
    pub fn new_random_periodic(max_period: u32, high_ratio: Ratio) -> (g: Gate)
        requires
            MIN_PERIOD_SECONDS < max_period,
        ensures
            is_generated(g@, max_period as nat, high_ratio@),
            g@.period() > 0,
    {
        let period_secs: u32 = draw_in_range(MIN_PERIOD_SECONDS as u64, max_period as u64) as u32;
        let step: u64 = draw_in_range(0, PHASE_STEPS);
        let g = Gate::new_periodic(period_secs, high_ratio, step);
        assert(g@ == generated_gate(period_secs as nat, high_ratio@, step as nat));
        g
    }

    /// Produces `n` independently generated gates; none when `n` is not
    /// positive.
    pub fn generate_n_periodic(n: i64, max_period: u32, high_ratio: Ratio) -> (gates: Vec<Gate>)
        requires
            n > 0 ==> MIN_PERIOD_SECONDS < max_period,
        ensures
            gates@.len() == if n > 0 {
                n as int
            } else {
                0
            },
            forall|i: int|
                0 <= i < gates@.len() ==> is_generated(
                    #[trigger] gates@[i]@,
                    max_period as nat,
                    high_ratio@,
                ),
    {
        let mut gates: Vec<Gate> = Vec::new();
        let mut made: i64 = 0;
        while made < n
            invariant
                0 <= made,
                n > 0 ==> made <= n,
                n <= 0 ==> made == 0,
                n > 0 ==> MIN_PERIOD_SECONDS < max_period,
                gates@.len() == made,
                forall|i: int|
                    0 <= i < gates@.len() ==> is_generated(
                        #[trigger] gates@[i]@,
                        max_period as nat,
                        high_ratio@,
                    ),
            decreases n - made,
        {
            let g = Gate::new_random_periodic(max_period, high_ratio);
            gates.push(g);
            made = made + 1;
        }
        gates
    }

    /// The same gate with its start time moved to the grid phase `step` of its
    /// period.
    pub fn with_phase_step(self, step: u64) -> (g: Gate)
        requires
            step < PHASE_STEPS,
        ensures
            g@ == self@.with_start(phase_offset(self@.period(), step as nat) as int),
            is_rephased(self@, g@),
            0 <= g@.start < self@.period(),
    {
        let period: u64 = self.period();
        proof {
            assert(step * period <= 99_999 * 0x4000_0000_0000_0000) by (nonlinear_arith)
                requires
                    step <= 99_999,
                    period <= 0x4000_0000_0000_0000,
            ;
            assert(0 <= (step * period) / 100_000 < period) by (nonlinear_arith)
                requires
                    0 <= step <= 99_999,
                    0 < period,
            ;
        }
        let scaled: u128 = step as u128 * period as u128;
        let start_time: i64 = (scaled / PHASE_STEPS as u128) as i64;
        let g = self.with_start_time(start_time);
        assert(g@ == self@.with_start(phase_offset(self@.period(), step as nat) as int));
        g
    }

    /// Gives every gate a freshly drawn start time within its period; the
    /// durations stay as they are.
    pub fn randomize_start_time(gates: &mut Vec<Gate>)
        ensures
            all_rephased(old(gates)@, final(gates)@),
    {
        let n: usize = gates.len();
        let mut i: usize = 0;
        while i < n
            invariant
                i <= n,
                n == old(gates)@.len(),
                gates@.len() == n,
                forall|j: int| 0 <= j < i ==> is_rephased(old(gates)@[j]@, #[trigger] gates@[j]@),
                forall|j: int| i <= j < n ==> gates@[j] == old(gates)@[j],
            decreases n - i,
        {
            let step: u64 = draw_in_range(0, PHASE_STEPS);
            let g: Gate = gates[i].with_phase_step(step);
            gates.set(i, g);
            i = i + 1;
        }
    }
}

} // verus!
