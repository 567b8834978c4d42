//! Peak overlap of a population over a set of sampled instants.

use crate::gate::{Gate, MAX_PERIOD};
use rayon::prelude::{IntoParallelRefIterator, ParallelIterator};
use vstd::prelude::*;

verus! {

/// Distance between two sampled instants: half a second.
pub const SAMPLE_STEP: u64 = 50_000;

/// Number of gates of the population that are on at instant `t`.
pub open spec fn active_at(gates: Seq<Gate>, t: int) -> nat
    decreases gates.len(),
{
    if gates.len() == 0 {
        0
    } else {
        active_at(gates.drop_last(), t) + gates.last()@.value_at(t)
    }
}

/// The largest number of simultaneously active gates over the sampled
/// instants; 0 when nothing is sampled.
pub open spec fn peak_overlap(gates: Seq<Gate>, points: Seq<i64>) -> nat
    decreases points.len(),
{
    if points.len() == 0 {
        0
    } else {
        let rest = peak_overlap(gates, points.drop_last());
        let here = active_at(gates, points.last() as int);
        if here > rest {
            here
        } else {
            rest
        }
    }
}

/// The longest period in the population; 0 when it is empty.
pub open spec fn longest_period(gates: Seq<Gate>) -> nat
    decreases gates.len(),
{
    if gates.len() == 0 {
        0
    } else {
        let rest = longest_period(gates.drop_last());
        let here = gates.last()@.period();
        if here > rest {
            here
        } else {
            rest
        }
    }
}

/// The instants `first, first + SAMPLE_STEP, ...` below `2 * first`.
pub open spec fn sample_window(first: nat) -> Seq<i64> {
    Seq::new(
        ((first + SAMPLE_STEP - 1) / (SAMPLE_STEP as int)) as nat,
        |i: int| (first + i * SAMPLE_STEP) as i64,
    )
}

/// No instant sees more active gates than the population has.
pub proof fn lemma_active_at_most_len(gates: Seq<Gate>, t: int)
    ensures
        active_at(gates, t) <= gates.len(),
    decreases gates.len(),
{
    if gates.len() > 0 {
        lemma_active_at_most_len(gates.drop_last(), t);
    }
}

/// When every gate is on at `t`, the count at `t` is the size of the
/// population.
pub proof fn lemma_all_on_counts_all(gates: Seq<Gate>, t: int)
    requires
        forall|i: int| 0 <= i < gates.len() ==> (#[trigger] gates[i])@.is_on(t),
    ensures
        active_at(gates, t) == gates.len(),
    decreases gates.len(),
{
    if gates.len() > 0 {
        let rest = gates.drop_last();
        assert forall|i: int| 0 <= i < rest.len() implies (#[trigger] rest[i])@.is_on(t) by {
            assert(rest[i] == gates[i]);
        }
        lemma_all_on_counts_all(rest, t);
        assert(gates.last() == gates[gates.len() - 1]);
    }
}

/// The peak is the count at one of the sampled instants and no sampled
/// instant exceeds it; it lies between 0 and the size of the population.
pub proof fn lemma_peak_is_maximum(gates: Seq<Gate>, points: Seq<i64>)
    ensures
        forall|i: int|
            0 <= i < points.len() ==> #[trigger] active_at(gates, points[i] as int)
                <= peak_overlap(gates, points),
        points.len() > 0 ==> exists|i: int|
            0 <= i < points.len() && #[trigger] active_at(gates, points[i] as int)
                == peak_overlap(gates, points),
        peak_overlap(gates, points) <= gates.len(),
    decreases points.len(),
{
    if points.len() > 0 {
        let rest = points.drop_last();
        let last = points.len() - 1;
        lemma_peak_is_maximum(gates, rest);
        lemma_active_at_most_len(gates, points.last() as int);
        assert forall|i: int| 0 <= i < points.len() implies #[trigger] active_at(
            gates,
            points[i] as int,
        ) <= peak_overlap(gates, points) by {
            if i < last {
                assert(rest[i] == points[i]);
            }
        }
        if active_at(gates, points.last() as int) > peak_overlap(gates, rest) || rest.len() == 0 {
            assert(active_at(gates, points[last] as int) == peak_overlap(gates, points));
        } else {
            let i = choose|i: int|
                0 <= i < rest.len() && #[trigger] active_at(gates, rest[i] as int)
                    == peak_overlap(gates, rest);
            assert(rest[i] == points[i]);
            assert(active_at(gates, points[i] as int) == peak_overlap(gates, points));
        }
    }
}

/// A value that is reached at a sampled instant and exceeded at none is the
/// peak.
pub proof fn lemma_maximum_is_peak(gates: Seq<Gate>, points: Seq<i64>, m: nat)
    requires
        exists|i: int| 0 <= i < points.len() && #[trigger] active_at(gates, points[i] as int) == m,
        forall|i: int| 0 <= i < points.len() ==> #[trigger] active_at(gates, points[i] as int) <= m,
    ensures
        m == peak_overlap(gates, points),
{
    lemma_peak_is_maximum(gates, points);
}

/// An empty population has peak 0 over any sampled instants.
pub proof fn lemma_empty_population_peak(gates: Seq<Gate>, points: Seq<i64>)
    requires
        gates.len() == 0,
    ensures
        peak_overlap(gates, points) == 0,
{
    lemma_peak_is_maximum(gates, points);
}

/// When all gates are on together at one of the sampled instants, the peak
/// is the size of the population, and it is the count at that instant.
pub proof fn lemma_all_on_peak(gates: Seq<Gate>, points: Seq<i64>, at: int)
    requires
        0 <= at < points.len(),
        forall|i: int| 0 <= i < gates.len() ==> (#[trigger] gates[i])@.is_on(points[at] as int),
    ensures
        active_at(gates, points[at] as int) == gates.len(),
        peak_overlap(gates, points) == gates.len(),
        forall|i: int|
            0 <= i < points.len() ==> #[trigger] active_at(gates, points[i] as int) <= gates.len(),
{
    lemma_all_on_counts_all(gates, points[at] as int);
    lemma_peak_is_maximum(gates, points);
    assert forall|i: int| 0 <= i < points.len() implies #[trigger] active_at(
        gates,
        points[i] as int,
    ) <= gates.len() by {
        lemma_active_at_most_len(gates, points[i] as int);
    }
}

/// The longest period is the period of one of the gates, none is longer, and
/// it is a valid period when the gates are valid.
pub proof fn lemma_longest_period_is_maximum(gates: Seq<Gate>)
    ensures
        forall|i: int| 0 <= i < gates.len() ==> (#[trigger] gates[i])@.period() <= longest_period(gates),
        gates.len() > 0 ==> exists|i: int|
            0 <= i < gates.len() && (#[trigger] gates[i])@.period() == longest_period(gates),
    decreases gates.len(),
{
    if gates.len() > 0 {
        let rest = gates.drop_last();
        let last = gates.len() - 1;
        lemma_longest_period_is_maximum(rest);
        assert forall|i: int| 0 <= i < gates.len() implies (#[trigger] gates[i])@.period()
            <= longest_period(gates) by {
            if i < last {
                assert(rest[i] == gates[i]);
            }
        }
        if gates.last()@.period() > longest_period(rest) || rest.len() == 0 {
            assert(gates[last]@.period() == longest_period(gates));
        } else {
            let i = choose|i: int|
                0 <= i < rest.len() && (#[trigger] rest[i])@.period() == longest_period(rest);
            assert(rest[i] == gates[i]);
            assert(gates[i]@.period() == longest_period(gates));
        }
    }
}

/// The largest count over the sampled instants, found by `rayon`.
///
/// The body is `points.par_iter().map(..).max()`: `par_iter` hands out every
/// element of the slice, `map` replaces each instant by the number of gates
/// active at it (computed by [`Gate::count_active`]), and
/// `ParallelIterator::max` returns `None` for no items and otherwise the
/// greatest item. The contract says exactly that: nothing for no instants,
/// else a count that is reached at one instant and exceeded at none.
#[verifier::external_body]
fn par_max_active(gates: &[Gate], points: &[i64]) -> (r: Option<u64>)
    ensures
        r is None <==> points@.len() == 0,
        r matches Some(m) ==> {
            &&& exists|i: int|
                0 <= i < points@.len() && #[trigger] active_at(gates@, points@[i] as int) == m
            &&& forall|i: int|
                0 <= i < points@.len() ==> #[trigger] active_at(gates@, points@[i] as int) <= m
        },
{
    points.par_iter().map(|t| Gate::count_active(gates, *t)).max()
}

impl Gate {
    /// Number of gates that are on at instant `t`.
    pub fn count_active(gates: &[Gate], t: i64) -> (n: u64)
        ensures
            n == active_at(gates@, t as int),
            n <= gates@.len(),
    {
        let mut n: u64 = 0;
        let mut i: usize = 0;
        while i < gates.len()
            invariant
                i <= gates@.len(),
                n == active_at(gates@.take(i as int), t as int),
                n <= i,
            decreases gates@.len() - i,
        {
            let v: u64 = gates[i].calculate_value(t);
            proof {
                let next = gates@.take(i + 1);
                assert(next.drop_last() =~= gates@.take(i as int));
                assert(next.last() == gates@[i as int]);
            }
            n = n + v;
            i = i + 1;
        }
        assert(gates@.take(gates@.len() as int) =~= gates@);
        n
    }

    /// The longest period in the population, 0 for an empty one.
    pub fn max_period(gates: &[Gate]) -> (r: u64)
        ensures
            r == longest_period(gates@),
            r <= MAX_PERIOD,
            gates@.len() > 0 ==> r > 0,
    {
        let mut r: u64 = 0;
        let mut i: usize = 0;
        while i < gates.len()
            invariant
                i <= gates@.len(),
                r == longest_period(gates@.take(i as int)),
                r <= MAX_PERIOD,
                i > 0 ==> r > 0,
            decreases gates@.len() - i,
        {
            let p: u64 = gates[i].period();
            proof {
                let next = gates@.take(i + 1);
                assert(next.drop_last() =~= gates@.take(i as int));
                assert(next.last() == gates@[i as int]);
            }
            if p > r {
                r = p;
            }
            i = i + 1;
        }
        assert(gates@.take(gates@.len() as int) =~= gates@);
        r
    }

    /// The maximum, over the sampled instants, of the number of gates that
    /// are on together; 0 when there are no gates or no instants.
    pub fn evaluate_max_on_range(gates: &[Gate], points: &[i64]) -> (r: u64)
        ensures
            r == peak_overlap(gates@, points@),
            r <= gates@.len(),
            gates@.len() == 0 ==> r == 0,
            forall|i: int|
                0 <= i < points@.len() ==> #[trigger] active_at(gates@, points@[i] as int) <= r,
    {
        proof {
            lemma_peak_is_maximum(gates@, points@);
        }
        match par_max_active(gates, points) {
            Some(m) => {
                proof {
                    lemma_maximum_is_peak(gates@, points@, m as nat);
                }
                m
            },
            None => 0,
        }
    }
}

/// The instants at which a population with longest period `max_period` is
/// sampled: from `max_period` up to, but not including, twice `max_period`,
/// in steps of [`SAMPLE_STEP`].
pub fn sample_points(max_period: u64) -> (points: Vec<i64>)
    requires
        max_period <= MAX_PERIOD,
    ensures
        points@ == sample_window(max_period as nat),
        forall|i: int|
            0 <= i < points@.len() ==> max_period <= #[trigger] points@[i] < 2 * max_period,
        forall|i: int| 0 <= i < points@.len() ==> #[trigger] points@[i] == max_period + i * SAMPLE_STEP,
        points@.len() * SAMPLE_STEP < max_period + SAMPLE_STEP,
        max_period <= points@.len() * SAMPLE_STEP,
{
    let mut points: Vec<i64> = Vec::new();
    let end: u64 = max_period * 2;
    let mut t: u64 = max_period;
    while t < end
        invariant
            max_period <= MAX_PERIOD,
            end == 2 * max_period,
            t == max_period + points@.len() * SAMPLE_STEP,
            max_period <= t < end + SAMPLE_STEP,
            forall|i: int|
                0 <= i < points@.len() ==> #[trigger] points@[i] == max_period + i * SAMPLE_STEP,
        decreases end + SAMPLE_STEP - t,
    {
        points.push(t as i64);
        t = t + SAMPLE_STEP;
    }
    proof {
        let n = points@.len() as int;
        let m = max_period as int;
        assert((m + 50_000 - 1) / 50_000 == n) by (nonlinear_arith)
            requires
                m <= n * 50_000,
                n * 50_000 < m + 50_000,
        ;
        assert(points@ =~= sample_window(max_period as nat));
    }
    points
}

} // verus!
