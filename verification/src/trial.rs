//! Trials: fresh phases for every gate, one peak measurement, one record.

use crate::accumulator::{
    is_bucket_list, lemma_bucket_counts_sum, total_count, Accumulator, BucketRecord, BUCKET_COUNT,
    MAX_SAMPLE,
};
use crate::evaluator::{longest_period, peak_overlap, sample_points, sample_window};
use crate::gate::Gate;
use crate::population::{all_rephased, is_rephased};
use vstd::multiset::Multiset;
use vstd::prelude::*;

verus! {

/// `v` is the peak overlap of the population under one of its possible
/// assignments of phases.
pub open spec fn is_trial_peak(gates: Seq<Gate>, points: Seq<i64>, v: u64) -> bool {
    exists|phased: Seq<Gate>| #[trigger]
        all_rephased(gates, phased) && v == peak_overlap(phased, points)
}

/// The multiset `m` with every element of `values` added.
pub open spec fn with_all(m: Multiset<u64>, values: Seq<u64>) -> Multiset<u64>
    decreases values.len(),
{
    if values.len() == 0 {
        m
    } else {
        with_all(m, values.drop_last()).insert(values.last())
    }
}

/// `after` holds what `before` held and, in addition, the peaks of `trials`
/// trials of the population.
pub open spec fn records_trials(
    before: Multiset<u64>,
    after: Multiset<u64>,
    gates: Seq<Gate>,
    points: Seq<i64>,
    trials: nat,
) -> bool {
    exists|peaks: Seq<u64>|
        {
            &&& peaks.len() == trials
            &&& forall|i: int| 0 <= i < peaks.len() ==> is_trial_peak(gates, points, #[trigger] peaks[i])
            &&& after == #[trigger] with_all(before, peaks)
        }
}

/// Rephasing twice is rephasing once: durations never change and the new
/// start depends on them alone.
pub proof fn lemma_rephased_twice(first: Seq<Gate>, second: Seq<Gate>, third: Seq<Gate>)
    requires
        all_rephased(first, second),
        all_rephased(second, third),
    ensures
        all_rephased(first, third),
{
    assert forall|i: int| 0 <= i < first.len() implies is_rephased(
        first[i]@,
        #[trigger] third[i]@,
    ) by {
        assert(is_rephased(first[i]@, second[i]@));
        assert(is_rephased(second[i]@, third[i]@));
        assert(second[i]@.period() == first[i]@.period());
    }
}

/// Adding values one by one grows a multiset by their number.
pub proof fn lemma_with_all_len(m: Multiset<u64>, values: Seq<u64>)
    ensures
        with_all(m, values).len() == m.len() + values.len(),
        forall|v: u64| m.contains(v) ==> with_all(m, values).contains(v),
        forall|v: u64| #[trigger]
            with_all(m, values).contains(v) ==> m.contains(v) || values.contains(v),
    decreases values.len(),
{
    broadcast use vstd::multiset::group_multiset_axioms;

    if values.len() > 0 {
        let rest = values.drop_last();
        lemma_with_all_len(m, rest);
        vstd::multiset::lemma_insert_len(with_all(m, rest), values.last());
        assert forall|v: u64| #[trigger]
            with_all(m, values).contains(v) implies m.contains(v) || values.contains(v) by {
            if v == values.last() {
                assert(values[values.len() - 1] == v);
            } else {
                assert(with_all(m, rest).contains(v));
                if !m.contains(v) {
                    let i = choose|i: int| 0 <= i < rest.len() && rest[i] == v;
                    assert(values[i] == v);
                }
            }
        }
    }
}

/// The bucket counts of a distribution that started empty add up to the
/// number of trials that were recorded in it.
pub proof fn lemma_bucket_counts_sum_to_trials(
    samples: Multiset<u64>,
    gates: Seq<Gate>,
    points: Seq<i64>,
    trials: nat,
    buckets: u64,
    records: Seq<BucketRecord>,
)
    requires
        records_trials(Multiset::<u64>::empty(), samples, gates, points, trials),
        trials <= u64::MAX,
        buckets > 0,
        is_bucket_list(samples, buckets, records),
    ensures
        total_count(records) == trials,
{
    broadcast use vstd::multiset::group_multiset_axioms;

    let peaks = choose|peaks: Seq<u64>|
        {
            &&& peaks.len() == trials
            &&& forall|i: int|
                0 <= i < peaks.len() ==> is_trial_peak(gates, points, #[trigger] peaks[i])
            &&& samples == #[trigger] with_all(Multiset::<u64>::empty(), peaks)
        };
    lemma_with_all_len(Multiset::<u64>::empty(), peaks);
    lemma_bucket_counts_sum(samples, buckets, records);
}

/// Runs one trial: draws a fresh start time for every gate, measures the peak
/// overlap over the sampled instants and records it.
pub fn run_trial(gates: &mut Vec<Gate>, points: &[i64], accumulator: &mut Accumulator) -> (peak:
    u64)
    requires
        old(accumulator)@.wf(),
        old(accumulator)@.samples.len() < u64::MAX,
        old(gates)@.len() <= MAX_SAMPLE,
    ensures
        all_rephased(old(gates)@, final(gates)@),
        peak == peak_overlap(final(gates)@, points@),
        is_trial_peak(old(gates)@, points@, peak),
        final(accumulator)@.wf(),
        final(accumulator)@.samples == old(accumulator)@.samples.insert(peak),
        final(accumulator)@.buckets == old(accumulator)@.buckets,
{
    Gate::randomize_start_time(gates);
    let peak: u64 = Gate::evaluate_max_on_range(gates.as_slice(), points);
    accumulator.add(peak);
    peak
}

/// Runs `trial_count` trials one after the other on the same population and
/// records the peak of each.
pub fn run_trials(
    gates: &mut Vec<Gate>,
    trial_count: u64,
    points: &[i64],
    accumulator: &mut Accumulator,
)
    requires
        old(accumulator)@.wf(),
        old(accumulator)@.samples.len() + trial_count <= u64::MAX,
        old(gates)@.len() <= MAX_SAMPLE,
    ensures
        trial_count == 0 ==> final(gates)@ == old(gates)@,
        trial_count > 0 ==> all_rephased(old(gates)@, final(gates)@),
        final(accumulator)@.wf(),
        final(accumulator)@.buckets == old(accumulator)@.buckets,
        final(accumulator)@.samples.len() == old(accumulator)@.samples.len() + trial_count,
        records_trials(
            old(accumulator)@.samples,
            final(accumulator)@.samples,
            old(gates)@,
            points@,
            trial_count as nat,
        ),
{
    let ghost mut peaks: Seq<u64> = Seq::empty();
    let mut done: u64 = 0;
    while done < trial_count
        invariant
            done <= trial_count,
            accumulator@.wf(),
            accumulator@.buckets == old(accumulator)@.buckets,
            old(accumulator)@.samples.len() + trial_count <= u64::MAX,
            accumulator@.samples.len() == old(accumulator)@.samples.len() + done,
            gates@.len() == old(gates)@.len(),
            old(gates)@.len() <= MAX_SAMPLE,
            done == 0 ==> gates@ == old(gates)@,
            done > 0 ==> all_rephased(old(gates)@, gates@),
            peaks.len() == done,
            forall|i: int|
                0 <= i < peaks.len() ==> is_trial_peak(old(gates)@, points@, #[trigger] peaks[i]),
            accumulator@.samples == with_all(old(accumulator)@.samples, peaks),
        decreases trial_count - done,
    {
        let ghost before = gates@;
        let ghost recorded = accumulator@.samples;
        let peak = run_trial(gates, points, accumulator);
        proof {
            broadcast use vstd::multiset::group_multiset_axioms;

            vstd::multiset::lemma_insert_len(recorded, peak);
            if done > 0 {
                lemma_rephased_twice(old(gates)@, before, gates@);
            }
            assert(all_rephased(old(gates)@, gates@));
            let ghost longer = peaks.push(peak);
            assert(longer.drop_last() =~= peaks);
            assert(longer.last() == peak);
            assert forall|i: int| 0 <= i < longer.len() implies is_trial_peak(
                old(gates)@,
                points@,
                #[trigger] longer[i],
            ) by {
                if i < peaks.len() {
                    assert(longer[i] == peaks[i]);
                }
            }
            peaks = longer;
        }
        done = done + 1;
    }
}

/// Runs one scenario on a population: samples the window that belongs to its
/// longest period, runs `trial_count` trials and returns the distribution of
/// their peaks in [`BUCKET_COUNT`] buckets.
pub fn run_gates(gates: Vec<Gate>, trial_count: u64) -> (accumulator: Accumulator)
    requires
        gates@.len() <= MAX_SAMPLE,
    ensures
        accumulator@.wf(),
        accumulator@.buckets == BUCKET_COUNT,
        accumulator@.samples.len() == trial_count,
        records_trials(
            Multiset::<u64>::empty(),
            accumulator@.samples,
            gates@,
            sample_window(longest_period(gates@)),
            trial_count as nat,
        ),
{
    let mut gates = gates;
    let max_period: u64 = Gate::max_period(gates.as_slice());
    let points: Vec<i64> = sample_points(max_period);
    let mut accumulator = Accumulator::new();
    proof {
        broadcast use vstd::multiset::group_multiset_axioms;

    }
    run_trials(&mut gates, trial_count, points.as_slice(), &mut accumulator);
    accumulator
}

} // verus!
