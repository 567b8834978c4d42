//! Coherent groups: a share of a population replaced by groups of identical
//! gates.

use crate::gate::Gate;
use crate::population::{is_generated, MIN_PERIOD_SECONDS};
use crate::ratio::{lemma_scaled_bounds, Ratio, RatioModel};
use vstd::prelude::*;

verus! {

/// Number of gates removed when `share` of a population of `len` is replaced.
pub open spec fn dropped_count(len: nat, share: RatioModel) -> nat {
    share.floor_of(len)
}

/// Number of copies in each group: the removed gates divided evenly among the
/// groups, but never fewer than one.
pub open spec fn group_size(dropped: nat, groups: nat) -> nat {
    if dropped / groups == 0 {
        1
    } else {
        dropped / groups
    }
}

/// Size of a population of `len` gates after `share` of it was replaced by
/// `groups` groups.
pub open spec fn coherent_size(len: nat, share: RatioModel, groups: nat) -> nat {
    (len - dropped_count(len, share) + groups * group_size(dropped_count(len, share), groups)) as nat
}

/// `copies` copies of the first wave, then `copies` of the second, and so on.
pub open spec fn repeated_waves(waves: Seq<Gate>, copies: nat) -> Seq<Gate>
    decreases waves.len(),
{
    if waves.len() == 0 {
        Seq::empty()
    } else {
        repeated_waves(waves.drop_last(), copies) + Seq::new(copies, |i: int| waves.last())
    }
}

/// The population `gates` with its last `dropped_count` gates removed and one
/// group of identical copies appended for each wave.
pub open spec fn with_groups(gates: Seq<Gate>, share: RatioModel, waves: Seq<Gate>) -> Seq<Gate> {
    let dropped = dropped_count(gates.len(), share);
    gates.take(gates.len() - dropped) + repeated_waves(
        waves,
        group_size(dropped, waves.len()),
    )
}

/// The length of `repeated_waves` is the number of waves times the copies.
pub proof fn lemma_repeated_waves_len(waves: Seq<Gate>, copies: nat)
    ensures
        repeated_waves(waves, copies).len() == waves.len() * copies,
    decreases waves.len(),
{
    if waves.len() > 0 {
        lemma_repeated_waves_len(waves.drop_last(), copies);
        assert(waves.len() * copies == (waves.len() - 1) * copies + copies) by (nonlinear_arith);
    } else {
        assert(0 * copies == 0);
    }
}

/// Replacing a share of a population by groups yields a population of
/// `len - dropped + groups * max(1, dropped / groups)` gates.
pub proof fn lemma_with_groups_len(gates: Seq<Gate>, share: RatioModel, waves: Seq<Gate>)
    requires
        share.wf(),
        waves.len() > 0,
    ensures
        with_groups(gates, share, waves).len() == coherent_size(gates.len(), share, waves.len()),
        dropped_count(gates.len(), share) <= gates.len(),
{
    lemma_scaled_bounds(share, gates.len());
    lemma_repeated_waves_len(waves, group_size(dropped_count(gates.len(), share), waves.len()));
}

/// Removes `share` of the population from its end and appends, for each
/// wave, one group of identical copies of it.
pub fn replace_with_groups(gates: Vec<Gate>, share: Ratio, waves: &Vec<Gate>) -> (r: Vec<Gate>)
    requires
        waves@.len() > 0,
    ensures
        r@ == with_groups(gates@, share@, waves@),
        r@.len() == coherent_size(gates@.len(), share@, waves@.len()),
{
    let mut gates = gates;
    let ghost initial = gates@;
    let len: usize = gates.len();
    let to_drop: usize = share.floor_of(len as u64) as usize;
    gates.truncate(len - to_drop);
    let mut per_group: usize = to_drop / waves.len();
    if per_group == 0 {
        per_group = 1;
    }
    proof {
        lemma_with_groups_len(initial, share@, waves@);
        assert(waves@.take(0) =~= Seq::<Gate>::empty());
        assert(gates@ + repeated_waves(waves@.take(0), per_group as nat) =~= gates@);
    }
    let ghost kept = gates@;
    let mut group: usize = 0;
    while group < waves.len()
        invariant
            group <= waves@.len(),
            gates@ == kept + repeated_waves(waves@.take(group as int), per_group as nat),
        decreases waves@.len() - group,
    {
        let wave: Gate = waves[group];
        let ghost before = gates@;
        let mut copy: usize = 0;
        while copy < per_group
            invariant
                copy <= per_group,
                gates@ == before + Seq::new(copy as nat, |i: int| wave),
            decreases per_group - copy,
        {
            gates.push(wave);
            copy = copy + 1;
            assert(gates@ =~= before + Seq::new(copy as nat, |i: int| wave));
        }
        proof {
            let next = waves@.take(group + 1);
            assert(next.drop_last() =~= waves@.take(group as int));
            assert(next.last() == wave);
            assert(gates@ =~= kept + repeated_waves(next, per_group as nat));
        }
        group = group + 1;
    }
    assert(waves@.take(waves@.len() as int) =~= waves@);
    gates
}

/// Replaces `percentage` of the population by `groups_count` coherent groups,
/// each made of copies of one freshly generated gate.
pub fn with_coherency(
    gates: Vec<Gate>,
    percentage: Ratio,
    groups_count: u32,
    max_period: u32,
    high_ratio: Ratio,
) -> (r: Vec<Gate>)
    requires
        groups_count > 0,
        MIN_PERIOD_SECONDS < max_period,
    ensures
        exists|waves: Seq<Gate>|
            {
                &&& waves.len() == groups_count
                &&& forall|j: int|
                    0 <= j < waves.len() ==> is_generated(
                        #[trigger] waves[j]@,
                        max_period as nat,
                        high_ratio@,
                    )
                &&& r@ == #[trigger] with_groups(gates@, percentage@, waves)
            },
        r@.len() == coherent_size(gates@.len(), percentage@, groups_count as nat),
{
    let mut waves: Vec<Gate> = Vec::new();
    let mut made: u32 = 0;
    while made < groups_count
        invariant
            made <= groups_count,
            MIN_PERIOD_SECONDS < max_period,
            waves@.len() == made,
            forall|j: int|
                0 <= j < waves@.len() ==> is_generated(
                    #[trigger] waves@[j]@,
                    max_period as nat,
                    high_ratio@,
                ),
        decreases groups_count - made,
    {
        let wave = Gate::new_random_periodic(max_period, high_ratio);
        waves.push(wave);
        made = made + 1;
    }
    replace_with_groups(gates, percentage, &waves)
}

} // verus!
